//! JSON, base64, protocol messages and the round guard.
use talk_with_anyone::base64::{b64_encode_short, decode_base64};
use talk_with_anyone::json::{append_json_string, json_bool, json_raw, json_string, json_u32, unescape};
use talk_with_anyone::round::{AsrResultAction, RoundTracker};
use talk_with_anyone::text::{decode_scalar, push_decimal};
use talk_with_anyone::voice_client::{
    build_client_stats, build_interrupt, build_session_start, build_session_stop,
    build_tts_request, parse_server_message, ws_path_with_token, ServerEvent,
};

fn decoded(s: &str) -> Vec<u8> {
    let mut v = Vec::new();
    decode_base64(s.as_bytes(), &mut v);
    v
}

fn encoded(d: &[u8]) -> String {
    let mut s = String::from("old content");
    b64_encode_short(d, &mut s);
    s
}

#[test]
fn base64_known_values() {
    assert_eq!(decoded("aGVsbG8="), b"hello");
    assert_eq!(decoded("aGVsbG8"), b"hello");
    assert_eq!(decoded(""), b"");
    assert_eq!(decoded("//79"), vec![0xff, 0xfe, 0xfd]);
    assert_eq!(encoded(b"hello"), "aGVsbG8=");
    assert_eq!(encoded(b""), "");
    assert_eq!(encoded(&[0xff, 0xfe, 0xfd]), "//79");
    assert_eq!(encoded(&[0; 16]), "AAAAAAAAAAAAAAAAAAAAAA==");
}

#[test]
fn base64_skips_what_is_no_symbol() {
    assert_eq!(decoded("aG\r\nVs bG*8="), b"hello");
    assert_eq!(decoded("===="), b"");
}

#[test]
fn base64_appends_to_what_is_there() {
    let mut v = vec![1, 2];
    decode_base64(b"AwQ=", &mut v);
    assert_eq!(v, vec![1, 2, 3, 4]);
}

#[test]
fn base64_round_trip() {
    for n in 0..40usize {
        let d: Vec<u8> = (0..n).map(|i| (i * 37 + n * 11) as u8).collect();
        assert_eq!(decoded(&encoded(&d)), d);
    }
}

#[test]
fn decimal_numbers() {
    for (n, t) in [(0u32, "0"), (7, "7"), (10, "10"), (16000, "16000"), (u32::MAX, "4294967295")] {
        let mut s = String::from("x");
        push_decimal(&mut s, n);
        assert_eq!(s, format!("x{}", t));
    }
}

#[test]
fn scalars_decode() {
    assert_eq!(decode_scalar(b"A", 0), Some(('A', 1)));
    assert_eq!(decode_scalar("é".as_bytes(), 0), Some(('é', 2)));
    assert_eq!(decode_scalar("我".as_bytes(), 0), Some(('我', 3)));
    assert_eq!(decode_scalar("😀".as_bytes(), 0), Some(('😀', 4)));
    assert_eq!(decode_scalar("我".as_bytes(), 1), None);
    assert_eq!(decode_scalar(&[0xc0, 0x80], 0), None);
    assert_eq!(decode_scalar(&[0xed, 0xa0, 0x80], 0), None);
    assert_eq!(decode_scalar(&[0xf4, 0x90, 0x80, 0x80], 0), None);
    assert_eq!(decode_scalar(&[0xe6, 0x88], 0), None);
}

#[test]
fn fields_of_an_object() {
    let p = br#" { "a" : "x" , "n":42,"b":true , "c":false,"z":null, "o":{"a":"inner","q":"}"}, "l":[1,[2],"]"], "last":"y"}"#;
    assert_eq!(json_string(p, b"a"), Some(String::from("x")));
    assert_eq!(json_u32(p, b"n"), Some(42));
    assert_eq!(json_bool(p, b"b"), Some(true));
    assert_eq!(json_bool(p, b"c"), Some(false));
    assert_eq!(json_string(p, b"last"), Some(String::from("y")));
    assert_eq!(json_raw(p, b"o"), Some(&br#"{"a":"inner","q":"}"}"#[..]));
    assert_eq!(json_raw(p, b"l"), Some(&br#"[1,[2],"]"]"#[..]));
    assert_eq!(json_string(p, b"q"), None);
    assert_eq!(json_string(p, b"n"), None);
    assert_eq!(json_u32(p, b"a"), None);
    assert_eq!(json_bool(p, b"z"), None);
}

#[test]
fn unsigned_numbers() {
    assert_eq!(json_u32(br#"{"n":4294967295}"#, b"n"), Some(u32::MAX));
    assert_eq!(json_u32(br#"{"n":4294967296}"#, b"n"), None);
    assert_eq!(json_u32(br#"{"n":-1}"#, b"n"), None);
    assert_eq!(json_u32(br#"{"n":1.5}"#, b"n"), None);
    assert_eq!(json_u32(br#"{"n":+5}"#, b"n"), Some(5));
    assert_eq!(json_u32(br#"{"n":007}"#, b"n"), Some(7));
    assert_eq!(json_u32(br#"{"n":true}"#, b"n"), None);
    assert_eq!(json_u32(br#"{}"#, b"n"), None);
}

#[test]
fn lenient_up_to_the_broken_place() {
    let p = br#"{"a":"1","b":tru,"c":"3"}"#;
    assert_eq!(json_string(p, b"a"), Some(String::from("1")));
    assert_eq!(json_string(p, b"c"), None);
    assert_eq!(json_string(br#"{"a":"1" "b":"2"}"#, b"b"), None);
    assert_eq!(json_string(br#"{"a":"1"#, b"a"), None);
    assert_eq!(json_string(b"[]", b"a"), None);
    assert_eq!(json_string(b"", b"a"), None);
    assert_eq!(json_string(br#"{"a":"1"} trailing"#, b"a"), Some(String::from("1")));
    // The first of two entries counts.
    assert_eq!(json_string(br#"{"a":"1","a":"2"}"#, b"a"), Some(String::from("1")));
}

#[test]
fn escapes_are_resolved() {
    assert_eq!(unescape(br#"\" \\ \/ \b \f \n \r \t"#), "\" \\ / \u{8} \u{c} \n \r \t");
    assert_eq!(unescape(b"\\u4f60\\u597D"), "你好");
    assert_eq!(unescape(b"\\ud83d\\ude00"), "\u{fffd}\u{fffd}");
    assert_eq!(unescape("直接".as_bytes()), "直接");
}

#[test]
fn broken_escapes_are_literal() {
    assert_eq!(unescape(br#"a\qb"#), "a\\qb");
    assert_eq!(unescape(br#"\u12"#), "\\u12");
    assert_eq!(unescape(br#"\uzzzz"#), "\\uzzzz");
    assert_eq!(unescape(br#"end\"#), "end\\");
}

#[test]
fn stray_bytes_are_dropped() {
    assert_eq!(unescape(&[b'a', 0xff, b'b', 0xe6, 0x88]), "ab");
}

#[test]
fn string_literals() {
    let mut s = String::from("=");
    append_json_string(&mut s, "a\"b\\c\n\r\t\u{1}\u{1f}我");
    assert_eq!(s, "=\"a\\\"b\\\\c\\n\\r\\t\\u0001\\u001f我\"");
}

#[test]
fn literals_read_back() {
    for t in ["", "plain", "引号\"与\\反斜杠", "a\nb\tc\u{0}", "end\\"] {
        let mut s = String::from("{\"text\":");
        append_json_string(&mut s, t);
        s.push('}');
        assert_eq!(json_string(s.as_bytes(), b"text").as_deref(), Some(t));
    }
}

#[test]
fn every_server_message() {
    let cases: Vec<(&str, ServerEvent)> = vec![
        (r#"{"type":"server.ready","session_id":"x"}"#, ServerEvent::ServerReady),
        (r#"{"type":"session.ready"}"#, ServerEvent::SessionReady),
        (r#"{"type":"vad.speaking","speaking":true}"#, ServerEvent::VadSpeaking(true)),
        (r#"{"type":"vad.speaking"}"#, ServerEvent::VadSpeaking(false)),
        (r#"{"text":"你好","type":"asr.result"}"#, ServerEvent::AsrResult("你好".into())),
        (r#"{"type":"assistant.delta","text":"嗯"}"#, ServerEvent::AssistantDelta("嗯".into())),
        (r#"{"type":"assistant.delta"}"#, ServerEvent::AssistantDelta("".into())),
        (r#"{"type":"audio.start","sample_rate":24000}"#, ServerEvent::AudioStart(Some(24000))),
        (r#"{"type":"audio.start"}"#, ServerEvent::AudioStart(None)),
        (r#"{"type":"audio.chunk","data":"AAA="}"#, ServerEvent::AudioChunk("AAA=".into())),
        (r#"{"type":"audio.done"}"#, ServerEvent::AudioDone),
        (r#"{"type":"assistant.completed","text":"好"}"#, ServerEvent::AssistantCompleted("好".into())),
        (r#"{"type":"assistant.error","message":"m"}"#, ServerEvent::AssistantError("m".into())),
        (r#"{"type":"interrupt.ack"}"#, ServerEvent::InterruptAck),
        (r#"{"type":"session.closed"}"#, ServerEvent::SessionClosed),
        (r#"{"type":"audio.file","path":"/a"}"#, ServerEvent::AudioFile("/a".into())),
        (r#"{"type":"error","message":"m","error":"e"}"#, ServerEvent::Error("m".into())),
        (r#"{"type":"asr.error","error":"e"}"#, ServerEvent::Error("e".into())),
        (r#"{"type":"error"}"#, ServerEvent::Error("".into())),
        (r#"{"type":"something.new","x":[1,2]}"#, ServerEvent::Unknown),
        (r#"{"kind":"server.ready"}"#, ServerEvent::Unknown),
        ("not json", ServerEvent::Unknown),
        ("", ServerEvent::Unknown),
    ];
    for (text, ev) in cases {
        assert_eq!(parse_server_message(text.as_bytes()), ev, "{}", text);
    }
}

#[test]
fn client_messages() {
    let mut s = String::from("left over");
    build_session_start(&mut s);
    assert_eq!(s, r#"{"type":"session.start","mode":"chat"}"#);
    build_interrupt(&mut s);
    assert_eq!(s, r#"{"type":"interrupt"}"#);
    build_session_stop(&mut s);
    assert_eq!(s, r#"{"type":"session.stop"}"#);
    build_client_stats(1011, &mut s);
    assert_eq!(s, r#"{"type":"client_stats","llm_first_token_to_audio_ms":1011}"#);
    build_tts_request("说\"好\"", 16000, &mut s);
    assert_eq!(s, r#"{"text":"说\"好\"","sample_rate":16000}"#);
}

#[test]
fn client_messages_read_back() {
    let mut s = String::new();
    build_tts_request("一\n\"二\"\\", 24000, &mut s);
    assert_eq!(json_string(s.as_bytes(), b"text"), Some(String::from("一\n\"二\"\\")));
    assert_eq!(json_u32(s.as_bytes(), b"sample_rate"), Some(24000));
    build_client_stats(u32::MAX, &mut s);
    assert_eq!(json_string(s.as_bytes(), b"type"), Some(String::from("client_stats")));
    assert_eq!(json_u32(s.as_bytes(), b"llm_first_token_to_audio_ms"), Some(u32::MAX));
}

#[test]
fn channel_path() {
    assert_eq!(ws_path_with_token("/ws/voice", ""), "/ws/voice");
    assert_eq!(ws_path_with_token("/ws/voice", "t0k"), "/ws/voice?token=t0k");
}

#[test]
fn a_round_from_start_to_end() {
    let mut t = RoundTracker::new();
    t.mic_start();
    assert!(t.mic_is_active());
    assert_eq!(t.on_asr_result(), AsrResultAction { stop_playback: false, pause_mic: true });
    assert!(!t.mic_is_active());
    assert_eq!(t.on_assistant_delta(100), (true, true));
    assert_eq!(t.on_assistant_delta(150), (true, false));
    assert!(t.on_voice_audio_start());
    assert_eq!(t.on_audio_chunk(350), (true, Some(250)));
    assert_eq!(t.on_audio_chunk(400), (true, None));
    assert!(t.on_audio_done());
    assert!(!t.on_audio_done());
    assert!(!t.on_completed());
    assert!(t.round_finalized);
}

#[test]
fn late_content_is_refused() {
    let mut t = RoundTracker::default();
    t.on_assistant_delta(10);
    assert!(t.finalize_partial());
    assert!(!t.finalize_partial());
    let before = t.clone();
    assert_eq!(t.on_assistant_delta(20), (false, false));
    assert!(!t.on_voice_audio_start());
    assert_eq!(t.on_audio_chunk(30), (false, None));
    assert!(!t.on_completed());
    assert_eq!(t, before);
    t.on_asr_result();
    assert_eq!(t.on_assistant_delta(40), (true, true));
}

#[test]
fn audio_before_text_is_reported_later() {
    let mut t = RoundTracker::new();
    t.on_voice_audio_start();
    assert_eq!(t.on_audio_chunk(5), (true, None));
    t.on_assistant_delta(7);
    assert_eq!(t.on_audio_chunk(9), (true, Some(2)));
    assert_eq!(t.on_audio_chunk(11), (true, None));
}

#[test]
fn silent_reply_asks_for_synthesis() {
    let mut t = RoundTracker::new();
    t.on_assistant_delta(1);
    assert!(t.on_completed());
    // A stream that opens and brings nothing is silent too.
    let mut u = RoundTracker::new();
    u.on_voice_audio_start();
    assert!(u.on_completed());
    // A block rules synthesis out, also without a start before it.
    let mut v = RoundTracker::new();
    assert_eq!(v.on_audio_chunk(5), (true, None));
    assert!(!v.on_completed());
    assert!(v.round_finalized);
    // A block for a closed round is no block of the round.
    let mut w = RoundTracker::new();
    w.finalize_partial();
    assert_eq!(w.on_audio_chunk(5), (false, None));
    assert!(!w.received_audio);
}

#[test]
fn text_at_time_zero_is_reported_too() {
    let mut t = RoundTracker::new();
    assert_eq!(t.on_assistant_delta(0), (true, true));
    assert_eq!(t.on_audio_chunk(5), (true, Some(5)));
    assert_eq!(t.on_audio_chunk(6), (true, None));
}

#[test]
fn next_result_stops_open_stream() {
    let mut t = RoundTracker::new();
    t.on_voice_audio_start();
    assert_eq!(t.on_asr_result(), AsrResultAction { stop_playback: true, pause_mic: false });
    assert_eq!(t, RoundTracker::new());
}

#[test]
fn error_brings_the_uplink_back() {
    let mut t = RoundTracker::new();
    assert!(t.resume_mic_on_error());
    assert!(!t.resume_mic_on_error());
    assert!(t.mic_is_active());
    t.mic_pause();
    assert!(!t.mic_is_active());
    t.mic_start();
    t.reset();
    assert!(t.mic_is_active());
}

#[test]
fn unknown_fields_in_front_do_not_matter() {
    for value in ["\"a \\\" b\"", "-12.5e3", "true", "null", "{\"type\":\"no\"}", "[1,[2],\"]\"]"] {
        let m = format!("{{\"extra\":{value},\"type\":\"audio.start\",\"sample_rate\":16000}}");
        assert_eq!(parse_server_message(m.as_bytes()), ServerEvent::AudioStart(Some(16000)));
    }
}

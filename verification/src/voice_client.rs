//! The messages of the voice protocol.
//!
//! Down: JSON text frames, told apart by their `type` field. Up: binary frames of
//! PCM16 at 16 kHz, and the control messages built here.
use vstd::prelude::*;
use vstd::utf8::*;
use crate::json::{append_json_string, json_bool, json_string, json_u32};
use crate::text::{is_text, push_decimal};
use crate::{json, json_laws, text};

verus! {

/// An event from the server.
#[derive(Debug, Clone, PartialEq)]
pub enum ServerEvent {
    /// The connection is established.
    ServerReady,
    /// Answer to the session start.
    SessionReady,
    /// Whether the server hears speech.
    VadSpeaking(bool),
    /// Recognised speech: a new round begins.
    AsrResult(String),
    /// A piece of reply text.
    AssistantDelta(String),
    /// The audio stream of the reply opens, at the given rate where one is named.
    AudioStart(Option<u32>),
    /// A block of the audio stream, still base64.
    AudioChunk(String),
    /// The audio stream is complete.
    AudioDone,
    /// The reply is complete; its whole text.
    AssistantCompleted(String),
    /// The reply failed.
    AssistantError(String),
    /// The server confirms an interruption.
    InterruptAck,
    /// The server ends the session.
    SessionClosed,
    /// The reply audio lies in a file, which the device does not fetch.
    AudioFile(String),
    /// A general error.
    Error(String),
    /// Anything else.
    Unknown,
}

/// A server event with its texts as character sequences.
pub enum EventView {
    ServerReady,
    SessionReady,
    VadSpeaking(bool),
    AsrResult(Seq<char>),
    AssistantDelta(Seq<char>),
    AudioStart(Option<u32>),
    AudioChunk(Seq<char>),
    AudioDone,
    AssistantCompleted(Seq<char>),
    AssistantError(Seq<char>),
    InterruptAck,
    SessionClosed,
    AudioFile(Seq<char>),
    Error(Seq<char>),
    Unknown,
}

impl View for ServerEvent {
    type V = EventView;

    open spec fn view(&self) -> EventView {
        match self {
            ServerEvent::ServerReady => EventView::ServerReady,
            ServerEvent::SessionReady => EventView::SessionReady,
            ServerEvent::VadSpeaking(b) => EventView::VadSpeaking(*b),
            ServerEvent::AsrResult(t) => EventView::AsrResult(t@),
            ServerEvent::AssistantDelta(t) => EventView::AssistantDelta(t@),
            ServerEvent::AudioStart(r) => EventView::AudioStart(*r),
            ServerEvent::AudioChunk(t) => EventView::AudioChunk(t@),
            ServerEvent::AudioDone => EventView::AudioDone,
            ServerEvent::AssistantCompleted(t) => EventView::AssistantCompleted(t@),
            ServerEvent::AssistantError(t) => EventView::AssistantError(t@),
            ServerEvent::InterruptAck => EventView::InterruptAck,
            ServerEvent::SessionClosed => EventView::SessionClosed,
            ServerEvent::AudioFile(t) => EventView::AudioFile(t@),
            ServerEvent::Error(t) => EventView::Error(t@),
            ServerEvent::Unknown => EventView::Unknown,
        }
    }
}

/// A field name as bytes.
pub open spec fn key(name: &str) -> Seq<u8> {
    encode_utf8(name@)
}

/// A string field, empty where it is missing.
pub open spec fn text_or_empty(t: Option<Seq<char>>) -> Seq<char> {
    match t {
        Some(t) => t,
        None => Seq::empty(),
    }
}

/// The event that a text frame carries.
pub open spec fn server_event(p: Seq<u8>) -> EventView {
    match json::string_field(p, key("type")) {
        None => EventView::Unknown,
        Some(ty) => {
            if ty == "server.ready"@ {
                EventView::ServerReady
            } else if ty == "session.ready"@ {
                EventView::SessionReady
            } else if ty == "vad.speaking"@ {
                EventView::VadSpeaking(json::bool_field(p, key("speaking")) == Some(true))
            } else if ty == "asr.result"@ {
                EventView::AsrResult(text_or_empty(json::string_field(p, key("text"))))
            } else if ty == "assistant.delta"@ {
                EventView::AssistantDelta(text_or_empty(json::string_field(p, key("text"))))
            } else if ty == "audio.start"@ {
                EventView::AudioStart(json::u32_field(p, key("sample_rate")))
            } else if ty == "audio.chunk"@ {
                EventView::AudioChunk(text_or_empty(json::string_field(p, key("data"))))
            } else if ty == "audio.done"@ {
                EventView::AudioDone
            } else if ty == "assistant.completed"@ {
                EventView::AssistantCompleted(text_or_empty(json::string_field(p, key("text"))))
            } else if ty == "assistant.error"@ {
                EventView::AssistantError(text_or_empty(json::string_field(p, key("message"))))
            } else if ty == "interrupt.ack"@ {
                EventView::InterruptAck
            } else if ty == "session.closed"@ {
                EventView::SessionClosed
            } else if ty == "audio.file"@ {
                EventView::AudioFile(text_or_empty(json::string_field(p, key("path"))))
            } else if ty == "error"@ || ty == "asr.error"@ {
                EventView::Error(
                    match json::string_field(p, key("message")) {
                        Some(t) => t,
                        None => text_or_empty(json::string_field(p, key("error"))),
                    },
                )
            } else {
                EventView::Unknown
            }
        },
    }
}

fn string_or_empty(payload: &[u8], name: &str) -> (t: String)
    ensures
        t@ == text_or_empty(json::string_field(payload@, key(name))),
{
    match json_string(payload, name.as_bytes()) {
        Some(t) => t,
        None => String::new(),
    }
}

/// Reads one text frame. A message that cannot be read is `Unknown`.
pub fn parse_server_message(payload: &[u8]) -> (ev: ServerEvent)
    ensures
        ev@ == server_event(payload@),
{
    let ty = match json_string(payload, "type".as_bytes()) {
        Some(t) => t,
        None => {
            return ServerEvent::Unknown;
        },
    };
    if is_text(&ty, "server.ready") {
        ServerEvent::ServerReady
    } else if is_text(&ty, "session.ready") {
        ServerEvent::SessionReady
    } else if is_text(&ty, "vad.speaking") {
        let speaking = match json_bool(payload, "speaking".as_bytes()) {
            Some(b) => b,
            None => false,
        };
        ServerEvent::VadSpeaking(speaking)
    } else if is_text(&ty, "asr.result") {
        ServerEvent::AsrResult(string_or_empty(payload, "text"))
    } else if is_text(&ty, "assistant.delta") {
        ServerEvent::AssistantDelta(string_or_empty(payload, "text"))
    } else if is_text(&ty, "audio.start") {
        ServerEvent::AudioStart(json_u32(payload, "sample_rate".as_bytes()))
    } else if is_text(&ty, "audio.chunk") {
        ServerEvent::AudioChunk(string_or_empty(payload, "data"))
    } else if is_text(&ty, "audio.done") {
        ServerEvent::AudioDone
    } else if is_text(&ty, "assistant.completed") {
        ServerEvent::AssistantCompleted(string_or_empty(payload, "text"))
    } else if is_text(&ty, "assistant.error") {
        ServerEvent::AssistantError(string_or_empty(payload, "message"))
    } else if is_text(&ty, "interrupt.ack") {
        ServerEvent::InterruptAck
    } else if is_text(&ty, "session.closed") {
        ServerEvent::SessionClosed
    } else if is_text(&ty, "audio.file") {
        ServerEvent::AudioFile(string_or_empty(payload, "path"))
    } else if is_text(&ty, "error") || is_text(&ty, "asr.error") {
        let msg = match json_string(payload, "message".as_bytes()) {
            Some(t) => t,
            None => string_or_empty(payload, "error"),
        };
        ServerEvent::Error(msg)
    } else {
        ServerEvent::Unknown
    }
}

// ---------- messages to the server ----------

/// Opens the session, first thing on a new connection.
pub fn build_session_start(out: &mut String)
    ensures
        final(out)@ == "{\"type\":\"session.start\",\"mode\":\"chat\"}"@,
{
    out.clear();
    out.push_str("{\"type\":\"session.start\",\"mode\":\"chat\"}");
    assert(out@ =~= "{\"type\":\"session.start\",\"mode\":\"chat\"}"@);
}

/// Interrupts the reply under way.
pub fn build_interrupt(out: &mut String)
    ensures
        final(out)@ == "{\"type\":\"interrupt\"}"@,
{
    out.clear();
    out.push_str("{\"type\":\"interrupt\"}");
    assert(out@ =~= "{\"type\":\"interrupt\"}"@);
}

/// Ends the session.
pub fn build_session_stop(out: &mut String)
    ensures
        final(out)@ == "{\"type\":\"session.stop\"}"@,
{
    out.clear();
    out.push_str("{\"type\":\"session.stop\"}");
    assert(out@ =~= "{\"type\":\"session.stop\"}"@);
}

/// The text of a latency report.
pub open spec fn client_stats(ms: u32) -> Seq<char> {
    "{\"type\":\"client_stats\",\"llm_first_token_to_audio_ms\":"@ + text::decimal(ms as nat) + "}"@
}

/// Reports the delay from the first reply text to the first audio block after it.
pub fn build_client_stats(llm_first_token_to_audio_ms: u32, out: &mut String)
    ensures
        final(out)@ == client_stats(llm_first_token_to_audio_ms),
{
    out.clear();
    out.push_str("{\"type\":\"client_stats\",\"llm_first_token_to_audio_ms\":");
    push_decimal(out, llm_first_token_to_audio_ms);
    out.push_str("}");
    assert(out@ =~= client_stats(llm_first_token_to_audio_ms));
}

/// The text of a synthesis request.
pub open spec fn tts_request(text: Seq<char>, sample_rate: u32) -> Seq<char> {
    "{\"text\":"@ + json::literal(text) + ",\"sample_rate\":"@ + text::decimal(sample_rate as nat) + "}"@
}

/// Asks the synthesis channel to speak `text`, resampled to `sample_rate`.
pub fn build_tts_request(text: &str, sample_rate: u32, out: &mut String)
    ensures
        final(out)@ == tts_request(text@, sample_rate),
{
    out.clear();
    out.push_str("{\"text\":");
    append_json_string(out, text);
    out.push_str(",\"sample_rate\":");
    push_decimal(out, sample_rate);
    out.push_str("}");
    assert(out@ =~= tts_request(text@, sample_rate));
}

/// A channel path with the access token as query parameter, where there is one.
pub fn ws_path_with_token(path: &str, token: &str) -> (s: String)
    ensures
        token@.len() == 0 ==> s@ == path@,
        token@.len() > 0 ==> s@ == path@ + "?token="@ + token@,
{
    let mut s = path.to_owned();
    if !token.is_empty() {
        s.push_str("?token=");
        s.push_str(token);
    }
    s
}

/// A synthesis request carries its text and its rate: reading the two fields back gives
/// what was asked for, whatever the text holds.
pub proof fn law_tts_request_reads_back(text: Seq<char>, sample_rate: u32)
    ensures
        json::string_field(encode_utf8(tts_request(text, sample_rate)), key("text")) == Some(text),
        json::u32_field(encode_utf8(tts_request(text, sample_rate)), key("sample_rate")) == Some(
            sample_rate,
        ),
{
    assert(tts_request(text, sample_rate) =~= json_laws::string_and_number(
        "text"@,
        text,
        "sample_rate"@,
        sample_rate,
    )) by {
        reveal_strlit("{\"text\":");
        reveal_strlit(",\"sample_rate\":");
        reveal_strlit("}");
        reveal_strlit("text");
        reveal_strlit("sample_rate");
        assert("{\"text\":"@ =~= seq!['{'] + json_laws::label("text"@));
        assert(",\"sample_rate\":"@ =~= seq![','] + json_laws::label("sample_rate"@));
        assert("}"@ =~= seq!['}']);
    }
    assert(json_laws::is_name("text"@) && json_laws::is_name("sample_rate"@) && "text"@ != "sample_rate"@) by {
        reveal_strlit("text");
        reveal_strlit("sample_rate");
        assert("text"@.len() != "sample_rate"@.len());
    }
    json_laws::lemma_string_and_number("text"@, text, "sample_rate"@, sample_rate);
}

/// A latency report is a `client_stats` message that carries the reported delay.
pub proof fn law_client_stats_reads_back(ms: u32)
    ensures
        json::string_field(encode_utf8(client_stats(ms)), key("type")) == Some("client_stats"@),
        json::u32_field(
            encode_utf8(client_stats(ms)),
            key("llm_first_token_to_audio_ms"),
        ) == Some(ms),
{
    assert(client_stats(ms) =~= json_laws::string_and_number(
        "type"@,
        "client_stats"@,
        "llm_first_token_to_audio_ms"@,
        ms,
    )) by {
        reveal_strlit("{\"type\":\"client_stats\",\"llm_first_token_to_audio_ms\":");
        reveal_strlit("}");
        reveal_strlit("type");
        reveal_strlit("client_stats");
        reveal_strlit("llm_first_token_to_audio_ms");
        lemma_escaped_plain("client_stats"@);
        assert("{\"type\":\"client_stats\",\"llm_first_token_to_audio_ms\":"@ =~= seq!['{']
            + json_laws::label("type"@) + json::literal("client_stats"@) + seq![','] + json_laws::label(
            "llm_first_token_to_audio_ms"@,
        ));
        assert("}"@ =~= seq!['}']);
    }
    assert(json_laws::is_name("type"@) && json_laws::is_name("llm_first_token_to_audio_ms"@) && "type"@
        != "llm_first_token_to_audio_ms"@) by {
        reveal_strlit("type");
        reveal_strlit("llm_first_token_to_audio_ms");
        assert("type"@.len() != "llm_first_token_to_audio_ms"@.len());
    }
    json_laws::lemma_string_and_number(
        "type"@,
        "client_stats"@,
        "llm_first_token_to_audio_ms"@,
        ms,
    );
}

/// A text without anything to escape is written as it is.
proof fn lemma_escaped_plain(t: Seq<char>)
    requires
        forall|i: int| 0 <= i < t.len() ==> json::escaped_char(#[trigger] t[i]) == seq![t[i]],
    ensures
        json::escaped(t) == t,
    decreases t.len(),
{
    if t.len() > 0 {
        lemma_escaped_plain(t.drop_first());
        assert(seq![t[0]] + t.drop_first() =~= t);
    } else {
        assert(json::escaped(t) =~= t);
    }
}

// ---------- laws of the messages from the server ----------

/// A JSON object, with white space anywhere between its parts and anything behind it.
pub open spec fn is_object(lead: Seq<u8>, fs: Seq<json_laws::Field>) -> bool {
    &&& json_laws::all_blank(lead)
    &&& fs.len() > 0
    &&& forall|i: int| 0 <= i < fs.len() ==> json_laws::good_field(#[trigger] fs[i])
}

/// Whether an object has a field with this text; of several with one name the first counts.
pub open spec fn has_text(fs: Seq<json_laws::Field>, name: Seq<char>, t: Seq<char>) -> bool {
    json_laws::first_value(fs, name) == Some(encode_utf8(json::literal(t)))
}

pub open spec fn has_number(fs: Seq<json_laws::Field>, name: Seq<char>, n: u32) -> bool {
    json_laws::first_value(fs, name) == Some(encode_utf8(text::decimal(n as nat)))
}

pub open spec fn has_flag(fs: Seq<json_laws::Field>, name: Seq<char>, b: bool) -> bool {
    json_laws::first_value(fs, name) == Some(json_laws::flag_bytes(b))
}

pub open spec fn lacks(fs: Seq<json_laws::Field>, name: Seq<char>) -> bool {
    json_laws::first_value(fs, name) is None
}

/// A text field of an object reads as its text.
proof fn lemma_reads_text(
    lead: Seq<u8>,
    fs: Seq<json_laws::Field>,
    rest: Seq<u8>,
    name: Seq<char>,
    t: Seq<char>,
)
    requires
        is_object(lead, fs),
        json_laws::is_name(name),
    ensures
        has_text(fs, name, t) ==> json::string_field(
            json_laws::object_bytes(lead, fs, rest),
            encode_utf8(name),
        ) == Some(t),
        lacks(fs, name) ==> json::string_field(
            json_laws::object_bytes(lead, fs, rest),
            encode_utf8(name),
        ) is None,
{
    json_laws::law_field_is_found(lead, fs, rest, name);
    json_laws::law_string_value(t);
}

/// The names of the fields are names.
proof fn lemma_field_names()
    ensures
        json_laws::is_name("type"@),
        json_laws::is_name("text"@),
        json_laws::is_name("speaking"@),
        json_laws::is_name("sample_rate"@),
        json_laws::is_name("data"@),
        json_laws::is_name("message"@),
        json_laws::is_name("error"@),
        json_laws::is_name("path"@),
{
    reveal_strlit("type");
    reveal_strlit("text");
    reveal_strlit("speaking");
    reveal_strlit("sample_rate");
    reveal_strlit("data");
    reveal_strlit("message");
    reveal_strlit("error");
    reveal_strlit("path");
}

/// The kinds of messages are told apart by their lengths and a character each.
proof fn lemma_kinds()
    ensures
        "server.ready"@.len() == 12 && "server.ready"@[0] == 's',
        "session.ready"@.len() == 13 && "session.ready"@[0] == 's',
        "vad.speaking"@.len() == 12 && "vad.speaking"@[0] == 'v',
        "asr.result"@.len() == 10 && "asr.result"@[1] == 's',
        "assistant.delta"@.len() == 15 && "assistant.delta"@[10] == 'd',
        "audio.start"@.len() == 11 && "audio.start"@[6] == 's',
        "audio.chunk"@.len() == 11 && "audio.chunk"@[6] == 'c',
        "audio.done"@.len() == 10 && "audio.done"@[6] == 'd' && "audio.done"@[1] == 'u',
        "assistant.completed"@.len() == 19,
        "assistant.error"@.len() == 15 && "assistant.error"@[10] == 'e',
        "interrupt.ack"@.len() == 13 && "interrupt.ack"@[0] == 'i',
        "session.closed"@.len() == 14,
        "audio.file"@.len() == 10 && "audio.file"@[6] == 'f' && "audio.file"@[1] == 'u',
        "error"@.len() == 5,
        "asr.error"@.len() == 9,
{
    reveal_strlit("server.ready");
    reveal_strlit("session.ready");
    reveal_strlit("vad.speaking");
    reveal_strlit("asr.result");
    reveal_strlit("assistant.delta");
    reveal_strlit("audio.start");
    reveal_strlit("audio.chunk");
    reveal_strlit("audio.done");
    reveal_strlit("assistant.completed");
    reveal_strlit("assistant.error");
    reveal_strlit("interrupt.ack");
    reveal_strlit("session.closed");
    reveal_strlit("audio.file");
    reveal_strlit("error");
    reveal_strlit("asr.error");
}

/// A `vad.speaking` message carries the flag it was sent with, wherever its fields stand and
/// whatever else is in it. Without a flag nobody speaks.
pub proof fn law_speaking_flag_is_read(
    lead: Seq<u8>,
    fs: Seq<json_laws::Field>,
    rest: Seq<u8>,
    b: bool,
)
    requires
        is_object(lead, fs),
        has_text(fs, "type"@, "vad.speaking"@),
    ensures
        has_flag(fs, "speaking"@, b) ==> server_event(json_laws::object_bytes(lead, fs, rest))
            == EventView::VadSpeaking(b),
        lacks(fs, "speaking"@) ==> server_event(json_laws::object_bytes(lead, fs, rest))
            == EventView::VadSpeaking(false),
{
    lemma_field_names();
    lemma_kinds();
    lemma_reads_text(lead, fs, rest, "type"@, "vad.speaking"@);
    json_laws::law_field_is_found(lead, fs, rest, "speaking"@);
    assert(json_laws::flag_bytes(true) =~= json::true_bytes());
    assert(json_laws::flag_bytes(false) =~= json::false_bytes());
    assert(json::true_bytes().len() != json::false_bytes().len());
}

/// The two forms of a `vad.speaking` message as the server writes them.
pub proof fn law_speaking_message(b: bool)
    ensures
        server_event(
            encode_utf8(
                "{\"type\":\"vad.speaking\",\"speaking\":"@ + (if b {
                    "true"@
                } else {
                    "false"@
                }) + "}"@,
            ),
        ) == EventView::VadSpeaking(b),
{
    let word = if b {
        "true"@
    } else {
        "false"@
    };
    let kind = json::literal("vad.speaking"@);
    let fs = seq![
        json_laws::compact("type"@, encode_utf8(kind)),
        json_laws::compact("speaking"@, encode_utf8(word)),
    ];
    lemma_field_names();
    json_laws::law_string_value("vad.speaking"@);
    json_laws::law_flag_value(b);
    assert("type"@ != "speaking"@) by {
        reveal_strlit("type");
        reveal_strlit("speaking");
        assert("type"@.len() != "speaking"@.len());
    }
    assert(encode_utf8(word) == json_laws::flag_bytes(b)) by {
        reveal_strlit("true");
        reveal_strlit("false");
        text::lemma_encode_ascii(word);
        assert(encode_utf8(word) =~= json_laws::flag_bytes(b));
    }
    assert(fs.drop_first() =~= seq![fs[1]]);
    assert(json_laws::first_value(fs, "speaking"@) == json_laws::first_value(
        fs.drop_first(),
        "speaking"@,
    ));
    law_speaking_flag_is_read(Seq::empty(), fs, Seq::empty(), b);
    json_laws::lemma_compact_pair("type"@, kind, "speaking"@, word);
    lemma_speaking_text(word);
}

#[verifier::spinoff_prover]
proof fn lemma_speaking_text(word: Seq<char>)
    ensures
        "{\"type\":\"vad.speaking\",\"speaking\":"@ + word + "}"@ == seq!['{'] + json_laws::label(
            "type"@,
        ) + json::literal("vad.speaking"@) + seq![','] + json_laws::label("speaking"@) + word + seq![
            '}',
        ],
{
    reveal_strlit("{\"type\":\"vad.speaking\",\"speaking\":");
    reveal_strlit("}");
    reveal_strlit("type");
    reveal_strlit("vad.speaking");
    reveal_strlit("speaking");
    lemma_escaped_plain("vad.speaking"@);
    assert("{\"type\":\"vad.speaking\",\"speaking\":"@ =~= seq!['{'] + json_laws::label("type"@)
        + json::literal("vad.speaking"@) + seq![','] + json_laws::label("speaking"@));
    assert("}"@ =~= seq!['}']);
}

/// The messages that carry a text carry it as it was sent, whatever it holds; where the text
/// is missing it is empty.
pub proof fn law_text_is_read(
    lead: Seq<u8>,
    fs: Seq<json_laws::Field>,
    rest: Seq<u8>,
    t: Seq<char>,
)
    requires
        is_object(lead, fs),
    ensures
        ({
            let ev = server_event(json_laws::object_bytes(lead, fs, rest));
            let text = has_text(fs, "text"@, t) || (lacks(fs, "text"@) && t.len() == 0);
            &&& has_text(fs, "type"@, "asr.result"@) && text ==> ev == EventView::AsrResult(t)
            &&& has_text(fs, "type"@, "assistant.delta"@) && text ==> ev
                == EventView::AssistantDelta(t)
            &&& has_text(fs, "type"@, "assistant.completed"@) && text ==> ev
                == EventView::AssistantCompleted(t)
        }),
{
    lemma_field_names();
    lemma_kinds();
    lemma_reads_text(lead, fs, rest, "type"@, "asr.result"@);
    lemma_reads_text(lead, fs, rest, "type"@, "assistant.delta"@);
    lemma_reads_text(lead, fs, rest, "type"@, "assistant.completed"@);
    lemma_reads_text(lead, fs, rest, "text"@, t);
    if t.len() == 0 {
        assert(t =~= Seq::<char>::empty());
    }
}

/// A block of audio carries its data, and the start of a stream the rate that it names, or
/// none where it names none. A file of audio carries its path.
pub proof fn law_audio_messages_are_read(
    lead: Seq<u8>,
    fs: Seq<json_laws::Field>,
    rest: Seq<u8>,
    t: Seq<char>,
    n: u32,
)
    requires
        is_object(lead, fs),
    ensures
        ({
            let ev = server_event(json_laws::object_bytes(lead, fs, rest));
            &&& has_text(fs, "type"@, "audio.chunk"@) && has_text(fs, "data"@, t) ==> ev
                == EventView::AudioChunk(t)
            &&& has_text(fs, "type"@, "audio.file"@) && has_text(fs, "path"@, t) ==> ev
                == EventView::AudioFile(t)
            &&& has_text(fs, "type"@, "audio.start"@) && has_number(fs, "sample_rate"@, n) ==> ev
                == EventView::AudioStart(Some(n))
            &&& has_text(fs, "type"@, "audio.start"@) && lacks(fs, "sample_rate"@) ==> ev
                == EventView::AudioStart(None)
            &&& has_text(fs, "type"@, "audio.done"@) ==> ev == EventView::AudioDone
        }),
{
    lemma_field_names();
    lemma_kinds();
    lemma_reads_text(lead, fs, rest, "type"@, "audio.chunk"@);
    lemma_reads_text(lead, fs, rest, "type"@, "audio.file"@);
    lemma_reads_text(lead, fs, rest, "type"@, "audio.start"@);
    lemma_reads_text(lead, fs, rest, "type"@, "audio.done"@);
    lemma_reads_text(lead, fs, rest, "data"@, t);
    lemma_reads_text(lead, fs, rest, "path"@, t);
    json_laws::law_field_is_found(lead, fs, rest, "sample_rate"@);
    json_laws::law_number_value(n);
}

/// An error carries its message. A general one says it under `message`, or, where it has
/// none, under `error`; one of recognition is a general one.
pub proof fn law_error_message_is_read(
    lead: Seq<u8>,
    fs: Seq<json_laws::Field>,
    rest: Seq<u8>,
    t: Seq<char>,
)
    requires
        is_object(lead, fs),
    ensures
        ({
            let ev = server_event(json_laws::object_bytes(lead, fs, rest));
            let general = has_text(fs, "type"@, "error"@) || has_text(fs, "type"@, "asr.error"@);
            &&& has_text(fs, "type"@, "assistant.error"@) && has_text(fs, "message"@, t) ==> ev
                == EventView::AssistantError(t)
            &&& general && has_text(fs, "message"@, t) ==> ev == EventView::Error(t)
            &&& general && lacks(fs, "message"@) && has_text(fs, "error"@, t) ==> ev
                == EventView::Error(t)
        }),
{
    lemma_field_names();
    lemma_kinds();
    lemma_reads_text(lead, fs, rest, "type"@, "assistant.error"@);
    lemma_reads_text(lead, fs, rest, "type"@, "error"@);
    lemma_reads_text(lead, fs, rest, "type"@, "asr.error"@);
    lemma_reads_text(lead, fs, rest, "message"@, t);
    lemma_reads_text(lead, fs, rest, "error"@, t);
}

/// The messages without content, and those of no known kind or of no kind at all.
pub proof fn law_plain_messages_are_read(
    lead: Seq<u8>,
    fs: Seq<json_laws::Field>,
    rest: Seq<u8>,
    kind: Seq<char>,
)
    requires
        is_object(lead, fs),
    ensures
        ({
            let ev = server_event(json_laws::object_bytes(lead, fs, rest));
            let known = kind == "server.ready"@ || kind == "session.ready"@ || kind
                == "vad.speaking"@ || kind == "asr.result"@ || kind == "assistant.delta"@ || kind
                == "audio.start"@ || kind == "audio.chunk"@ || kind == "audio.done"@ || kind
                == "assistant.completed"@ || kind == "assistant.error"@ || kind
                == "interrupt.ack"@ || kind == "session.closed"@ || kind == "audio.file"@ || kind
                == "error"@ || kind == "asr.error"@;
            &&& has_text(fs, "type"@, "server.ready"@) ==> ev == EventView::ServerReady
            &&& has_text(fs, "type"@, "session.ready"@) ==> ev == EventView::SessionReady
            &&& has_text(fs, "type"@, "session.closed"@) ==> ev == EventView::SessionClosed
            &&& has_text(fs, "type"@, "interrupt.ack"@) ==> ev == EventView::InterruptAck
            &&& has_text(fs, "type"@, kind) && !known ==> ev == EventView::Unknown
            &&& lacks(fs, "type"@) ==> ev == EventView::Unknown
        }),
{
    lemma_field_names();
    lemma_kinds();
    lemma_reads_text(lead, fs, rest, "type"@, "server.ready"@);
    lemma_reads_text(lead, fs, rest, "type"@, "session.ready"@);
    lemma_reads_text(lead, fs, rest, "type"@, "session.closed"@);
    lemma_reads_text(lead, fs, rest, "type"@, "interrupt.ack"@);
    lemma_reads_text(lead, fs, rest, "type"@, kind);
}

} // verus!

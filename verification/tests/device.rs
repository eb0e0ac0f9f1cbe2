//! Clock, battery, panel, audio, conversation and the main state machine.
use talk_with_anyone::audio_input::{amplify, AudioInput};
use talk_with_anyone::audio_output::{
    chosen_size, next_ring_size, tone_block, tone_fade, Armed, AudioOutput, Fed, Resampled,
    TestStep, TX_CHUNK_BYTES,
};
use talk_with_anyone::battery::{median, raw_to_level, Battery};
use talk_with_anyone::config::NTP_SERVERS;
use talk_with_anyone::display::{Display, DisplayState};
use talk_with_anyone::link::{link_step, turn_step, LinkEvent, LinkStep, TurnEvent, TurnStep};
use talk_with_anyone::machine::{AppState, Machine, Need, Order, Stage};
use talk_with_anyone::ntp::{
    clock_hm, clock_text, ntp_task, parse_reply, query_packet, ClockSync, NtpStep,
};
use talk_with_anyone::ring::Ring;
use talk_with_anyone::screen::{Area, ErrorLog, InitStep, Screen, SpiOp};
use talk_with_anyone::session::{
    frame_action, retry_logged, FrameAction, MicOrder, Outcome, Session,
};
use talk_with_anyone::voice_client::ServerEvent;
use talk_with_anyone::ws::{WsError, WsFrameKind};

// ---------- clock ----------

fn reply(mode: u8, seconds: u32) -> Vec<u8> {
    let mut p = vec![0u8; 48];
    p[0] = 0x20 | mode;
    p[40..44].copy_from_slice(&seconds.to_be_bytes());
    p
}

#[test]
fn the_time_query() {
    let p = query_packet();
    assert_eq!(p.len(), 48);
    assert_eq!(p[0], 0x1b);
    assert!(p[1..].iter().all(|b| *b == 0));
}

#[test]
fn replies_with_and_without_a_time() {
    assert_eq!(parse_reply(&reply(4, 2208988800 + 5)), Some(5));
    assert_eq!(parse_reply(&reply(5, 2208988800)), Some(0));
    assert_eq!(parse_reply(&reply(4, u32::MAX)), Some(u32::MAX - 2208988800));
    assert_eq!(parse_reply(&reply(3, 3000000000)), None);
    assert_eq!(parse_reply(&reply(4, 0)), None);
    assert_eq!(parse_reply(&reply(4, 2208988799)), None);
    assert_eq!(parse_reply(&reply(4, 3000000000)[..47]), None);
}

#[test]
fn the_clock_runs_on_local_time() {
    let mut c = ClockSync::new();
    assert_eq!(clock_hm(&c, 12345), None);
    assert_eq!(clock_text(&c, 12345), "--:--");
    // 2023-11-14 22:13:20 UTC is 06:13 the next day at UTC+8.
    assert_eq!(ntp_task(&mut c, 0, Some(1700000000), 5000), NtpStep::Sleep);
    assert_eq!(clock_hm(&c, 5000), Some((6, 13)));
    assert_eq!(clock_text(&c, 5000), "06:13");
    assert_eq!(clock_hm(&c, 5000 + 39_999), Some((6, 13)));
    assert_eq!(clock_hm(&c, 5000 + 40_000), Some((6, 14)));
    assert_eq!(clock_text(&c, 5000 + 18 * 3600 * 1000), "00:13");
}

#[test]
fn the_clock_survives_the_counter() {
    let mut c = ClockSync::new();
    ntp_task(&mut c, 0, Some(1700000000), u32::MAX - 999);
    assert_eq!(clock_hm(&c, 39_000), Some((6, 14)));
    assert_eq!(clock_hm(&c, 38_999), Some((6, 13)));
}

#[test]
fn servers_are_asked_in_turn() {
    let mut c = ClockSync::new();
    assert_eq!(NTP_SERVERS.len(), 3);
    assert_eq!(ntp_task(&mut c, 0, None, 1), NtpStep::Query(1));
    assert_eq!(ntp_task(&mut c, 1, None, 1), NtpStep::Query(2));
    assert_eq!(ntp_task(&mut c, 2, None, 1), NtpStep::Sleep);
    assert!(!c.synced);
}

// ---------- battery ----------

#[test]
fn levels_at_and_between_the_calibration_points() {
    for (raw, level) in [
        (0, 0),
        (1970, 0),
        (1971, 0),
        (1975, 1),
        (2016, 10),
        (2062, 20),
        (2154, 40),
        (2200, 50),
        (2246, 60),
        (2338, 80),
        (2429, 99),
        (2430, 100),
        (4095, 100),
    ] {
        assert_eq!(raw_to_level(raw), level, "{}", raw);
    }
    for raw in 1900..2500 {
        assert!(raw_to_level(raw) <= raw_to_level(raw + 1));
    }
}

#[test]
fn the_middle_of_five() {
    assert_eq!(median(&[5, 1, 4, 2, 3]), 3);
    assert_eq!(median(&[0, 0, 4000, 4000, 2100]), 2100);
    assert_eq!(median(&[7, 7, 7, 1, 9]), 7);
    for a in 0..5u16 {
        for b in 0..5u16 {
            let v = [a, b, 2, 3, a];
            let mut s = v;
            s.sort_unstable();
            assert_eq!(median(&v), s[2]);
        }
    }
}

#[test]
fn the_gauge() {
    let mut b = Battery::new();
    assert_eq!((b.level(), b.charging()), (None, false));
    assert!(b.due(0) && b.due(1) && b.due(u32::MAX));
    b.tick(1, None, true);
    assert_eq!((b.level(), b.charging()), (None, false));
    assert!(!b.due(30_000));
    b.tick(30_000, Some(2430), true);
    assert_eq!(b.level(), None);
    assert!(b.due(30_001));
    b.tick(30_001, Some(2200), true);
    assert_eq!((b.level(), b.charging()), (Some(50), true));
    b.tick(60_001, None, false);
    assert_eq!((b.level(), b.charging()), (Some(50), true));
    b.tick(90_001, Some(3000), true);
    assert_eq!((b.level(), b.charging()), (Some(100), false));
}

// ---------- panel ----------

/// What goes over the bus: selected, data, bytes.
fn on_bus(ops: &[SpiOp]) -> Vec<(bool, bool, Vec<u8>)> {
    let (mut selected, mut data) = (false, false);
    let mut sent = Vec::new();
    for op in ops {
        match op {
            SpiOp::CsLow => selected = true,
            SpiOp::CsHigh => selected = false,
            SpiOp::DcLow => data = false,
            SpiOp::DcHigh => data = true,
            SpiOp::Write(b) => sent.push((selected, data, b.clone())),
            SpiOp::Pixels => sent.push((selected, data, b"pixels".to_vec())),
            SpiOp::Rows(b, n) => {
                for _ in 0..*n {
                    sent.push((selected, data, b.clone()));
                }
            }
        }
    }
    assert!(!selected);
    sent
}

#[test]
fn pixels_follow_the_memory_write() {
    let s = Screen::new(true).unwrap();
    let ops = s.push_band(4, 300, 16, 18, 16 * 18 * 2).unwrap();
    assert_eq!(
        on_bus(&ops),
        vec![
            (true, false, vec![0x2a]),
            (true, true, vec![0, 4, 0, 19]),
            (true, false, vec![0x2b]),
            (true, true, vec![1, 44, 1, 61]),
            (true, false, vec![0x2c]),
            (true, true, b"pixels".to_vec()),
        ]
    );
}

#[test]
fn a_band_has_to_fill_its_window() {
    let s = Screen::new(true).unwrap();
    assert!(s.push_band(0, 0, 16, 18, 575).is_none());
    assert!(s.push_band(0, 0, 16, 18, 577).is_none());
    assert!(Screen::new(false).is_none());
}

#[test]
fn areas_are_filled_row_by_row() {
    let s = Screen::new(true).unwrap();
    let sent = on_bus(&s.fill_area(10, 20, 2, 3, 0x1234).unwrap());
    assert_eq!(sent.len(), 8);
    for row in &sent[5..] {
        assert_eq!(*row, (true, true, vec![0x12, 0x34, 0x12, 0x34]));
    }
    assert!(s.fill_area(0, 0, 241, 1, 0).is_none());
}

#[test]
fn commands_by_themselves() {
    let s = Screen::new(true).unwrap();
    assert_eq!(on_bus(&s.cmd_alone(0x21, &[])), vec![(true, false, vec![0x21])]);
    assert_eq!(
        on_bus(&s.cmd_alone(0x3a, &[0x55])),
        vec![(true, false, vec![0x3a]), (true, true, vec![0x55])]
    );
}

#[test]
fn errors_silence_the_panel_until_it_recovers() {
    let mut s = Screen::new(true).unwrap();
    assert_eq!(s.write_failed(), ErrorLog::Line);
    assert!(!s.is_ready());
    assert!(s.cmd_alone(0x21, &[]).is_empty());
    assert!(s.push_band(0, 0, 1, 1, 2).is_none());
    assert!(s.fill_area(0, 0, 1, 1, 0).is_none());
    assert_eq!(s.write_failed(), ErrorLog::Line);
    assert_eq!(s.write_failed(), ErrorLog::LastLine);
    assert_eq!(s.write_failed(), ErrorLog::Quiet);
    let steps = s.try_recover();
    assert!(s.is_ready());
    assert_eq!(s.write_failed(), ErrorLog::Line);
    assert_eq!(steps.len(), 20);
    assert!(matches!(&steps[0], InitStep::Command(0x01, a) if a.is_empty()));
    assert!(matches!(steps[1], InitStep::DelayMs(120)));
    assert!(matches!(&steps[2], InitStep::Command(0x11, a) if a.is_empty()));
    assert!(matches!(&steps[12], InitStep::Command(0xe0, a) if a.len() == 14));
    assert!(matches!(&steps[16], InitStep::Command(0x36, a) if a == &vec![0x08]));
    assert!(matches!(&steps[19], InitStep::Command(0x29, a) if a.is_empty()));
}

#[test]
fn the_start_up_pattern() {
    let mut s = Screen::new(true).unwrap();
    let v = s.self_test_bars();
    s.write_failed();
    assert!(s.self_test_bars().is_empty());
    assert_eq!(v.len(), 30);
    assert_eq!(v[1], Area { x: 60, y: 0, w: 60, h: 60, color: 0xf800 });
    assert_eq!(v[5], Area { x: 30, y: 60, w: 30, h: 60, color: 0x07e0 });
    assert_eq!(v[27], Area { x: 225, y: 120, w: 15, h: 60, color: (30 << 11) | (30 << 6) | 30 });
    assert_eq!(v[29], Area { x: 120, y: 180, w: 120, h: 60, color: 0xffe0 });
}

// ---------- audio ----------

#[test]
fn a_ring_keeps_the_order() {
    let mut r = Ring::new(vec![0; 5]);
    assert_eq!((r.capacity(), r.buffered(), r.space()), (5, 0, 4));
    for round in 0..7u8 {
        for i in 0..3 {
            r.push(round * 10 + i);
        }
        assert_eq!((r.buffered(), r.space()), (3, 1));
        for i in 0..3 {
            assert_eq!(r.pop(), round * 10 + i);
        }
    }
    r.push(1);
    r.clear();
    assert_eq!(r.buffered(), 0);
}

fn none() -> Resampled {
    Resampled { outs: vec![], source: vec![], phases: vec![], end_phase: 0 }
}

fn plain(v: i16, volume: i32) -> i32 {
    (v as i32) * volume
}

#[test]
fn the_ring_is_large() {
    let a = AudioOutput::new(0);
    assert!(a.begin());
    assert_eq!(a.cap(), 3 * 1024 * 1024);
    assert!(!AudioOutput::with_ring(vec![], 0).begin());
}

#[test]
fn ring_sizes_are_tried_from_the_largest() {
    assert_eq!(next_ring_size(0), Some(3 * 1024 * 1024));
    assert_eq!(next_ring_size(1), Some(1536 * 1024));
    assert_eq!(next_ring_size(2), Some(512 * 1024));
    assert_eq!(next_ring_size(3), None);
    assert_eq!(chosen_size(&[true, true, true]), 3 * 1024 * 1024);
    assert_eq!(chosen_size(&[false, true, true]), 1536 * 1024);
    assert_eq!(chosen_size(&[false, false, true]), 512 * 1024);
    assert_eq!(chosen_size(&[false, false, false]), 0);
}

#[test]
fn feeding_tells_what_was_written() {
    let mut a = AudioOutput::with_ring(vec![0; 64], 0);
    a.begin_stream(24000);
    let r = Resampled {
        outs: vec![0; 4],
        source: vec![0, 2, 3, 5],
        phases: vec![0; 4],
        end_phase: 0,
    };
    assert_eq!(a.feed(&[0; 12], &r).bytes, 8);
    assert_eq!(a.buffered(), 8);
}

#[test]
fn without_a_ring_the_buttons_still_work() {
    let mut m = Machine::new();
    let mut s = Session::new(AudioOutput::with_ring(vec![], 0), Display::default());
    assert_eq!(s.display.volume(), 0);
    let mut orders = Vec::new();
    assert_eq!(m.begin(&mut s, false, 10, &mut orders), Need::Up);
    assert_eq!(m.button(&mut s, true, 10, &mut orders), Need::UpAgain);
    assert_eq!(m.button(&mut s, true, 10, &mut orders), Need::Down);
    assert_eq!(m.button(&mut s, false, 10, &mut orders), Need::Over(false));
    assert_eq!(s.audio.get_volume(), 90);
}

#[test]
fn volume_is_a_percentage() {
    let mut a = AudioOutput::with_ring(vec![0; 64], 0);
    assert_eq!(a.get_volume(), 80);
    a.set_volume(130);
    assert_eq!(a.get_volume(), 100);
    a.set_volume(-1);
    assert_eq!(a.get_volume(), 0);
}

#[test]
fn nothing_is_fed_without_a_stream() {
    let mut a = AudioOutput::with_ring(vec![0; 64], 0);
    assert_eq!(a.feed(&[1, 2], &none()), Fed { bytes: 0, outs: 0, samples: 0 });
    a.begin_stream(16000);
    assert!(!a.needs_resampling());
    assert_eq!(a.feed(&[], &none()), Fed { bytes: 0, outs: 0, samples: 0 });
    assert_eq!(a.feed(&[1, 2, 3, 4], &none()), Fed { bytes: 4, outs: 0, samples: 2 });
    assert_eq!(a.buffered(), 4);
    assert!(a.is_active());
}

#[test]
fn a_full_ring_drops_the_rest() {
    let mut a = AudioOutput::with_ring(vec![0; 8], 0);
    a.begin_stream(16000);
    assert_eq!(a.feed(&[1; 20], &none()).bytes, 7);
    let mut b = AudioOutput::with_ring(vec![0; 8], 0);
    b.begin_stream(24000);
    assert!(b.needs_resampling());
    let r = Resampled {
        outs: vec![1, 2, 3, 4, 5],
        source: vec![0, 2, 3, 5, 6],
        phases: vec![10, 20, 30, 40, 50],
        end_phase: 60,
    };
    let pcm: Vec<u8> = (0..16).collect();
    assert_eq!(b.feed(&pcm, &r), Fed { bytes: 6, outs: 3, samples: 6 });
    assert_eq!(b.buffered(), 6);
    // Resampling goes on where the room ran out.
    assert_eq!(b.resample_state(), (0x0b0a, 40));
    let mut c = AudioOutput::with_ring(vec![0; 80], 0);
    c.begin_stream(24000);
    assert_eq!(c.feed(&pcm, &r), Fed { bytes: 10, outs: 5, samples: 8 });
    assert_eq!(c.resample_state(), (0x0f0e, 60));
    assert_eq!(c.feed(&[9], &none()), Fed { bytes: 0, outs: 0, samples: 0 });
    assert_eq!(c.resample_state(), (0x0f0e, 60));
    c.begin_stream(24000);
    assert_eq!(c.resample_state(), (0, 0));
}

#[test]
fn unknown_rates_fall_back() {
    let mut a = AudioOutput::with_ring(vec![0; 8], 0);
    for (given, used) in [(8000, 8000), (48000, 48000), (7999, 24000), (48001, 24000), (0, 24000)] {
        a.begin_stream(given);
        assert_eq!(a.input_rate(), used);
    }
}

#[test]
fn playback_from_start_to_end() {
    let mut a = AudioOutput::with_ring(vec![0; 70000], 0);
    let mut out = vec![0xffu8; TX_CHUNK_BYTES];
    assert!(!a.tick(true, &mut out, &plain));
    a.begin_stream(16000);
    a.set_volume(3);
    let pcm: Vec<u8> = (0..20000i32).flat_map(|i| (i as i16).to_le_bytes()).collect();
    a.feed(&pcm[..32766], &none());
    assert!(!a.tick(true, &mut out, &plain));
    a.feed(&pcm[32766..], &none());
    // Enough is buffered: blocks go out one after the other.
    let mut heard: Vec<i32> = Vec::new();
    for block in 0..10 {
        assert!(a.tick(true, &mut out, &plain));
        assert_eq!(
            a.block_written(true, 100 + block),
            Armed { armed: true, finished: false, log_kb: None }
        );
        heard.extend(out.chunks(4).map(|c| i32::from_le_bytes([c[0], c[1], c[2], c[3]])));
        // Nothing more while the block is with the DMA.
        assert!(!a.tick(false, &mut out, &plain));
    }
    for i in 0..20480 {
        assert_eq!(heard[i], if i < 20000 { (i as i32) * 3 } else { 0 });
    }
    // The ring is dry, but the stream is not over: silence.
    assert!(a.tick(true, &mut out, &plain));
    assert!(out.iter().all(|b| *b == 0));
    assert_eq!(a.block_written(true, 3000), Armed { armed: true, finished: false, log_kb: Some(78) });
    a.finish_stream();
    assert!(a.is_active());
    assert!(a.tick(true, &mut out, &plain));
    assert_eq!(a.block_written(true, 3001), Armed { armed: true, finished: true, log_kb: None });
    assert!(!a.is_active());
    assert!(!a.tick(true, &mut out, &plain));
}

#[test]
fn a_short_stream_plays_once_it_is_complete() {
    let mut a = AudioOutput::with_ring(vec![0; 100], 0);
    let mut out = vec![9u8; 16];
    a.begin_stream(16000);
    a.feed(&[1, 0, 255, 255, 7], &none());
    assert!(!a.tick(true, &mut out, &plain));
    a.finish_stream();
    assert!(a.tick(true, &mut out, &plain));
    assert_eq!(out, vec![80, 0, 0, 0, 0xb0, 0xff, 0xff, 0xff, 0, 0, 0, 0, 0, 0, 0, 0]);
    // The odd byte stays behind.
    assert_eq!(a.buffered(), 1);
}

#[test]
fn a_refused_block_is_not_counted() {
    let mut a = AudioOutput::with_ring(vec![0; 100], 0);
    let mut out = vec![0u8; 16];
    a.begin_stream(16000);
    a.feed(&[1, 0, 2, 0], &none());
    a.finish_stream();
    assert!(a.tick(true, &mut out, &plain));
    assert_eq!(a.block_written(false, 5000), Armed { armed: false, finished: false, log_kb: None });
    assert!(a.tick(false, &mut out, &plain));
    assert_eq!(a.block_written(true, 5000), Armed { armed: true, finished: true, log_kb: None });
}

#[test]
fn stopping_playback_is_silence() {
    let mut a = AudioOutput::with_ring(vec![0; 100], 0);
    let mut out = vec![0u8; 16];
    a.begin_stream(16000);
    a.feed(&[1; 50], &none());
    a.finish_stream();
    assert!(a.tick(true, &mut out, &plain));
    assert!(a.begin());
    a.block_written(true, 1);
    assert!(!a.begin());
    assert_eq!(a.play_tone(60), None);
    assert!(a.stop_playback());
    assert!(!a.is_active());
    assert!(!a.stop_playback());
    assert!(!a.tick(true, &mut out, &plain));
    assert_eq!(a.play_tone(60), Some(960));
}

#[test]
fn the_start_up_tones() {
    let a = AudioOutput::with_ring(vec![0; 64], 0);
    assert_eq!(
        a.self_test(),
        vec![TestStep::Tone(1200, 150), TestStep::PauseMs(120), TestStep::Tone(1600, 150)]
    );
}

#[test]
fn tones_fade_in_and_out() {
    assert_eq!(tone_fade(0, 960), 0);
    assert_eq!(tone_fade(80, 960), 80);
    assert_eq!(tone_fade(160, 960), 160);
    assert_eq!(tone_fade(800, 960), 160);
    assert_eq!(tone_fade(801, 960), 159);
    assert_eq!(tone_fade(959, 960), 1);
    assert_eq!(tone_fade(100, 160), 60);
    assert_eq!(tone_block(0, 2400), 2048);
    assert_eq!(tone_block(2048, 2400), 352);
}

#[test]
fn microphone_gain() {
    for (raw, out) in [(0, 0), (1, 32), (-1, -32), (1023, 32736), (1024, 32767), (-1024, -32767), (i16::MIN, -32767), (i16::MAX, 32767)] {
        assert_eq!(amplify(raw), out);
    }
}

#[test]
fn capture_reads_whole_samples() {
    let mut m = AudioInput::new();
    let mut out = [7i16; 4];
    assert!(!m.is_running());
    assert_eq!(m.prepare(100, 4), 0);
    assert!(!m.start(false));
    assert!(m.start(true));
    assert!(m.start(false));
    assert_eq!(m.prepare(0, 4), 0);
    assert_eq!(m.prepare(1, 4), 0);
    assert_eq!(m.prepare(100, 0), 0);
    assert_eq!(m.prepare(5, 4), 4);
    assert_eq!(m.prepare(5000, 4000), 1024);
    assert_eq!(m.prepare(100, 4), 8);
    assert_eq!(m.scratch(), &mut [0u8; 8]);
    m.scratch().copy_from_slice(&[1, 0, 0xff, 0xff, 0, 8, 9, 9]);
    assert_eq!(m.read(6, &mut out), 3);
    assert_eq!(out, [32, -32, 32767, 7]);
    assert!(m.stop());
    assert!(!m.stop());
}

// ---------- conversation ----------

fn session() -> Session {
    Session::new(AudioOutput::with_ring(vec![0; 100], 0), Display::new())
}

fn quiet(o: &Outcome) -> bool {
    !o.stop_dma && o.mic == MicOrder::Leave && o.pcm.is_empty() && o.send.is_none()
        && !o.fallback && !o.first_text && o.latency_ms.is_none()
}

#[test]
fn a_conversation_turn() {
    let mut s = session();
    assert_eq!(s.open(), r#"{"type":"session.start","mode":"chat"}"#);
    s.opened(true);
    assert!(s.link.ws_up);
    s.tracker.mic_start();
    s.link.mic_on = true;
    assert!(quiet(&s.handle_server_event(&ServerEvent::VadSpeaking(true), 50)));
    assert_eq!(s.link.last_vad_ms, 50);
    assert!(quiet(&s.handle_server_event(&ServerEvent::VadSpeaking(false), 60)));
    assert_eq!(s.link.last_vad_ms, 50);
    let o = s.handle_server_event(&ServerEvent::AsrResult("你好".into()), 100);
    assert_eq!(o.mic, MicOrder::Stop);
    assert!(!s.link.mic_on);
    assert_eq!(s.display.history()[0].text, "我:你好");
    let o = s.handle_server_event(&ServerEvent::AssistantDelta("嗯".into()), 200);
    assert!(o.first_text);
    assert!(quiet(&Outcome { first_text: false, ..o }));
    assert!(quiet(&s.handle_server_event(&ServerEvent::AssistantDelta("好".into()), 205)));
    assert!(s.display.is_typing());
    assert!(quiet(&s.handle_server_event(&ServerEvent::AudioStart(None), 210)));
    assert_eq!(s.audio.input_rate(), 24000);
    let o = s.handle_server_event(&ServerEvent::AudioChunk("AQIDBA==".into()), 300);
    assert_eq!(o.pcm, vec![1, 2, 3, 4]);
    assert_eq!(o.latency_ms, Some(100));
    assert_eq!(
        o.send.as_deref(),
        Some(r#"{"type":"client_stats","llm_first_token_to_audio_ms":100}"#)
    );
    let o = s.handle_server_event(&ServerEvent::AudioChunk("AQI=".into()), 310);
    assert_eq!((o.pcm, o.send), (vec![1, 2], None));
    assert!(quiet(&s.handle_server_event(&ServerEvent::AudioDone, 400)));
    let o = s.handle_server_event(&ServerEvent::AssistantCompleted("嗯好".into()), 500);
    assert!(quiet(&o));
    assert!(s.tracker.round_finalized);
}

#[test]
fn a_reply_without_audio_asks_for_synthesis() {
    let mut s = session();
    let o = s.handle_server_event(&ServerEvent::AssistantCompleted("全文".into()), 1);
    assert!(o.fallback);
}

#[test]
fn late_events_are_ignored() {
    let mut s = session();
    s.handle_server_event(&ServerEvent::AssistantDelta("半句".into()), 10);
    let (msg, stop) = s.interrupt();
    assert_eq!((msg.as_str(), stop), (r#"{"type":"interrupt"}"#, false));
    assert_eq!(s.display.history()[0].text, "半句");
    for ev in [
        ServerEvent::AssistantDelta("迟到".into()),
        ServerEvent::AudioStart(Some(16000)),
        ServerEvent::AudioChunk("AAAA".into()),
        ServerEvent::AssistantCompleted("半句迟到".into()),
        ServerEvent::InterruptAck,
    ] {
        assert!(quiet(&s.handle_server_event(&ev, 20)));
    }
    assert!(!s.display.is_typing());
    assert_eq!(s.display.history().len(), 1);
    assert!(!s.audio.is_active());
}

#[test]
fn errors_start_the_microphone() {
    for ev in [ServerEvent::Error("e".into()), ServerEvent::AssistantError("e".into())] {
        let mut s = session();
        s.handle_server_event(&ServerEvent::AssistantDelta("半句".into()), 10);
        let o = s.handle_server_event(&ev, 20);
        assert_eq!(o.mic, MicOrder::Start);
        assert!(s.link.mic_on && s.tracker.mic_is_active());
        assert_eq!(s.handle_server_event(&ev, 30).mic, MicOrder::Leave);
    }
}

#[test]
fn a_new_result_stops_the_old_reply() {
    let mut s = session();
    let mut out = vec![0u8; 16];
    s.handle_server_event(&ServerEvent::AudioStart(Some(16000)), 1);
    s.audio.feed(&[1; 20], &none());
    s.audio.finish_stream();
    assert!(s.audio.tick(true, &mut out, &plain));
    s.audio.block_written(true, 2);
    let o = s.handle_server_event(&ServerEvent::AsrResult("再来".into()), 3);
    assert!(o.stop_dma);
    assert!(!s.audio.is_active());
}

#[test]
fn events_without_effect() {
    let mut s = session();
    for ev in [
        ServerEvent::ServerReady,
        ServerEvent::SessionReady,
        ServerEvent::SessionClosed,
        ServerEvent::AudioFile("/a".into()),
        ServerEvent::AudioDone,
        ServerEvent::Unknown,
    ] {
        assert!(quiet(&s.handle_server_event(&ev, 1)));
    }
    assert!(!s.audio.is_active() && !s.display.is_typing());
}

#[test]
fn frames_and_what_becomes_of_them() {
    assert_eq!(frame_action(Ok(None)), FrameAction::Wait);
    assert_eq!(frame_action(Ok(Some((WsFrameKind::Text, 9)))), FrameAction::Handle(9));
    assert_eq!(frame_action(Ok(Some((WsFrameKind::Binary, 9)))), FrameAction::Ignore);
    assert_eq!(frame_action(Ok(Some((WsFrameKind::Ping, 9)))), FrameAction::Ignore);
    assert_eq!(frame_action(Err(WsError::TooLarge)), FrameAction::Dropped);
    for e in [WsError::Closed, WsError::Io, WsError::HandshakeFailed] {
        assert_eq!(frame_action(Err(e)), FrameAction::Disconnect);
    }
    assert!(retry_logged(1) && retry_logged(11) && !retry_logged(10) && !retry_logged(2));
}

#[test]
fn a_lost_connection_is_opened_again() {
    let mut retried = 0;
    assert_eq!(link_step(&mut retried, LinkEvent::Connected(true)), (LinkStep::Hello, false));
    assert_eq!(link_step(&mut retried, LinkEvent::HelloSent(true)), (LinkStep::Talk, false));
    assert_eq!(link_step(&mut retried, LinkEvent::Lost), (LinkStep::Wait(3000), false));
    assert_eq!(link_step(&mut retried, LinkEvent::Waited), (LinkStep::Connect, false));
    for n in 1..25 {
        assert_eq!(
            link_step(&mut retried, LinkEvent::Connected(false)),
            (LinkStep::Wait(3000), n == 1 || n == 11 || n == 21)
        );
        assert_eq!(retried, n);
        assert_eq!(link_step(&mut retried, LinkEvent::Waited), (LinkStep::Connect, false));
    }
    assert_eq!(link_step(&mut retried, LinkEvent::Connected(true)), (LinkStep::Hello, false));
    assert_eq!(retried, 0);
    retried = 7;
    assert_eq!(link_step(&mut retried, LinkEvent::HelloSent(false)), (LinkStep::Wait(3000), false));
    assert_eq!(retried, 0);
}

#[test]
fn a_turn_interrupts_sends_and_listens() {
    let wait = TurnStep::Frame(50);
    assert_eq!(turn_step(TurnEvent::Begin(true), true), TurnStep::Interrupt);
    assert_eq!(turn_step(TurnEvent::InterruptSent(true), true), TurnStep::Uplink);
    assert_eq!(turn_step(TurnEvent::InterruptSent(true), false), wait);
    assert_eq!(turn_step(TurnEvent::Begin(false), true), TurnStep::Uplink);
    assert_eq!(turn_step(TurnEvent::Begin(false), false), wait);
    assert_eq!(turn_step(TurnEvent::BlockSent(true), true), TurnStep::Uplink);
    assert_eq!(turn_step(TurnEvent::BlockSent(true), false), wait);
    assert_eq!(turn_step(TurnEvent::NoBlock, true), wait);
    assert_eq!(turn_step(TurnEvent::TimedOut, true), TurnStep::Over);
    assert_eq!(turn_step(TurnEvent::Frame(FrameAction::Handle(3)), true), TurnStep::Handle(3));
    assert_eq!(turn_step(TurnEvent::Frame(FrameAction::Dropped), true), TurnStep::Over);
    assert_eq!(turn_step(TurnEvent::Frame(FrameAction::Disconnect), true), TurnStep::Lost);
    assert_eq!(turn_step(TurnEvent::NoAnswer, true), TurnStep::Over);
    assert_eq!(turn_step(TurnEvent::AnswerSent(true), true), TurnStep::Over);
    assert_eq!(turn_step(TurnEvent::AnswerSent(false), true), TurnStep::Lost);
    assert_eq!(turn_step(TurnEvent::BlockSent(false), true), TurnStep::Lost);
    assert_eq!(turn_step(TurnEvent::InterruptSent(false), true), TurnStep::Lost);
}

#[test]
fn a_lost_connection_switches_off() {
    let mut s = session();
    s.opened(true);
    s.link.mic_on = true;
    s.closed();
    assert!(!s.link.ws_up && !s.link.mic_on);
}

// ---------- the state machine ----------

/// Carries a pass to its end with buttons held as given and no sound from the microphone.
fn run_pass(m: &mut Machine, s: &mut Session, now: u32, buttons: (bool, bool, bool)) -> Vec<String> {
    let mut orders: Vec<Order> = Vec::new();
    let mut need = m.begin(s, buttons.0, now, &mut orders);
    loop {
        need = match need {
            Need::Mic => m.mic(s, &[], now, &mut orders),
            Need::TalkAgain => m.button(s, buttons.0, now, &mut orders),
            Need::Release => m.button(s, false, now, &mut orders),
            Need::Up | Need::UpAgain => m.button(s, buttons.1, now, &mut orders),
            Need::Down | Need::DownAgain => m.button(s, buttons.2, now, &mut orders),
            Need::Over(_) => break,
        };
    }
    assert_eq!(m.stage, Stage::Ready);
    orders.iter().map(|o| format!("{:?}", o)).collect()
}

const UP: (bool, bool, bool) = (false, false, false);

#[test]
fn listening_starts_by_itself() {
    let (mut m, mut s) = (Machine::new(), session());
    assert!(run_pass(&mut m, &mut s, 6000, UP).is_empty());
    s.opened(true);
    assert!(run_pass(&mut m, &mut s, 5000, UP).is_empty());
    assert_eq!(run_pass(&mut m, &mut s, 5001, UP), vec!["StartMic"]);
    assert_eq!(m.state, AppState::Listening);
    assert!(s.link.mic_on && s.tracker.mic_is_active());
    assert_eq!(s.display.state(), DisplayState::Listening);
}

#[test]
fn the_talk_button_starts_listening() {
    let (mut m, mut s) = (Machine::new(), session());
    assert!(run_pass(&mut m, &mut s, 100, (true, false, false)).is_empty());
    assert_eq!(m.state, AppState::Idle);
    run_pass(&mut m, &mut s, 101, UP);
    s.opened(true);
    assert_eq!(run_pass(&mut m, &mut s, 102, (true, false, false)), vec!["StartMic"]);
    assert_eq!(m.state, AppState::Listening);
}

#[test]
fn a_bounce_does_not_count() {
    let (mut m, mut s) = (Machine::new(), session());
    s.opened(true);
    let mut orders = Vec::new();
    assert_eq!(m.begin(&mut s, true, 100, &mut orders), Need::TalkAgain);
    assert_eq!(m.button(&mut s, false, 100, &mut orders), Need::Up);
    assert_eq!(m.state, AppState::Idle);
    assert!(orders.is_empty());
}

fn in_listening() -> (Machine, Session) {
    let (mut m, mut s) = (Machine::new(), session());
    s.opened(true);
    run_pass(&mut m, &mut s, 6000, UP);
    assert_eq!(m.state, AppState::Listening);
    (m, s)
}

#[test]
fn the_talk_button_ends_listening_for_a_while() {
    let (mut m, mut s) = in_listening();
    s.display.append_reply_delta("半句");
    assert_eq!(run_pass(&mut m, &mut s, 7000, (true, false, false)), vec!["StopMic"]);
    assert_eq!(m.state, AppState::Idle);
    assert!(!s.link.mic_on && !s.display.is_typing());
    assert!(run_pass(&mut m, &mut s, 14_999, UP).is_empty());
    assert_eq!(run_pass(&mut m, &mut s, 15_000, UP), vec!["StartMic"]);
}

#[test]
fn listening_times_out() {
    let (mut m, mut s) = in_listening();
    s.link.last_vad_ms = 10_000;
    run_pass(&mut m, &mut s, 190_000, UP);
    assert_eq!(m.state, AppState::Listening);
    assert!(run_pass(&mut m, &mut s, 190_001, UP).contains(&String::from("StopMic")));
    assert_eq!(m.state, AppState::Idle);
    let (mut m, mut s) = in_listening();
    run_pass(&mut m, &mut s, 186_000, UP);
    assert_eq!(m.state, AppState::Listening);
    run_pass(&mut m, &mut s, 186_001, UP);
    assert_eq!(m.state, AppState::Idle);
}

#[test]
fn samples_go_up_the_link() {
    let (mut m, mut s) = in_listening();
    let mut orders = Vec::new();
    for _ in 1..16 {
        assert!(run_pass(&mut m, &mut s, 6001, UP).is_empty());
    }
    assert_eq!(m.begin(&mut s, false, 6002, &mut orders), Need::Mic);
    assert_eq!(m.mic(&mut s, &[1, -2, 300], 6002, &mut orders), Need::Up);
    assert_eq!(orders.len(), 1);
    assert!(matches!(&orders[0], Order::Uplink(b) if b == &vec![1, 0, 0xfe, 0xff, 0x2c, 1]));
    m.button(&mut s, false, 6002, &mut orders);
    m.button(&mut s, false, 6002, &mut orders);
    for _ in 0..15 {
        run_pass(&mut m, &mut s, 6003, UP);
    }
    orders.clear();
    assert_eq!(m.begin(&mut s, false, 6004, &mut orders), Need::Mic);
    m.mic(&mut s, &[i16::MIN], 6004, &mut orders);
    assert!(matches!(orders[1], Order::Peak(32768)));
}

#[test]
fn a_dead_microphone_is_restarted() {
    let (mut m, mut s) = in_listening();
    let mut restarts = 0;
    for _ in 0..16 * 64 {
        let o = run_pass(&mut m, &mut s, 6001, UP);
        restarts += o.iter().filter(|x| *x == "RestartMic").count();
    }
    assert_eq!(restarts, 2);
}

fn in_playing() -> (Machine, Session) {
    let (mut m, mut s) = in_listening();
    s.audio.begin_stream(16000);
    s.audio.feed(&[1; 10], &none());
    assert_eq!(run_pass(&mut m, &mut s, 7000, UP), vec!["StopMic"]);
    assert_eq!(m.state, AppState::Playing);
    assert!(!s.link.mic_on);
    (m, s)
}

#[test]
fn listening_resumes_after_playback() {
    let (mut m, mut s) = in_playing();
    run_pass(&mut m, &mut s, 8000, UP);
    assert_eq!(m.state, AppState::Playing);
    s.audio.stop_playback();
    run_pass(&mut m, &mut s, 9000, UP);
    run_pass(&mut m, &mut s, 9400, UP);
    assert_eq!(m.state, AppState::Playing);
    assert_eq!(run_pass(&mut m, &mut s, 9401, UP), vec!["StartMic"]);
    assert_eq!(m.state, AppState::Listening);
}

#[test]
fn the_talk_button_interrupts() {
    let (mut m, mut s) = in_playing();
    s.display.append_reply_delta("半句");
    let mut orders = Vec::new();
    assert_eq!(m.begin(&mut s, true, 8000, &mut orders), Need::TalkAgain);
    assert_eq!(m.button(&mut s, true, 8000, &mut orders), Need::Release);
    assert!(matches!(orders[0], Order::Interrupt));
    assert!(!s.display.is_typing());
    assert_eq!(m.button(&mut s, true, 8000, &mut orders), Need::Release);
    assert_eq!(m.button(&mut s, false, 8000, &mut orders), Need::Up);
    assert_eq!(m.state, AppState::Listening);
    assert!(s.link.mic_on);
}

#[test]
fn volume_buttons() {
    let (mut m, mut s) = (Machine::new(), session());
    assert_eq!(run_pass(&mut m, &mut s, 100, (false, true, false)), vec!["Tone(1800, 60)"]);
    assert_eq!((s.audio.get_volume(), s.display.volume()), (90, 90));
    assert!(run_pass(&mut m, &mut s, 101, (false, true, false)).is_empty());
    assert_eq!(run_pass(&mut m, &mut s, 102, (false, false, true)), vec!["Tone(900, 60)"]);
    assert_eq!(s.audio.get_volume(), 80);
    for i in 0..5 {
        run_pass(&mut m, &mut s, 200 + 2 * i, (false, true, false));
        run_pass(&mut m, &mut s, 201 + 2 * i, UP);
    }
    assert_eq!(s.audio.get_volume(), 100);
    for i in 0..12 {
        run_pass(&mut m, &mut s, 300 + 2 * i, (false, false, true));
        run_pass(&mut m, &mut s, 301 + 2 * i, UP);
    }
    assert_eq!((s.audio.get_volume(), s.display.volume()), (0, 0));
}

#[test]
fn the_status_word_follows() {
    let (mut m, mut s) = (Machine::new(), session());
    m.refresh(&mut s, 1);
    assert_eq!(s.display.state(), DisplayState::Offline);
    s.opened(true);
    m.refresh(&mut s, 2);
    assert_eq!(s.display.state(), DisplayState::Idle);
    m.state = AppState::Playing;
    s.display.append_reply_delta("字");
    m.refresh(&mut s, 1000);
    assert_eq!(s.display.state(), DisplayState::Playing);
    assert_eq!(s.display.cur_line(), "字");
}

#[test]
fn a_heartbeat_now_and_then() {
    let (mut m, mut s) = (Machine::new(), session());
    m.pass = 29_998;
    let mut orders = Vec::new();
    for beat in [false, true, false] {
        m.begin(&mut s, false, 1, &mut orders);
        m.button(&mut s, false, 1, &mut orders);
        assert_eq!(m.button(&mut s, false, 1, &mut orders), Need::Over(beat));
    }
}

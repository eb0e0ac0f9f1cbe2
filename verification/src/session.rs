//! One conversation with the server: what each event does to playback, subtitles and the
//! uplink, and how the channel is opened, interrupted and closed.
use vstd::prelude::*;
use vstd::utf8::*;
use crate::audio_output::AudioOutput;
use crate::base64::decode_base64;
use crate::config::DEFAULT_STREAM_INPUT_RATE;
use crate::display::Display;
use crate::round::{RoundEvent, RoundTracker};
use crate::voice_client::{build_client_stats, build_interrupt, build_session_start, ServerEvent};
use crate::ws::{WsError, WsFrameKind};
use crate::{audio_output, base64, display, round, voice_client};

verus! {

/// What the tasks share about the link.
#[derive(Debug, Clone, Copy, PartialEq, Eq, Structural)]
pub struct Link {
    /// The voice channel is open.
    pub ws_up: bool,
    /// The uplink carries microphone samples.
    pub mic_on: bool,
    /// When the server last heard speech; 0 for never.
    pub last_vad_ms: u32,
}

/// All state of a conversation.
pub struct Session {
    pub tracker: RoundTracker,
    pub audio: AudioOutput,
    pub display: Display,
    pub link: Link,
}

/// All state of a conversation, as seen in contracts.
#[verifier::ext_equal]
pub struct SessionView {
    pub tracker: RoundTracker,
    pub audio: audio_output::AudioView,
    pub display: display::DisplayView,
    pub link: Link,
}

impl View for Session {
    type V = SessionView;

    open spec fn view(&self) -> SessionView {
        SessionView {
            tracker: self.tracker,
            audio: self.audio@,
            display: self.display@,
            link: self.link,
        }
    }
}

/// What the microphone has to do.
#[derive(Debug, Clone, Copy, PartialEq, Eq, Structural)]
pub enum MicOrder {
    Leave,
    Start,
    Stop,
}

/// What is left to do after an event.
pub struct Outcome {
    /// The block with the DMA has to be stopped.
    pub stop_dma: bool,
    pub mic: MicOrder,
    /// Samples to feed to playback.
    pub pcm: Vec<u8>,
    /// A message to send after that.
    pub send: Option<String>,
    /// The first text of a reply has arrived.
    pub first_text: bool,
    /// Milliseconds from the first text to the first audio block after it.
    pub latency_ms: Option<u32>,
    /// The reply came without audio and has to be synthesised separately.
    pub fallback: bool,
}

/// What is left to do after an event.
#[verifier::ext_equal]
pub struct OutcomeView {
    pub stop_dma: bool,
    pub mic: MicOrder,
    pub pcm: Seq<u8>,
    pub send: Option<Seq<char>>,
    pub first_text: bool,
    pub latency_ms: Option<u32>,
    pub fallback: bool,
}

impl View for Outcome {
    type V = OutcomeView;

    open spec fn view(&self) -> OutcomeView {
        OutcomeView {
            stop_dma: self.stop_dma,
            mic: self.mic,
            pcm: self.pcm@,
            send: match self.send {
                Some(t) => Some(t@),
                None => None,
            },
            first_text: self.first_text,
            latency_ms: self.latency_ms,
            fallback: self.fallback,
        }
    }
}

/// Nothing left to do.
pub open spec fn nothing() -> OutcomeView {
    OutcomeView {
        stop_dma: false,
        mic: MicOrder::Leave,
        pcm: Seq::empty(),
        send: None,
        first_text: false,
        latency_ms: None,
        fallback: false,
    }
}

/// The round is cut short, and what has arrived of it is settled.
pub open spec fn cut_short(s: SessionView) -> SessionView {
    SessionView {
        tracker: round::after(s.tracker, RoundEvent::CutShort),
        display: if s.tracker.round_active && !s.tracker.round_finalized {
            display::settled(s.display)
        } else {
            s.display
        },
        ..s
    }
}

/// After an error the uplink is on.
pub open spec fn mic_resumed(s: SessionView) -> (SessionView, OutcomeView) {
    if s.tracker.mic_active {
        (s, nothing())
    } else {
        (
            SessionView {
                tracker: round::after(s.tracker, RoundEvent::ErrorResume),
                link: Link { mic_on: true, ..s.link },
                ..s
            },
            OutcomeView { mic: MicOrder::Start, ..nothing() },
        )
    }
}

/// A recognition result: whatever the last round still played is gone, the uplink pauses,
/// and what was recognised is shown.
pub open spec fn recognised(s: SessionView, t: Seq<char>) -> (SessionView, OutcomeView) {
    (
        SessionView {
            tracker: round::after(s.tracker, RoundEvent::AsrResult),
            audio: if s.tracker.voice_audio_on {
                audio_output::stopped(s.audio)
            } else {
                s.audio
            },
            display: display::with_user_line(s.display, t),
            link: if s.tracker.mic_active {
                Link { mic_on: false, ..s.link }
            } else {
                s.link
            },
        },
        OutcomeView {
            stop_dma: s.tracker.voice_audio_on && s.audio.in_flight,
            mic: if s.tracker.mic_active {
                MicOrder::Stop
            } else {
                MicOrder::Leave
            },
            ..nothing()
        },
    )
}

/// What an event does. Text and audio of a round that is closed do nothing.
pub open spec fn handled(s: SessionView, ev: voice_client::EventView, now_ms: u32) -> (
    SessionView,
    OutcomeView,
) {
    let open = !s.tracker.round_finalized;
    match ev {
        voice_client::EventView::VadSpeaking(speaking) => if speaking {
            (SessionView { link: Link { last_vad_ms: now_ms, ..s.link }, ..s }, nothing())
        } else {
            (s, nothing())
        },
        voice_client::EventView::AsrResult(t) => recognised(s, t),
        voice_client::EventView::AssistantDelta(t) => if open {
            (
                SessionView {
                    tracker: round::after(s.tracker, RoundEvent::Delta(now_ms)),
                    display: display::with_delta(s.display, t),
                    ..s
                },
                OutcomeView { first_text: !s.tracker.round_active, ..nothing() },
            )
        } else {
            (s, nothing())
        },
        voice_client::EventView::AudioStart(rate) => if open {
            (
                SessionView {
                    tracker: round::after(s.tracker, RoundEvent::AudioStart),
                    audio: audio_output::stream_begun(
                        s.audio,
                        match rate {
                            Some(r) => r,
                            None => DEFAULT_STREAM_INPUT_RATE,
                        },
                    ),
                    ..s
                },
                OutcomeView { stop_dma: s.audio.in_flight, ..nothing() },
            )
        } else {
            (s, nothing())
        },
        voice_client::EventView::AudioChunk(b64) => if open {
            (
                SessionView {
                    tracker: round::after(s.tracker, RoundEvent::AudioChunk(now_ms)),
                    ..s
                },
                OutcomeView {
                    pcm: base64::decoded(encode_utf8(b64)),
                    send: match round::reports(s.tracker, RoundEvent::AudioChunk(now_ms)) {
                        Some(ms) => Some(voice_client::client_stats(ms)),
                        None => None,
                    },
                    latency_ms: round::reports(s.tracker, RoundEvent::AudioChunk(now_ms)),
                    ..nothing()
                },
            )
        } else {
            (s, nothing())
        },
        voice_client::EventView::AudioDone => if s.tracker.voice_audio_on {
            (
                SessionView {
                    tracker: round::after(s.tracker, RoundEvent::AudioDone),
                    audio: audio_output::AudioView { done: true, ..s.audio },
                    ..s
                },
                nothing(),
            )
        } else {
            (s, nothing())
        },
        voice_client::EventView::AssistantCompleted(t) => if open {
            (
                SessionView {
                    tracker: round::after(s.tracker, RoundEvent::Completed),
                    display: display::with_full_text(s.display, t),
                    ..s
                },
                OutcomeView { fallback: !s.tracker.received_audio, ..nothing() },
            )
        } else {
            (s, nothing())
        },
        voice_client::EventView::AssistantError(_) => mic_resumed(cut_short(s)),
        voice_client::EventView::InterruptAck => (cut_short(s), nothing()),
        voice_client::EventView::Error(_) => mic_resumed(s),
        _ => (s, nothing()),
    }
}

/// What becomes of a received frame.
#[derive(Debug, Clone, Copy, PartialEq, Eq, Structural)]
pub enum FrameAction {
    /// More bytes are needed.
    Wait,
    /// A message of so many bytes has to be handled.
    Handle(usize),
    /// A frame without meaning here.
    Ignore,
    /// A message was too large and is gone; the stream goes on.
    Dropped,
    /// The connection is gone.
    Disconnect,
}

/// What becomes of a received frame.
pub fn frame_action(r: Result<Option<(WsFrameKind, usize)>, WsError>) -> (a: FrameAction)
    ensures
        a == (match r {
            Ok(None) => FrameAction::Wait,
            Ok(Some((WsFrameKind::Text, n))) => FrameAction::Handle(n),
            Ok(Some(_)) => FrameAction::Ignore,
            Err(WsError::TooLarge) => FrameAction::Dropped,
            Err(_) => FrameAction::Disconnect,
        }),
{
    match r {
        Ok(None) => FrameAction::Wait,
        Ok(Some((WsFrameKind::Text, n))) => FrameAction::Handle(n),
        Ok(Some(_)) => FrameAction::Ignore,
        Err(WsError::TooLarge) => FrameAction::Dropped,
        Err(_) => FrameAction::Disconnect,
    }
}

/// Whether the `retried`-th failure to reconnect is logged: the first, and every tenth
/// after it.
pub fn retry_logged(retried: u32) -> (r: bool)
    ensures
        r == (retried % 10 == 1),
{
    retried % 10 == 1
}

impl Session {
    pub open spec fn wf(&self) -> bool {
        self.audio.wf() && self.display.wf()
    }

    /// A conversation that has not begun.
    pub fn new(audio: AudioOutput, display: Display) -> (s: Self)
        requires
            audio.wf(),
            display.wf(),
        ensures
            s.wf(),
            s@.tracker.fresh(),
            !s@.tracker.mic_active,
            s@.audio == audio@,
            s@.display == display@,
            s@.link == (Link { ws_up: false, mic_on: false, last_vad_ms: 0 }),
    {
        Session {
            tracker: RoundTracker::new(),
            audio,
            display,
            link: Link { ws_up: false, mic_on: false, last_vad_ms: 0 },
        }
    }

    fn idle() -> (o: Outcome)
        ensures
            o@ == nothing(),
    {
        let o = Outcome {
            stop_dma: false,
            mic: MicOrder::Leave,
            pcm: Vec::new(),
            send: None,
            first_text: false,
            latency_ms: None,
            fallback: false,
        };
        assert(o@ =~= nothing());
        o
    }

    fn close_round(&mut self)
        requires
            old(self).wf(),
        ensures
            final(self).wf(),
            final(self)@ == cut_short(old(self)@),
    {
        if self.tracker.finalize_partial() {
            self.display.flush_typing();
        }
    }

    fn resume_mic(&mut self) -> (o: Outcome)
        requires
            old(self).wf(),
        ensures
            final(self).wf(),
            final(self)@ == mic_resumed(old(self)@).0,
            o@ == mic_resumed(old(self)@).1,
    {
        let mut o = Self::idle();
        if self.tracker.resume_mic_on_error() {
            self.link.mic_on = true;
            o.mic = MicOrder::Start;
        }
        o
    }

    /// Takes an event from the server into account.
    pub fn handle_server_event(&mut self, ev: &ServerEvent, now_ms: u32) -> (o: Outcome)
        requires
            old(self).wf(),
        ensures
            final(self).wf(),
            final(self)@ == handled(old(self)@, ev@, now_ms).0,
            o@ == handled(old(self)@, ev@, now_ms).1,
    {
        let mut o = Self::idle();
        match ev {
            ServerEvent::VadSpeaking(speaking) => {
                if *speaking {
                    self.link.last_vad_ms = now_ms;
                }
            },
            ServerEvent::AsrResult(text) => {
                let action = self.tracker.on_asr_result();
                if action.stop_playback {
                    o.stop_dma = self.audio.stop_playback();
                }
                if action.pause_mic {
                    self.link.mic_on = false;
                    o.mic = MicOrder::Stop;
                }
                self.display.add_user_line(text.as_str());
            },
            ServerEvent::AssistantDelta(text) => {
                let (accept, first) = self.tracker.on_assistant_delta(now_ms);
                o.first_text = first;
                if accept {
                    self.display.append_reply_delta(text.as_str());
                }
            },
            ServerEvent::AudioStart(rate) => {
                if self.tracker.on_voice_audio_start() {
                    let r = match rate {
                        Some(r) => *r,
                        None => DEFAULT_STREAM_INPUT_RATE,
                    };
                    o.stop_dma = self.audio.begin_stream(r);
                }
            },
            ServerEvent::AudioChunk(b64) => {
                let (accept, stat) = self.tracker.on_audio_chunk(now_ms);
                o.latency_ms = stat;
                if accept {
                    decode_base64(b64.as_str().as_bytes(), &mut o.pcm);
                    assert(o.pcm@ =~= base64::decoded(encode_utf8(b64@)));
                    match stat {
                        Some(ms) => {
                            let mut msg = String::new();
                            build_client_stats(ms, &mut msg);
                            o.send = Some(msg);
                        },
                        None => {},
                    }
                }
            },
            ServerEvent::AudioDone => {
                if self.tracker.on_audio_done() {
                    self.audio.finish_stream();
                }
            },
            ServerEvent::AssistantCompleted(text) => {
                if !self.tracker.round_finalized {
                    o.fallback = self.tracker.on_completed();
                    self.display.set_reply_full_text(text.as_str());
                }
            },
            ServerEvent::AssistantError(_) => {
                self.close_round();
                return self.resume_mic();
            },
            ServerEvent::InterruptAck => {
                self.close_round();
            },
            ServerEvent::Error(_) => {
                return self.resume_mic();
            },
            _ => {},
        }
        o
    }

    /// The channel is open: the round starts over, and the message that opens the session
    /// has to be sent.
    pub fn open(&mut self) -> (msg: String)
        requires
            old(self).wf(),
        ensures
            final(self).wf(),
            final(self)@.tracker.fresh(),
            final(self)@.tracker.mic_active == old(self)@.tracker.mic_active,
            final(self)@ == (SessionView { tracker: final(self)@.tracker, ..old(self)@ }),
            msg@ == "{\"type\":\"session.start\",\"mode\":\"chat\"}"@,
    {
        self.tracker.reset();
        let mut msg = String::new();
        build_session_start(&mut msg);
        msg
    }

    /// The opening message was sent, or could not be: the channel is up, or it is not.
    pub fn opened(&mut self, sent: bool)
        requires
            old(self).wf(),
        ensures
            final(self).wf(),
            final(self)@ == (SessionView {
                link: Link { ws_up: sent, ..old(self)@.link },
                ..old(self)@
            }),
    {
        self.link.ws_up = sent;
    }

    /// The user interrupts the reply: the round is closed, playback stops, and the message
    /// that is returned has to be sent. The flag tells whether the DMA has to be stopped.
    pub fn interrupt(&mut self) -> (r: (String, bool))
        requires
            old(self).wf(),
        ensures
            final(self).wf(),
            final(self)@ == (SessionView {
                audio: audio_output::stopped(old(self)@.audio),
                ..cut_short(old(self)@)
            }),
            r.0@ == "{\"type\":\"interrupt\"}"@,
            r.1 == old(self)@.audio.in_flight,
            final(self)@.audio.data.len() == 0,
            !final(self)@.audio.streaming,
            final(self)@.tracker.round_finalized,
            final(self)@.tracker.mic_active == old(self)@.tracker.mic_active,
            final(self)@.link == old(self)@.link,
    {
        self.close_round();
        let stop_dma = self.audio.stop_playback();
        let mut msg = String::new();
        build_interrupt(&mut msg);
        (msg, stop_dma)
    }

    /// The connection is gone.
    pub fn closed(&mut self)
        requires
            old(self).wf(),
        ensures
            final(self).wf(),
            final(self)@ == (SessionView {
                link: Link { ws_up: false, mic_on: false, ..old(self)@.link },
                ..old(self)@
            }),
    {
        self.link.ws_up = false;
        self.link.mic_on = false;
    }
}

// ---------- laws of a conversation ----------

/// What arrives late for a closed round changes nothing, asks for nothing and is not
/// shown.
pub proof fn law_late_events_do_nothing(
    s: SessionView,
    ev: voice_client::EventView,
    now_ms: u32,
)
    requires
        s.tracker.round_finalized,
        ev is AssistantDelta || ev is AudioStart || ev is AudioChunk || ev is AssistantCompleted,
    ensures
        handled(s, ev, now_ms) == (s, nothing()),
{
}

/// A message of an unknown kind, or one that the device has no use for, changes nothing and
/// asks for nothing.
pub proof fn law_unknown_events_do_nothing(
    s: SessionView,
    ev: voice_client::EventView,
    now_ms: u32,
)
    requires
        ev is Unknown || ev is ServerReady || ev is SessionReady || ev is SessionClosed
            || ev is AudioFile,
    ensures
        handled(s, ev, now_ms) == (s, nothing()),
{
}

/// An interrupted conversation is silent and settled, and nothing of the interrupted round
/// comes through afterwards.
pub proof fn law_interrupt_silences(
    s: SessionView,
    ev: voice_client::EventView,
    now_ms: u32,
    dma_done: bool,
)
    requires
        ev is AssistantDelta || ev is AudioStart || ev is AudioChunk || ev is AssistantCompleted,
    ensures
        ({
            let w = SessionView { audio: audio_output::stopped(s.audio), ..cut_short(s) };
            &&& !audio_output::active(w.audio)
            &&& !audio_output::pump_due(w.audio, dma_done)
            &&& s.tracker.round_active && !s.tracker.round_finalized ==> !display::typing(w.display)
            &&& handled(w, ev, now_ms) == (w, nothing())
        }),
{
}

/// A recognition result pauses the uplink and opens a round, whatever was before: the next
/// text and audio count.
pub proof fn law_recognition_opens_a_round(s: SessionView, t: Seq<char>, now_ms: u32)
    ensures
        ({
            let w = handled(s, voice_client::EventView::AsrResult(t), now_ms).0;
            &&& w.tracker.fresh()
            &&& !w.tracker.mic_active
            &&& s.tracker.mic_active ==> !w.link.mic_on
            &&& s.tracker.voice_audio_on ==> !audio_output::active(w.audio)
            &&& !display::typing(w.display)
        }),
{
}

/// After any error the uplink is on, so that the device never listens deaf.
pub proof fn law_error_restores_uplink(s: SessionView, ev: voice_client::EventView, now_ms: u32)
    requires
        ev is AssistantError || ev is Error,
        s.tracker.mic_active ==> s.link.mic_on,
    ensures
        handled(s, ev, now_ms).0.tracker.mic_active,
        handled(s, ev, now_ms).0.link.mic_on,
        !s.tracker.mic_active ==> handled(s, ev, now_ms).1.mic == MicOrder::Start,
{
}

/// The end of the audio stream reaches playback: the stream counts as completely sent, and
/// nothing of what waits is lost. With a ring, and no block with the DMA, the pump is due at
/// once, however little there is; and once the ring is empty the next block that is taken
/// ends playback.
pub proof fn law_end_of_stream_reaches_playback(
    s: SessionView,
    now_ms: u32,
    dma_done: bool,
    n: nat,
    later_ms: u32,
)
    requires
        s.tracker.voice_audio_on,
    ensures
        ({
            let (w, o) = handled(s, voice_client::EventView::AudioDone, now_ms);
            let a = w.audio;
            &&& a.done
            &&& a.data == s.audio.data && a.streaming == s.audio.streaming && a.started
                == s.audio.started && a.cap == s.audio.cap && a.in_flight == s.audio.in_flight
                && a.volume == s.audio.volume && a.in_rate == s.audio.in_rate && a.block
                == s.audio.block
            &&& !w.tracker.voice_audio_on
            &&& s.audio.streaming && s.audio.cap > 0 && (!s.audio.in_flight || dma_done)
                ==> audio_output::pump_due(a, dma_done)
            &&& s.audio.streaming && s.audio.cap > 0 && (!s.audio.in_flight || dma_done)
                && s.audio.data.len() == 0 ==> {
                let end = audio_output::handed_over(
                    audio_output::pumped(a, dma_done, n),
                    true,
                    later_ms,
                );
                !end.streaming && !end.started && end.data.len() == 0
            }
            &&& !o.stop_dma && o.mic == MicOrder::Leave && o.pcm.len() == 0 && o.send is None
        }),
{
}

/// Where no audio stream is open, its end changes nothing.
pub proof fn law_stray_end_of_stream(s: SessionView, now_ms: u32)
    requires
        !s.tracker.voice_audio_on,
    ensures
        handled(s, voice_client::EventView::AudioDone, now_ms).0 == s,
{
}

/// A reply is heard, however short it is: its stream is opened at the output rate, its samples
/// are fed, its end arrives. Then the pump has a block for the DMA, with the first of these
/// samples; and block after block the ring gets empty and playback comes to its end.
pub proof fn law_short_reply_is_heard(
    s: SessionView,
    pcm: Seq<u8>,
    r: audio_output::Resampled,
    now_ms: u32,
    n: nat,
    k: nat,
)
    requires
        audio_output::wf_audio(s.audio),
        !s.tracker.round_finalized,
        0 < pcm.len() < s.audio.cap,
        pcm.len() % 2 == 0,
        4 <= n <= usize::MAX,
    ensures
        ({
            let begun = handled(s, voice_client::EventView::AudioStart(Some(16000u32)), now_ms).0;
            let fed = SessionView { audio: audio_output::fed(begun.audio, pcm, r), ..begun };
            let sent = handled(fed, voice_client::EventView::AudioDone, now_ms).0;
            let block = audio_output::pumped(sent.audio, false, n);
            let end = audio_output::after_blocks(sent.audio, n, now_ms, k);
            &&& sent.audio.data == pcm
            &&& audio_output::pump_due(sent.audio, false)
            &&& block.block matches Some((sound, _last)) && sound > 0
            &&& pcm == pcm.take(pcm.len() - block.data.len()) + block.data
            &&& 2 * k > pcm.len() ==> !audio_output::active(end)
        }),
{
    let begun = handled(s, voice_client::EventView::AudioStart(Some(16000u32)), now_ms).0;
    audio_output::law_new_stream(s.audio, 16000);
    assert(audio_output::accepts(begun.audio, pcm));
    audio_output::law_nothing_lost_with_room(begun.audio, pcm, r);
    let fed = SessionView { audio: audio_output::fed(begun.audio, pcm, r), ..begun };
    assert(fed.audio.data =~= pcm);
    let sent = handled(fed, voice_client::EventView::AudioDone, now_ms).0;
    audio_output::law_block_takes_what_fits(sent.audio, false, n);
    let block = audio_output::pumped(sent.audio, false, n);
    assert(pcm =~= pcm.take(pcm.len() - block.data.len()) + block.data);
    audio_output::law_stream_plays_out(sent.audio, n, now_ms, k);
}

/// Speech that the server hears is dated, its end is not; neither does anything else.
pub proof fn law_speech_is_dated(s: SessionView, speaking: bool, now_ms: u32)
    ensures
        ({
            let (w, o) = handled(s, voice_client::EventView::VadSpeaking(speaking), now_ms);
            &&& speaking ==> w.link.last_vad_ms == now_ms
            &&& !speaking ==> w.link.last_vad_ms == s.link.last_vad_ms
            &&& w.link.ws_up == s.link.ws_up && w.link.mic_on == s.link.mic_on
            &&& w.tracker == s.tracker && w.audio == s.audio && w.display == s.display
            &&& !o.stop_dma && o.mic == MicOrder::Leave && o.pcm.len() == 0 && o.send is None
        }),
{
}

/// Audio blocks reach playback as the samples that the server encoded, as long as the round
/// is open. The first block after the first text sends the delay between them to the server,
/// which reads it back.
pub proof fn law_audio_block_is_decoded(s: SessionView, d: Seq<u8>, now_ms: u32)
    requires
        !s.tracker.round_finalized,
    ensures
        ({
            let (w, o) = handled(
                s,
                voice_client::EventView::AudioChunk(base64::encoded(d)),
                now_ms,
            );
            &&& o.pcm == d
            &&& w.tracker.received_audio
            &&& w.audio == s.audio && w.display == s.display && w.link == s.link
            &&& o.send is Some <==> o.latency_ms is Some
            &&& o.latency_ms is Some <==> s.tracker.llm_first_token_ms is Some
                && !s.tracker.stat_sent
            &&& o.send matches Some(t) ==> crate::json::u32_field(
                encode_utf8(t),
                voice_client::key("llm_first_token_to_audio_ms"),
            ) == o.latency_ms && crate::json::string_field(encode_utf8(t), voice_client::key("type"))
                == Some("client_stats"@)
            &&& !o.stop_dma && o.mic == MicOrder::Leave && !o.fallback
        }),
{
    base64::law_decode_encode(d);
    let e = RoundEvent::AudioChunk(now_ms);
    match round::reports(s.tracker, e) {
        Some(ms) => {
            voice_client::law_client_stats_reads_back(ms);
        },
        None => {},
    }
}

/// The start of a reply's audio opens a stream at the rate that it names, 24 kHz where it
/// names none; the block of the old stream that is with the DMA is stopped.
pub proof fn law_audio_start_opens_stream(s: SessionView, rate: Option<u32>, now_ms: u32)
    requires
        !s.tracker.round_finalized,
    ensures
        ({
            let (w, o) = handled(s, voice_client::EventView::AudioStart(rate), now_ms);
            &&& w.tracker.voice_audio_on
            &&& w.audio.streaming && !w.audio.started && !w.audio.done && w.audio.data.len() == 0
                && !w.audio.in_flight
            &&& rate matches Some(r) ==> (8000 <= r <= 48000 ==> w.audio.in_rate == r)
            &&& rate is None ==> w.audio.in_rate == 24000
            &&& w.audio.volume == s.audio.volume && w.audio.cap == s.audio.cap
            &&& o.stop_dma == s.audio.in_flight
            &&& w.display == s.display && w.link == s.link
        }),
{
}

/// What was recognised is shown behind what was being typed, in the user's colour, and
/// nothing is being typed then. Sound of the last round is cut off where its stream was
/// still open, and left alone otherwise.
pub proof fn law_recognised_speech(s: SessionView, t: Seq<char>, now_ms: u32)
    ensures
        ({
            let (w, o) = handled(s, voice_client::EventView::AsrResult(t), now_ms);
            &&& display::adds_text(
                display::settled(s.display).history,
                w.display.history,
                "我:"@ + t,
                0x07e0,
            )
            &&& w.display.rest.len() == 0 && w.display.cur.len() == 0 && !w.display.streaming
            &&& s.tracker.voice_audio_on ==> w.audio.data.len() == 0 && !w.audio.streaming
                && !w.audio.in_flight && o.stop_dma == s.audio.in_flight
            &&& !s.tracker.voice_audio_on ==> w.audio == s.audio && !o.stop_dma
            &&& s.tracker.mic_active ==> !w.link.mic_on && o.mic == MicOrder::Stop
            &&& !s.tracker.mic_active ==> w.link.mic_on == s.link.mic_on && o.mic == MicOrder::Leave
            &&& !w.tracker.mic_active && !w.tracker.round_finalized && !w.tracker.voice_audio_on
                && !w.tracker.received_audio && !w.tracker.stat_sent
            &&& w.link.ws_up == s.link.ws_up && w.link.last_vad_ms == s.link.last_vad_ms
        }),
{
    display::law_user_line(s.display, t);
}

/// Reply text goes behind the text that is still ahead of the screen, where a reply is
/// streaming in; otherwise it is what is ahead, and what was there before has settled. The
/// first piece of a round, be it empty, is told and dated.
pub proof fn law_reply_text_is_queued(s: SessionView, t: Seq<char>, now_ms: u32)
    requires
        !s.tracker.round_finalized,
    ensures
        ({
            let (w, o) = handled(s, voice_client::EventView::AssistantDelta(t), now_ms);
            &&& t.len() > 0 && s.display.streaming ==> w.display.cur + w.display.rest
                == s.display.cur + s.display.rest + t && w.display.history == s.display.history
            &&& t.len() > 0 && !s.display.streaming ==> w.display.cur + w.display.rest == t
                && w.display.history == display::settled(s.display).history
            &&& t.len() == 0 ==> w.display == s.display
            &&& w.tracker.round_active
            &&& o.first_text == !s.tracker.round_active
            &&& !s.tracker.round_active ==> w.tracker.llm_first_token_ms == Some(now_ms)
            &&& s.tracker.round_active ==> w.tracker.llm_first_token_ms
                == s.tracker.llm_first_token_ms
            &&& w.audio == s.audio && w.link == s.link
        }),
{
    let w = handled(s, voice_client::EventView::AssistantDelta(t), now_ms).0;
    if t.len() > 0 {
        if s.display.streaming {
            assert(w.display.cur + w.display.rest =~= s.display.cur + s.display.rest + t);
        } else {
            assert(w.display.cur + w.display.rest =~= t);
        }
    }
}

/// The whole text of a reply closes its round. Where it continues the pieces that came, only
/// what they lacked is added; otherwise, or where none came, it is what is ahead of the
/// screen, and what was there has settled. A reply without an audio block asks for synthesis.
/// Sound goes on.
pub proof fn law_complete_reply(s: SessionView, t: Seq<char>, now_ms: u32)
    requires
        !s.tracker.round_finalized,
    ensures
        ({
            let (w, o) = handled(s, voice_client::EventView::AssistantCompleted(t), now_ms);
            let goes_on = s.display.streaming && s.display.queued.is_prefix_of(t);
            &&& w.tracker.round_finalized && !w.tracker.round_active
            &&& w.tracker.voice_audio_on == s.tracker.voice_audio_on
            &&& o.fallback == !s.tracker.received_audio
            &&& w.audio == s.audio && w.link == s.link
            &&& !w.display.streaming
            &&& goes_on ==> w.display.cur + w.display.rest == s.display.cur + s.display.rest
                + t.skip(s.display.queued.len() as int) && w.display.history == s.display.history
            &&& !goes_on ==> w.display.cur + w.display.rest == t && w.display.history
                == display::settled(s.display).history
        }),
{
    let w = handled(s, voice_client::EventView::AssistantCompleted(t), now_ms).0;
    if s.display.streaming && s.display.queued.is_prefix_of(t) {
        assert(w.display.cur + w.display.rest =~= s.display.cur + s.display.rest + t.skip(
            s.display.queued.len() as int,
        ));
    } else {
        assert(w.display.cur + w.display.rest =~= t);
    }
}

/// A reply that failed, and an interruption that the server confirms, close the round and
/// settle the text that was arriving. A failure turns the uplink on, a confirmation does
/// not. Any other error turns the uplink on and changes nothing else. None of them touches
/// playback.
pub proof fn law_failures(s: SessionView, m: Seq<char>, now_ms: u32)
    ensures
        ({
            let failed = handled(s, voice_client::EventView::AssistantError(m), now_ms);
            let ack = handled(s, voice_client::EventView::InterruptAck, now_ms);
            let other = handled(s, voice_client::EventView::Error(m), now_ms);
            let arriving = s.tracker.round_active && !s.tracker.round_finalized;
            &&& failed.0.tracker.round_finalized && ack.0.tracker.round_finalized
            &&& arriving ==> failed.0.display == display::settled(s.display) && ack.0.display
                == display::settled(s.display)
            &&& !arriving ==> failed.0.display == s.display && ack.0.display == s.display
            &&& failed.0.tracker.mic_active && other.0.tracker.mic_active
            &&& ack.0.tracker.mic_active == s.tracker.mic_active && ack.0.link == s.link
            &&& other.0.display == s.display && other.0.tracker.round_finalized
                == s.tracker.round_finalized && other.0.tracker.round_active
                == s.tracker.round_active
            &&& failed.0.audio == s.audio && ack.0.audio == s.audio && other.0.audio == s.audio
            &&& s.tracker.mic_active ==> failed.0.link == s.link && other.0.link == s.link
            &&& !s.tracker.mic_active ==> failed.0.link.mic_on && other.0.link.mic_on
        }),
{
}

/// What an event leaves alone. That the channel is up is no event's to change, nor the
/// volume, nor the ring; a block that is with the DMA is given up only together with the
/// order to stop it; and the microphone is ordered on or off exactly where its flag changes.
pub proof fn law_events_keep_apart(s: SessionView, ev: voice_client::EventView, now_ms: u32)
    ensures
        ({
            let (w, o) = handled(s, ev, now_ms);
            &&& w.link.ws_up == s.link.ws_up
            &&& !(ev is VadSpeaking) ==> w.link.last_vad_ms == s.link.last_vad_ms
            &&& w.audio.volume == s.audio.volume && w.audio.cap == s.audio.cap && w.audio.total
                == s.audio.total
            &&& !(ev is AsrResult || ev is AudioStart || ev is AudioDone) ==> w.audio == s.audio
            &&& !(ev is AsrResult || ev is AssistantDelta || ev is AssistantCompleted
                || ev is AssistantError || ev is InterruptAck) ==> w.display == s.display
            &&& w.display.state == s.display.state && w.display.volume == s.display.volume
                && w.display.batt_level == s.display.batt_level
            &&& o.stop_dma <==> s.audio.in_flight && !w.audio.in_flight
            &&& o.mic == MicOrder::Start <==> w.tracker.mic_active && !s.tracker.mic_active
            &&& o.mic == MicOrder::Stop <==> !w.tracker.mic_active && s.tracker.mic_active
            &&& o.mic == MicOrder::Start ==> w.link.mic_on
            &&& o.mic == MicOrder::Stop ==> !w.link.mic_on
            &&& o.mic == MicOrder::Leave ==> w.link.mic_on == s.link.mic_on
            &&& !(ev is AudioChunk) ==> o.pcm.len() == 0 && o.send is None && o.latency_ms is None
            &&& !(ev is AssistantDelta) ==> !o.first_text
            &&& !(ev is AssistantCompleted) ==> !o.fallback
        }),
{
}

} // verus!

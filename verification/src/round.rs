//! The guard over one round of conversation: which parts of a streamed reply still
//! count, and when the microphone sends.
use vstd::prelude::*;

verus! {

/// What the caller has to do when a recognition result arrives.
#[derive(Debug, Clone, Copy, PartialEq, Eq, Structural)]
pub struct AsrResultAction {
    /// The previous round's audio stream is still open: drop what is left of it.
    pub stop_playback: bool,
    /// Pause the uplink at once. Between recognition and the reply it would carry only
    /// noise, and compete with the downlink.
    pub pause_mic: bool,
}

/// State of one streamed reply.
///
/// - A recognition result starts a new round and pauses the uplink.
/// - Once a round is closed (completed, interrupted or failed), text and audio that
///   arrive late for it are refused.
/// - After an error the uplink resumes, so that the device never listens deaf.
/// - A reply that is complete without any audio block has to be synthesised separately.
/// - The delay from the first text to the first audio block after it is reported once
///   per round.
#[derive(Debug, Clone, PartialEq)]
pub struct RoundTracker {
    /// Text of this round is arriving.
    pub round_active: bool,
    /// This round is closed.
    pub round_finalized: bool,
    /// This round has had an audio block on the voice channel.
    pub received_audio: bool,
    /// The audio stream is open.
    pub voice_audio_on: bool,
    /// The uplink is on.
    pub mic_active: bool,
    /// When the first text of the round arrived.
    pub llm_first_token_ms: Option<u32>,
    /// The delay of this round has been reported.
    pub stat_sent: bool,
}

/// Something that happens to a round.
pub enum RoundEvent {
    /// A recognition result.
    AsrResult,
    /// A piece of reply text, at a time.
    Delta(u32),
    AudioStart,
    /// An audio block, at a time.
    AudioChunk(u32),
    AudioDone,
    Completed,
    /// The round is interrupted or has failed.
    CutShort,
    /// An error asks for the uplink.
    ErrorResume,
    MicStart,
    MicPause,
}

/// The state after an event.
pub open spec fn after(t: RoundTracker, e: RoundEvent) -> RoundTracker {
    match e {
        RoundEvent::AsrResult => RoundTracker {
            round_active: false,
            round_finalized: false,
            received_audio: false,
            voice_audio_on: false,
            mic_active: false,
            llm_first_token_ms: None,
            stat_sent: false,
        },
        RoundEvent::Delta(now) => if t.round_finalized || t.round_active {
            t
        } else {
            RoundTracker { round_active: true, llm_first_token_ms: Some(now), ..t }
        },
        RoundEvent::AudioStart => if t.round_finalized {
            t
        } else {
            RoundTracker { voice_audio_on: true, ..t }
        },
        RoundEvent::AudioChunk(now) => if t.round_finalized {
            t
        } else {
            RoundTracker {
                received_audio: true,
                stat_sent: t.stat_sent || reports(t, e) is Some,
                ..t
            }
        },
        RoundEvent::AudioDone => RoundTracker { voice_audio_on: false, ..t },
        RoundEvent::Completed => if t.round_finalized {
            t
        } else {
            RoundTracker { round_finalized: true, round_active: false, ..t }
        },
        RoundEvent::CutShort => RoundTracker { round_active: false, round_finalized: true, ..t },
        RoundEvent::ErrorResume => RoundTracker { mic_active: true, ..t },
        RoundEvent::MicStart => RoundTracker { mic_active: true, ..t },
        RoundEvent::MicPause => RoundTracker { mic_active: false, ..t },
    }
}

/// The delay that an event makes due to be reported.
pub open spec fn reports(t: RoundTracker, e: RoundEvent) -> Option<u32> {
    match e {
        RoundEvent::AudioChunk(now) => if t.round_finalized || t.stat_sent {
            None
        } else {
            match t.llm_first_token_ms {
                Some(first) => Some(
                    (if now >= first {
                        now - first
                    } else {
                        0
                    }) as u32,
                ),
                None => None,
            }
        },
        _ => None,
    }
}

impl RoundTracker {
    /// No round under way, and nothing remembered of an earlier one.
    pub open spec fn fresh(&self) -> bool {
        &&& !self.round_active
        &&& !self.round_finalized
        &&& !self.received_audio
        &&& !self.voice_audio_on
        &&& self.llm_first_token_ms is None
        &&& !self.stat_sent
    }

    pub fn new() -> (t: Self)
        ensures
            t.fresh(),
            !t.mic_active,
    {
        RoundTracker {
            round_active: false,
            round_finalized: false,
            received_audio: false,
            voice_audio_on: false,
            mic_active: false,
            llm_first_token_ms: None,
            stat_sent: false,
        }
    }

    /// Forgets the round. The uplink stays as it is.
    pub fn reset(&mut self)
        ensures
            final(self).fresh(),
            final(self).mic_active == old(self).mic_active,
    {
        let mic = self.mic_active;
        *self = Self::new();
        self.mic_active = mic;
    }

    /// The uplink has been started.
    pub fn mic_start(&mut self)
        ensures
            *final(self) == after(*old(self), RoundEvent::MicStart),
    {
        self.mic_active = true;
    }

    /// The uplink is paused.
    pub fn mic_pause(&mut self)
        ensures
            *final(self) == after(*old(self), RoundEvent::MicPause),
    {
        self.mic_active = false;
    }

    pub fn mic_is_active(&self) -> (r: bool)
        ensures
            r == self.mic_active,
    {
        self.mic_active
    }

    /// A recognition result: a new round begins and the uplink pauses.
    pub fn on_asr_result(&mut self) -> (action: AsrResultAction)
        ensures
            *final(self) == after(*old(self), RoundEvent::AsrResult),
            action.stop_playback == old(self).voice_audio_on,
            action.pause_mic == old(self).mic_active,
            final(self).fresh(),
            !final(self).mic_active,
    {
        let action = AsrResultAction {
            stop_playback: self.voice_audio_on,
            pause_mic: self.mic_active,
        };
        self.mic_active = false;
        self.reset();
        action
    }

    /// A piece of reply text. The first flag tells whether it counts, the second whether
    /// it is the first of its round.
    pub fn on_assistant_delta(&mut self, now_ms: u32) -> (r: (bool, bool))
        ensures
            *final(self) == after(*old(self), RoundEvent::Delta(now_ms)),
            r.0 == !old(self).round_finalized,
            r.1 == (r.0 && !old(self).round_active),
    {
        if self.round_finalized {
            return (false, false);
        }
        if self.round_active {
            return (true, false);
        }
        self.round_active = true;
        self.llm_first_token_ms = Some(now_ms);
        (true, true)
    }

    /// The audio stream of the voice channel opens. The result tells whether it counts.
    pub fn on_voice_audio_start(&mut self) -> (r: bool)
        ensures
            *final(self) == after(*old(self), RoundEvent::AudioStart),
            r == !old(self).round_finalized,
    {
        if self.round_finalized {
            return false;
        }
        self.voice_audio_on = true;
        true
    }

    /// An audio block. The result tells whether it counts, and carries the delay to
    /// report, if one is due: on the first block after the first text, once a round.
    pub fn on_audio_chunk(&mut self, now_ms: u32) -> (r: (bool, Option<u32>))
        ensures
            *final(self) == after(*old(self), RoundEvent::AudioChunk(now_ms)),
            r.0 == !old(self).round_finalized,
            r.1 == reports(*old(self), RoundEvent::AudioChunk(now_ms)),
    {
        if self.round_finalized {
            return (false, None);
        }
        self.received_audio = true;
        if self.stat_sent {
            return (true, None);
        }
        match self.llm_first_token_ms {
            Some(first) => {
                self.stat_sent = true;
                (true, Some(now_ms.saturating_sub(first)))
            },
            None => (true, None),
        }
    }

    /// The audio stream ends. The result tells whether one was open.
    pub fn on_audio_done(&mut self) -> (r: bool)
        ensures
            *final(self) == after(*old(self), RoundEvent::AudioDone),
            r == old(self).voice_audio_on,
    {
        if self.voice_audio_on {
            self.voice_audio_on = false;
            true
        } else {
            false
        }
    }

    /// The reply is complete. The result tells whether it counts and came without any
    /// audio block, so that its text has to be synthesised separately.
    pub fn on_completed(&mut self) -> (r: bool)
        ensures
            *final(self) == after(*old(self), RoundEvent::Completed),
            r == (!old(self).round_finalized && !old(self).received_audio),
    {
        if self.round_finalized {
            return false;
        }
        self.round_finalized = true;
        self.round_active = false;
        !self.received_audio
    }

    /// The round ends early: interrupted, or failed. The result tells whether text was
    /// still arriving, so that the subtitle has to be settled.
    pub fn finalize_partial(&mut self) -> (flush: bool)
        ensures
            *final(self) == after(*old(self), RoundEvent::CutShort),
            flush == (old(self).round_active && !old(self).round_finalized),
    {
        let flush = self.round_active && !self.round_finalized;
        self.round_active = false;
        self.round_finalized = true;
        flush
    }

    /// After an error the uplink is on. The result tells whether it has to be started.
    pub fn resume_mic_on_error(&mut self) -> (r: bool)
        ensures
            *final(self) == after(*old(self), RoundEvent::ErrorResume),
            r == !old(self).mic_active,
    {
        if self.mic_active {
            return false;
        }
        self.mic_active = true;
        true
    }
}

impl Default for RoundTracker {
    fn default() -> (t: Self)
        ensures
            t.fresh(),
            !t.mic_active,
    {
        Self::new()
    }
}

// ---------- laws of a round ----------

/// The state after a run of events.
pub open spec fn after_all(t: RoundTracker, events: Seq<RoundEvent>) -> RoundTracker
    decreases events.len(),
{
    if events.len() == 0 {
        t
    } else {
        after(after_all(t, events.drop_last()), events.last())
    }
}

/// How many delays are reported over a run of events.
pub open spec fn report_count(t: RoundTracker, events: Seq<RoundEvent>) -> nat
    decreases events.len(),
{
    if events.len() == 0 {
        0
    } else {
        report_count(t, events.drop_last()) + if reports(
            after_all(t, events.drop_last()),
            events.last(),
        ) is Some {
            1nat
        } else {
            0nat
        }
    }
}

/// Within one round, from whatever state and whatever arrives, the delay is reported at
/// most once.
pub proof fn law_one_report_per_round(t: RoundTracker, events: Seq<RoundEvent>)
    requires
        forall|i: int| 0 <= i < events.len() ==> !(#[trigger] events[i] is AsrResult),
    ensures
        report_count(t, events) <= 1,
        report_count(t, events) == 1 ==> after_all(t, events).stat_sent,
        t.stat_sent ==> report_count(t, events) == 0,
        t.stat_sent ==> after_all(t, events).stat_sent,
    decreases events.len(),
{
    if events.len() > 0 {
        assert forall|i: int| 0 <= i < events.drop_last().len() implies !(
        #[trigger] events.drop_last()[i] is AsrResult) by {
            assert(events[i] == events.drop_last()[i]);
        }
        law_one_report_per_round(t, events.drop_last());
        assert(!(events[events.len() - 1] is AsrResult));
    }
}

/// Over the events of one round, from its start on, audio counts as received exactly if a
/// block arrived while the round was open.
pub proof fn law_audio_means_a_block(t: RoundTracker, events: Seq<RoundEvent>)
    requires
        t.fresh(),
        forall|i: int| 0 <= i < events.len() ==> !(#[trigger] events[i] is AsrResult),
    ensures
        after_all(t, events).received_audio <==> exists|i: int|
            0 <= i < events.len() && #[trigger] events[i] is AudioChunk && !after_all(
                t,
                events.take(i),
            ).round_finalized,
    decreases events.len(),
{
    if events.len() > 0 {
        let front = events.drop_last();
        let n = events.len() - 1;
        assert forall|i: int| 0 <= i < front.len() implies !(#[trigger] front[i] is AsrResult) by {
            assert(events[i] == front[i]);
        }
        law_audio_means_a_block(t, front);
        assert(!(events[n] is AsrResult));
        assert(events.take(n) =~= front);
        assert forall|i: int| 0 <= i < n implies events.take(i) == front.take(i) by {
            assert(events.take(i) =~= front.take(i));
        }
        if after_all(t, front).received_audio {
            let i = choose|i: int|
                0 <= i < front.len() && #[trigger] front[i] is AudioChunk && !after_all(
                    t,
                    front.take(i),
                ).round_finalized;
            assert(events[i] is AudioChunk && events.take(i) == front.take(i));
        } else {
            assert forall|i: int| 0 <= i < n && #[trigger] events[i] is AudioChunk implies after_all(
                t,
                events.take(i),
            ).round_finalized by {
                assert(front[i] is AudioChunk && events.take(i) == front.take(i));
            }
        }
    }
}

/// The first block after the first text reports the time between them, whatever that time
/// was; a block before any text reports nothing.
pub proof fn law_first_block_after_text_reports(t: RoundTracker, first_ms: u32, now_ms: u32)
    requires
        t.fresh(),
    ensures
        reports(t, RoundEvent::AudioChunk(now_ms)) is None,
        first_ms <= now_ms ==> reports(
            after(t, RoundEvent::Delta(first_ms)),
            RoundEvent::AudioChunk(now_ms),
        ) == Some((now_ms - first_ms) as u32),
{
}

/// What arrives late for a closed round changes nothing, and no delay is reported for it,
/// until the next recognition result.
pub proof fn law_late_content_refused(t: RoundTracker, e: RoundEvent)
    requires
        t.round_finalized,
        e is Delta || e is AudioStart || e is AudioChunk || e is Completed,
    ensures
        after(t, e) == t,
        reports(t, e) is None,
{
}

/// A round that was closed stays closed until the next recognition result.
pub proof fn law_closed_until_next_round(t: RoundTracker, events: Seq<RoundEvent>)
    requires
        t.round_finalized,
        forall|i: int| 0 <= i < events.len() ==> !(#[trigger] events[i] is AsrResult),
    ensures
        after_all(t, events).round_finalized,
    decreases events.len(),
{
    if events.len() > 0 {
        assert forall|i: int| 0 <= i < events.drop_last().len() implies !(
        #[trigger] events.drop_last()[i] is AsrResult) by {
            assert(events[i] == events.drop_last()[i]);
        }
        law_closed_until_next_round(t, events.drop_last());
        assert(!(events[events.len() - 1] is AsrResult));
    }
}

/// A recognition result voids the previous round whatever its state, and pauses the
/// uplink; after an error the uplink is on.
pub proof fn law_new_round_and_recovery(t: RoundTracker)
    ensures
        after(t, RoundEvent::AsrResult).fresh(),
        !after(t, RoundEvent::AsrResult).mic_active,
        after(after(t, RoundEvent::CutShort), RoundEvent::ErrorResume).mic_active,
        after(after(t, RoundEvent::CutShort), RoundEvent::ErrorResume).round_finalized,
        after(t, RoundEvent::ErrorResume).mic_active,
{
}

/// What each event does to the microphone's flag: only a recognition result and a pause
/// clear it, only an error and a start set it, and nothing else touches it.
pub proof fn law_uplink_flag(t: RoundTracker, e: RoundEvent)
    ensures
        e is AsrResult || e is MicPause ==> !after(t, e).mic_active,
        e is ErrorResume || e is MicStart ==> after(t, e).mic_active,
        !(e is AsrResult || e is MicPause || e is ErrorResume || e is MicStart) ==> after(
            t,
            e,
        ).mic_active == t.mic_active,
        e is ErrorResume || e is MicStart || e is MicPause ==> after(t, e).round_active
            == t.round_active && after(t, e).round_finalized == t.round_finalized && after(
            t,
            e,
        ).received_audio == t.received_audio && after(t, e).voice_audio_on == t.voice_audio_on
            && after(t, e).llm_first_token_ms == t.llm_first_token_ms && after(t, e).stat_sent
            == t.stat_sent,
{
}

/// The audio stream is open from its start, in a round that is open, to its end or to the
/// next recognition result. That a round is completed or cut short does not close it.
pub proof fn law_stream_flag(t: RoundTracker, e: RoundEvent)
    ensures
        e is AudioStart && !t.round_finalized ==> after(t, e).voice_audio_on,
        e is AudioDone || e is AsrResult ==> !after(t, e).voice_audio_on,
        !(e is AudioStart || e is AudioDone || e is AsrResult) ==> after(t, e).voice_audio_on
            == t.voice_audio_on,
{
}

/// A round is open from a recognition result until it is completed or cut short, and for no
/// other reason does it close or open. Its text is arriving from the first piece on until
/// then.
pub proof fn law_round_flags(t: RoundTracker, e: RoundEvent)
    ensures
        e is Completed || e is CutShort ==> after(t, e).round_finalized,
        e is AsrResult ==> !after(t, e).round_finalized,
        !(e is Completed || e is CutShort || e is AsrResult) ==> after(t, e).round_finalized
            == t.round_finalized,
        e is Delta && !t.round_finalized ==> after(t, e).round_active,
        e is AsrResult || e is CutShort ==> !after(t, e).round_active,
        e is Completed && !t.round_finalized ==> !after(t, e).round_active,
        !(e is Completed || e is CutShort || e is AsrResult || e is Delta) ==> after(
            t,
            e,
        ).round_active == t.round_active,
{
}

/// The time of the first text is that of the first piece of a round, whatever comes later.
pub proof fn law_first_text_is_dated(t: RoundTracker, e: RoundEvent, first_ms: u32)
    requires
        !t.round_finalized,
        !t.round_active,
        !(e is AsrResult),
    ensures
        after(t, RoundEvent::Delta(first_ms)).llm_first_token_ms == Some(first_ms),
        !(e is Completed || e is CutShort) ==> after(
            after(t, RoundEvent::Delta(first_ms)),
            e,
        ).llm_first_token_ms == Some(first_ms),
{
}

/// A block is reported with the time since the first text, nothing where the clock seems to
/// have run backwards, as long as the round is open and nothing was reported; only blocks
/// are reported.
pub proof fn law_report_is_the_delay(t: RoundTracker, e: RoundEvent, first_ms: u32, now_ms: u32)
    requires
        !t.round_finalized,
        !t.stat_sent,
        t.llm_first_token_ms == Some(first_ms),
    ensures
        first_ms <= now_ms ==> reports(t, RoundEvent::AudioChunk(now_ms)) == Some(
            (now_ms - first_ms) as u32,
        ),
        first_ms > now_ms ==> reports(t, RoundEvent::AudioChunk(now_ms)) == Some(0u32),
        after(t, RoundEvent::AudioChunk(now_ms)).stat_sent,
        after(t, RoundEvent::AudioChunk(now_ms)).received_audio,
        !(e is AudioChunk) ==> reports(t, e) is None,
{
}

} // verus!

//! The main loop's decisions: idle, listening or playing, and the three buttons.
//!
//! A pass over the loop asks the outside for what it needs as it goes along: microphone
//! samples, and buttons, some of them a second time once they have stopped bouncing.
//! [`Machine::begin`] starts a pass; [`Machine::mic`] and [`Machine::button`] carry it on
//! with the answers, until it is over. What has to be done on the way comes out as
//! orders.
use vstd::prelude::*;
use crate::audio_output;
use crate::config::{
    AUTO_LISTEN_ON_BOOT, LISTEN_COOLDOWN_MS, LISTEN_TIMEOUT_MS, RESUME_LISTEN_SILENCE_MS,
};
use crate::display;
use crate::display::DisplayState;
use crate::round;
use crate::round::RoundEvent;
use crate::session::{Link, Session, SessionView};

verus! {

/// Listening does not start by itself before this time.
pub const BOOT_QUIET_MS: u32 = 5000;

/// A time counts as past while it lies no more than this behind.
pub const HALF_RANGE: u32 = 0x7fffffff;

/// The microphone is read every so many passes.
pub const MIC_PASSES: u32 = 16;

/// Empty reads in a row after which the microphone is restarted.
pub const EMPTY_READS: u32 = 32;

/// Passes between two lines of the heartbeat.
pub const HEARTBEAT_PASSES: u32 = 30000;

/// The three states.
#[derive(Debug, Clone, Copy, PartialEq, Eq, Structural)]
pub enum AppState {
    Idle,
    Listening,
    Playing,
}

/// Where a pass stands.
#[derive(Debug, Clone, Copy, PartialEq, Eq, Structural)]
pub enum Stage {
    /// Between two passes.
    Ready,
    /// Waiting for microphone samples.
    Mic,
    /// Waiting for the talk button to stop bouncing, pressed while idle, while listening,
    /// and while playing.
    TalkIdle,
    TalkListen,
    TalkPlay,
    /// Waiting for the talk button to be released.
    Release,
    /// Waiting for the volume-up button, and for it to stop bouncing.
    Up,
    UpAgain,
    /// The same for volume-down.
    Down,
    DownAgain,
}

/// What a pass needs next.
#[derive(Debug, Clone, Copy, PartialEq, Eq, Structural)]
pub enum Need {
    /// Samples from the microphone.
    Mic,
    /// The talk button, after 30 ms.
    TalkAgain,
    /// The talk button has to be released.
    Release,
    /// The volume-up button.
    Up,
    /// The volume-up button, after 20 ms.
    UpAgain,
    /// The volume-down button.
    Down,
    /// The volume-down button, after 20 ms.
    DownAgain,
    /// Nothing: the pass is over. The flag asks for a line of the heartbeat.
    Over(bool),
}

/// Something to be done.
#[derive(Debug, Clone)]
pub enum Order {
    StartMic,
    StopMic,
    /// The microphone gave nothing for too long: stop it and start it again.
    RestartMic,
    /// Send these samples up.
    Uplink(Vec<u8>),
    /// Log the loudest sample.
    Peak(i32),
    /// Interrupt the reply.
    Interrupt,
    /// Play a tone of this frequency for so many milliseconds.
    Tone(u32, u32),
}

/// Something to be done, its samples as a sequence.
pub enum OrderView {
    StartMic,
    StopMic,
    RestartMic,
    Uplink(Seq<u8>),
    Peak(i32),
    Interrupt,
    Tone(u32, u32),
}

impl View for Order {
    type V = OrderView;

    open spec fn view(&self) -> OrderView {
        match self {
            Order::StartMic => OrderView::StartMic,
            Order::StopMic => OrderView::StopMic,
            Order::RestartMic => OrderView::RestartMic,
            Order::Uplink(b) => OrderView::Uplink(b@),
            Order::Peak(p) => OrderView::Peak(*p),
            Order::Interrupt => OrderView::Interrupt,
            Order::Tone(f, ms) => OrderView::Tone(*f, *ms),
        }
    }
}

pub open spec fn order_views(o: Seq<Order>) -> Seq<OrderView> {
    o.map_values(|x: Order| x@)
}

/// The state of the machine.
#[derive(Debug, Clone, Copy, PartialEq, Eq, Structural)]
pub struct Machine {
    pub state: AppState,
    /// Listening does not restart by itself before this time.
    pub cooldown_until: u32,
    /// When listening began.
    pub listen_started: u32,
    /// Since when playback has been quiet.
    pub quiet_since: Option<u32>,
    /// The channel was up when this pass began.
    pub ws_up: bool,
    pub prev_talk: bool,
    pub prev_up: bool,
    pub prev_dn: bool,
    /// The talk button went down in this pass.
    pub talk_edge: bool,
    pub peak: i32,
    pub empty_streak: u32,
    pub peak_win: u32,
    pub pass: u32,
    pub stage: Stage,
}

/// The machine, the conversation, and what has been ordered.
#[verifier::ext_equal]
pub struct World {
    pub m: Machine,
    pub s: SessionView,
    pub orders: Seq<OrderView>,
}

// ---------- changes of state ----------

pub open spec fn with_order(w: World, o: OrderView) -> World {
    World { orders: w.orders.push(o), ..w }
}

pub open spec fn with_display_state(s: SessionView, d: DisplayState) -> SessionView {
    SessionView { display: display::DisplayView { state: d, ..s.display }, ..s }
}

/// The uplink and the microphone are on, and the device listens.
pub open spec fn listening(w: World, now_ms: u32) -> World {
    World {
        m: Machine { state: AppState::Listening, listen_started: now_ms, ..w.m },
        s: with_display_state(
            SessionView {
                tracker: round::after(w.s.tracker, RoundEvent::MicStart),
                link: Link { mic_on: true, ..w.s.link },
                ..w.s
            },
            DisplayState::Listening,
        ),
        orders: w.orders.push(OrderView::StartMic),
    }
}

/// The uplink and the microphone are off.
pub open spec fn mic_off(w: World) -> World {
    World {
        s: SessionView {
            tracker: round::after(w.s.tracker, RoundEvent::MicPause),
            link: Link { mic_on: false, ..w.s.link },
            ..w.s
        },
        orders: w.orders.push(OrderView::StopMic),
        ..w
    }
}

/// The reply plays.
pub open spec fn playing(w: World) -> World {
    let off = mic_off(w);
    World {
        m: Machine { state: AppState::Playing, quiet_since: None, ..off.m },
        s: with_display_state(off.s, DisplayState::Playing),
        ..off
    }
}

/// Listening is over, and does not restart by itself for a while.
pub open spec fn resting(w: World, now_ms: u32) -> World {
    let off = mic_off(w);
    World {
        m: Machine {
            state: AppState::Idle,
            cooldown_until: now_ms.wrapping_add(LISTEN_COOLDOWN_MS),
            ..off.m
        },
        s: with_display_state(off.s, DisplayState::Idle),
        ..off
    }
}

/// What is being typed settles.
pub open spec fn with_settled(w: World) -> World {
    World {
        s: SessionView { display: display::settled(w.s.display), ..w.s },
        ..w
    }
}

// ---------- the parts of a pass ----------

/// Whether listening starts by itself.
pub open spec fn starts_by_itself(w: World, now_ms: u32) -> bool {
    AUTO_LISTEN_ON_BOOT && w.s.link.ws_up && now_ms > BOOT_QUIET_MS && now_ms.wrapping_sub(
        w.m.cooldown_until,
    ) < HALF_RANGE
}

/// Whether nobody has spoken for too long.
pub open spec fn timed_out(w: World, now_ms: u32) -> bool {
    let silent = if w.s.link.last_vad_ms == 0 {
        0xffffffffu32
    } else {
        now_ms.wrapping_sub(w.s.link.last_vad_ms)
    };
    silent > LISTEN_TIMEOUT_MS && now_ms.wrapping_sub(w.m.listen_started) > LISTEN_TIMEOUT_MS
}

/// Whether the microphone is read in this pass.
pub open spec fn mic_due(m: Machine, link: Link) -> bool {
    m.pass % MIC_PASSES == 0 && link.mic_on
}

/// Whether it can be told if playback is active: only where no stream is open does that take
/// a ring to look into.
pub open spec fn activity_known(a: audio_output::AudioView) -> bool {
    a.streaming || a.cap > 0
}

/// A pass waits.
pub open spec fn waits(w: World, stage: Stage, need: Need) -> (World, Need) {
    (World { m: Machine { stage, ..w.m }, ..w }, need)
}

/// The volume buttons come next.
pub open spec fn to_volume(w: World) -> (World, Need) {
    waits(w, Stage::Up, Need::Up)
}

/// While playing: once playback has been quiet for a while, listening resumes.
pub open spec fn after_playing(w: World, now_ms: u32) -> World {
    if audio_output::active(w.s.audio) {
        World { m: Machine { quiet_since: None, ..w.m }, ..w }
    } else {
        match w.m.quiet_since {
            None => World { m: Machine { quiet_since: Some(now_ms), ..w.m }, ..w },
            Some(t0) => if now_ms.wrapping_sub(t0) > RESUME_LISTEN_SILENCE_MS {
                listening(w, now_ms)
            } else {
                w
            },
        }
    }
}

/// While listening: after the talk button, the time limit.
pub open spec fn after_listen_talk(w: World, now_ms: u32) -> World {
    if timed_out(w, now_ms) {
        resting(w, now_ms)
    } else {
        w
    }
}

/// While listening: after the microphone, a reply that has begun to arrive, then the talk
/// button.
pub open spec fn after_mic(w: World, now_ms: u32) -> (World, Need) {
    let p = if w.s.audio.data.len() > 0 {
        playing(w)
    } else {
        w
    };
    if w.m.talk_edge {
        waits(p, Stage::TalkListen, Need::TalkAgain)
    } else {
        to_volume(after_listen_talk(p, now_ms))
    }
}

/// The start of a pass.
pub open spec fn pass_begun(w: World, talk: bool, now_ms: u32) -> (World, Need) {
    let b = World {
        m: Machine {
            ws_up: w.s.link.ws_up,
            talk_edge: talk && !w.m.prev_talk,
            prev_talk: talk,
            ..w.m
        },
        ..w
    };
    match w.m.state {
        AppState::Idle => if starts_by_itself(w, now_ms) {
            to_volume(listening(b, now_ms))
        } else if b.m.talk_edge {
            waits(b, Stage::TalkIdle, Need::TalkAgain)
        } else {
            to_volume(b)
        },
        AppState::Listening => if mic_due(w.m, w.s.link) {
            waits(b, Stage::Mic, Need::Mic)
        } else {
            after_mic(b, now_ms)
        },
        AppState::Playing => if b.m.talk_edge {
            waits(b, Stage::TalkPlay, Need::TalkAgain)
        } else {
            to_volume(after_playing(b, now_ms))
        },
    }
}

/// The loudest of some samples and a number.
pub open spec fn loudest(samples: Seq<i16>, so_far: i32) -> i32
    decreases samples.len(),
{
    if samples.len() == 0 {
        so_far
    } else {
        let p = loudest(samples.drop_last(), so_far);
        let a: i32 = if samples.last() < 0 {
            (-samples.last()) as i32
        } else {
            samples.last() as i32
        };
        if a > p {
            a
        } else {
            p
        }
    }
}

/// Microphone samples have come in, or none.
pub open spec fn heard(w: World, samples: Seq<i16>) -> World {
    let streak = if samples.len() == 0 {
        (w.m.empty_streak + 1) as u32
    } else {
        0
    };
    let fed = if samples.len() > 0 {
        World {
            m: Machine { empty_streak: 0, peak: loudest(samples, w.m.peak), ..w.m },
            orders: w.orders.push(OrderView::Uplink(audio_output::sample_bytes(samples))),
            ..w
        }
    } else if streak >= EMPTY_READS {
        World {
            m: Machine { empty_streak: 0, ..w.m },
            orders: w.orders.push(OrderView::RestartMic),
            ..w
        }
    } else {
        World { m: Machine { empty_streak: streak, ..w.m }, ..w }
    };
    if w.m.peak_win + 1 >= 2 {
        World {
            m: Machine { peak_win: 0, peak: 0, ..fed.m },
            orders: fed.orders.push(OrderView::Peak(fed.m.peak)),
            ..fed
        }
    } else {
        World { m: Machine { peak_win: (w.m.peak_win + 1) as u32, ..fed.m }, ..fed }
    }
}

/// The volume button has stopped bouncing: the volume changes by ten, and a tone tells.
pub open spec fn volume_stepped(w: World, up: bool, now_ms: u32) -> World {
    let v: i32 = if up {
        if w.s.audio.volume + 10 > 100 {
            100
        } else {
            (w.s.audio.volume + 10) as i32
        }
    } else {
        if w.s.audio.volume - 10 < 0 {
            0
        } else {
            (w.s.audio.volume - 10) as i32
        }
    };
    World {
        s: SessionView {
            audio: audio_output::AudioView { volume: v, ..w.s.audio },
            display: display::with_volume(w.s.display, v, now_ms),
            ..w.s
        },
        orders: w.orders.push(
            OrderView::Tone(
                if up {
                    1800
                } else {
                    900
                },
                60,
            ),
        ),
        ..w
    }
}

/// The end of a pass.
pub open spec fn pass_over(w: World) -> (World, Need) {
    let pass = w.m.pass.wrapping_add(1);
    waits(
        World { m: Machine { pass, ..w.m }, ..w },
        Stage::Ready,
        Need::Over(pass % HEARTBEAT_PASSES == 0),
    )
}

/// A button was looked at.
pub open spec fn button_seen(w: World, low: bool, now_ms: u32) -> (World, Need) {
    match w.m.stage {
        // While idle the talk button starts listening.
        Stage::TalkIdle => if low && w.m.ws_up {
            to_volume(listening(w, now_ms))
        } else {
            to_volume(w)
        },
        // While listening it ends it.
        Stage::TalkListen => if low {
            to_volume(after_listen_talk(resting(with_settled(w), now_ms), now_ms))
        } else {
            to_volume(after_listen_talk(w, now_ms))
        },
        // While playing it interrupts the reply.
        Stage::TalkPlay => if low {
            waits(with_settled(with_order(w, OrderView::Interrupt)), Stage::Release, Need::Release)
        } else {
            to_volume(after_playing(w, now_ms))
        },
        Stage::Release => if low {
            (w, Need::Release)
        } else {
            to_volume(after_playing(listening(w, now_ms), now_ms))
        },
        Stage::Up => {
            let p = World { m: Machine { prev_up: low, ..w.m }, ..w };
            if low && !w.m.prev_up {
                waits(p, Stage::UpAgain, Need::UpAgain)
            } else {
                waits(p, Stage::Down, Need::Down)
            }
        },
        Stage::UpAgain => waits(
            if low {
                volume_stepped(w, true, now_ms)
            } else {
                w
            },
            Stage::Down,
            Need::Down,
        ),
        Stage::Down => {
            let p = World { m: Machine { prev_dn: low, ..w.m }, ..w };
            if low && !w.m.prev_dn {
                waits(p, Stage::DownAgain, Need::DownAgain)
            } else {
                pass_over(p)
            }
        },
        Stage::DownAgain => pass_over(
            if low {
                volume_stepped(w, false, now_ms)
            } else {
                w
            },
        ),
        _ => (w, Need::Over(false)),
    }
}

/// The state word to show: the machine's state, unless the channel is down.
pub open spec fn shown_state(state: AppState, ws_up: bool) -> DisplayState {
    if !ws_up {
        DisplayState::Offline
    } else {
        match state {
            AppState::Idle => DisplayState::Idle,
            AppState::Listening => DisplayState::Listening,
            AppState::Playing => DisplayState::Playing,
        }
    }
}

// ---------- the machine ----------

fn push_order(orders: &mut Vec<Order>, o: Order)
    ensures
        order_views(final(orders)@) == order_views(old(orders)@).push(o@),
{
    orders.push(o);
    assert(order_views(orders@) =~= order_views(old(orders)@).push(o@));
}

impl Machine {
    pub open spec fn wf(&self) -> bool {
        &&& self.empty_streak < EMPTY_READS
        &&& self.peak_win < 2
    }

    pub fn new() -> (m: Self)
        ensures
            m.wf(),
            m == (Machine {
                state: AppState::Idle,
                cooldown_until: 0,
                listen_started: 0,
                quiet_since: None,
                ws_up: false,
                prev_talk: false,
                prev_up: false,
                prev_dn: false,
                talk_edge: false,
                peak: 0,
                empty_streak: 0,
                peak_win: 0,
                pass: 0,
                stage: Stage::Ready,
            }),
    {
        Machine {
            state: AppState::Idle,
            cooldown_until: 0,
            listen_started: 0,
            quiet_since: None,
            ws_up: false,
            prev_talk: false,
            prev_up: false,
            prev_dn: false,
            talk_edge: false,
            peak: 0,
            empty_streak: 0,
            peak_win: 0,
            pass: 0,
            stage: Stage::Ready,
        }
    }

    /// Brings the status word up to date and lets the typewriter run.
    pub fn refresh(&self, s: &mut Session, now_ms: u32)
        requires
            old(s).wf(),
        ensures
            final(s).wf(),
            final(s)@ == (SessionView {
                display: display::typed(
                    display::DisplayView {
                        state: shown_state(self.state, old(s)@.link.ws_up),
                        ..old(s)@.display
                    },
                    now_ms,
                ),
                ..old(s)@
            }),
    {
        let shown = if !s.link.ws_up {
            DisplayState::Offline
        } else {
            match self.state {
                AppState::Idle => DisplayState::Idle,
                AppState::Listening => DisplayState::Listening,
                AppState::Playing => DisplayState::Playing,
            }
        };
        if s.display.state() != shown {
            s.display.set_state(shown);
        }
        s.display.tick(now_ms);
    }

    fn enter_listening(&mut self, s: &mut Session, now_ms: u32, orders: &mut Vec<Order>)
        requires
            old(self).wf(),
            old(s).wf(),
        ensures
            final(self).wf(),
            final(s).wf(),
            (World { m: *final(self), s: final(s)@, orders: order_views(final(orders)@) })
                == listening(
                World { m: *old(self), s: old(s)@, orders: order_views(old(orders)@) },
                now_ms,
            ),
    {
        s.link.mic_on = true;
        s.tracker.mic_start();
        push_order(orders, Order::StartMic);
        self.listen_started = now_ms;
        self.state = AppState::Listening;
        s.display.set_state(DisplayState::Listening);
    }

    fn switch_mic_off(&self, s: &mut Session, orders: &mut Vec<Order>)
        requires
            old(s).wf(),
        ensures
            final(s).wf(),
            (World { m: *self, s: final(s)@, orders: order_views(final(orders)@) }) == mic_off(
                World { m: *self, s: old(s)@, orders: order_views(old(orders)@) },
            ),
    {
        s.link.mic_on = false;
        s.tracker.mic_pause();
        push_order(orders, Order::StopMic);
    }

    fn enter_resting(&mut self, s: &mut Session, now_ms: u32, orders: &mut Vec<Order>)
        requires
            old(self).wf(),
            old(s).wf(),
        ensures
            final(self).wf(),
            final(s).wf(),
            (World { m: *final(self), s: final(s)@, orders: order_views(final(orders)@) })
                == resting(
                World { m: *old(self), s: old(s)@, orders: order_views(old(orders)@) },
                now_ms,
            ),
    {
        self.switch_mic_off(s, orders);
        self.state = AppState::Idle;
        self.cooldown_until = now_ms.wrapping_add(LISTEN_COOLDOWN_MS);
        s.display.set_state(DisplayState::Idle);
    }

    fn check_timeout(&mut self, s: &mut Session, now_ms: u32, orders: &mut Vec<Order>)
        requires
            old(self).wf(),
            old(s).wf(),
        ensures
            final(self).wf(),
            final(s).wf(),
            (World { m: *final(self), s: final(s)@, orders: order_views(final(orders)@) })
                == after_listen_talk(
                World { m: *old(self), s: old(s)@, orders: order_views(old(orders)@) },
                now_ms,
            ),
    {
        let vad = s.link.last_vad_ms;
        let silent: u32 = if vad == 0 {
            0xffffffff
        } else {
            now_ms.wrapping_sub(vad)
        };
        if silent > LISTEN_TIMEOUT_MS && now_ms.wrapping_sub(self.listen_started)
            > LISTEN_TIMEOUT_MS {
            self.enter_resting(s, now_ms, orders);
        }
    }

    fn check_quiet(&mut self, s: &mut Session, now_ms: u32, orders: &mut Vec<Order>)
        requires
            old(self).wf(),
            old(s).wf(),
            activity_known(old(s)@.audio),
        ensures
            final(self).wf(),
            final(s).wf(),
            (World { m: *final(self), s: final(s)@, orders: order_views(final(orders)@) })
                == after_playing(
                World { m: *old(self), s: old(s)@, orders: order_views(old(orders)@) },
                now_ms,
            ),
    {
        if s.audio.is_active() {
            self.quiet_since = None;
            return;
        }
        match self.quiet_since {
            None => {
                self.quiet_since = Some(now_ms);
            },
            Some(t0) => {
                if now_ms.wrapping_sub(t0) > RESUME_LISTEN_SILENCE_MS {
                    self.enter_listening(s, now_ms, orders);
                }
            },
        }
    }

    fn wait(&mut self, stage: Stage, need: Need) -> (n: Need)
        requires
            old(self).wf(),
        ensures
            final(self).wf(),
            *final(self) == (Machine { stage, ..*old(self) }),
            n == need,
    {
        self.stage = stage;
        need
    }

    fn over(&mut self) -> (n: Need)
        requires
            old(self).wf(),
        ensures
            final(self).wf(),
            *final(self) == (Machine {
                stage: Stage::Ready,
                pass: old(self).pass.wrapping_add(1),
                ..*old(self)
            }),
            n == Need::Over(old(self).pass.wrapping_add(1) % HEARTBEAT_PASSES == 0),
    {
        self.pass = self.pass.wrapping_add(1);
        self.stage = Stage::Ready;
        Need::Over(self.pass % HEARTBEAT_PASSES == 0)
    }

    fn listen_on(&mut self, s: &mut Session, now_ms: u32, orders: &mut Vec<Order>) -> (n: Need)
        requires
            old(self).wf(),
            old(s).wf(),
            old(s)@.audio.cap > 0,
        ensures
            final(self).wf(),
            final(s).wf(),
            (World { m: *final(self), s: final(s)@, orders: order_views(final(orders)@) }, n)
                == after_mic(
                World { m: *old(self), s: old(s)@, orders: order_views(old(orders)@) },
                now_ms,
            ),
    {
        if s.audio.buffered() > 0 {
            self.switch_mic_off(s, orders);
            self.state = AppState::Playing;
            self.quiet_since = None;
            s.display.set_state(DisplayState::Playing);
        }
        if self.talk_edge {
            return self.wait(Stage::TalkListen, Need::TalkAgain);
        }
        self.check_timeout(s, now_ms, orders);
        self.wait(Stage::Up, Need::Up)
    }

    /// Starts a pass. `talk` tells whether the talk button is down, `now_ms` is the time of
    /// the pass and stays the same until it is over.
    pub fn begin(&mut self, s: &mut Session, talk: bool, now_ms: u32, orders: &mut Vec<Order>) -> (n:
        Need)
        requires
            old(self).wf(),
            old(s).wf(),
            old(self).state == AppState::Listening && !mic_due(*old(self), old(s)@.link)
                ==> old(s)@.audio.cap > 0,
            old(self).state == AppState::Playing && !(talk && !old(self).prev_talk)
                ==> activity_known(old(s)@.audio),
        ensures
            final(self).wf(),
            final(s).wf(),
            (World { m: *final(self), s: final(s)@, orders: order_views(final(orders)@) }, n)
                == pass_begun(
                World { m: *old(self), s: old(s)@, orders: order_views(old(orders)@) },
                talk,
                now_ms,
            ),
    {
        self.ws_up = s.link.ws_up;
        self.talk_edge = talk && !self.prev_talk;
        self.prev_talk = talk;
        match self.state {
            AppState::Idle => {
                if AUTO_LISTEN_ON_BOOT && s.link.ws_up && now_ms > BOOT_QUIET_MS
                    && now_ms.wrapping_sub(self.cooldown_until) < HALF_RANGE {
                    self.enter_listening(s, now_ms, orders);
                } else if self.talk_edge {
                    return self.wait(Stage::TalkIdle, Need::TalkAgain);
                }
                self.wait(Stage::Up, Need::Up)
            },
            AppState::Listening => {
                if self.pass % MIC_PASSES == 0 && s.link.mic_on {
                    return self.wait(Stage::Mic, Need::Mic);
                }
                self.listen_on(s, now_ms, orders)
            },
            AppState::Playing => {
                if self.talk_edge {
                    return self.wait(Stage::TalkPlay, Need::TalkAgain);
                }
                self.check_quiet(s, now_ms, orders);
                self.wait(Stage::Up, Need::Up)
            },
        }
    }

    fn take_samples(&mut self, samples: &[i16], orders: &mut Vec<Order>, Ghost(s): Ghost<SessionView>)
        requires
            old(self).wf(),
        ensures
            final(self).wf(),
            (World { m: *final(self), s, orders: order_views(final(orders)@) }) == heard(
                World { m: *old(self), s, orders: order_views(old(orders)@) },
                samples@,
            ),
    {
        if samples.len() == 0 {
            self.empty_streak = self.empty_streak + 1;
            if self.empty_streak >= EMPTY_READS {
                self.empty_streak = 0;
                push_order(orders, Order::RestartMic);
            }
        } else {
            self.empty_streak = 0;
            let chunk = mic_chunk(samples);
            push_order(orders, Order::Uplink(chunk));
            self.peak = loudest_of(samples, self.peak);
        }
        self.peak_win = self.peak_win + 1;
        if self.peak_win >= 2 {
            self.peak_win = 0;
            push_order(orders, Order::Peak(self.peak));
            self.peak = 0;
        }
    }

    /// Carries a pass on with what the microphone gave, if anything.
    pub fn mic(
        &mut self,
        s: &mut Session,
        samples: &[i16],
        now_ms: u32,
        orders: &mut Vec<Order>,
    ) -> (n: Need)
        requires
            old(self).wf(),
            old(self).stage == Stage::Mic,
            old(s).wf(),
            old(s)@.audio.cap > 0,
        ensures
            final(self).wf(),
            final(s).wf(),
            (World { m: *final(self), s: final(s)@, orders: order_views(final(orders)@) }, n)
                == after_mic(
                heard(
                    World { m: *old(self), s: old(s)@, orders: order_views(old(orders)@) },
                    samples@,
                ),
                now_ms,
            ),
    {
        self.take_samples(samples, orders, Ghost(s@));
        self.listen_on(s, now_ms, orders)
    }

    fn step_volume(&self, s: &mut Session, up: bool, now_ms: u32, orders: &mut Vec<Order>)
        requires
            old(s).wf(),
        ensures
            final(s).wf(),
            (World { m: *self, s: final(s)@, orders: order_views(final(orders)@) })
                == volume_stepped(
                World { m: *self, s: old(s)@, orders: order_views(old(orders)@) },
                up,
                now_ms,
            ),
    {
        let v0 = s.audio.get_volume();
        let v: i32 = if up {
            if v0 + 10 > 100 {
                100
            } else {
                v0 + 10
            }
        } else {
            if v0 - 10 < 0 {
                0
            } else {
                v0 - 10
            }
        };
        s.audio.set_volume(v);
        s.display.set_volume(v, now_ms);
        push_order(
            orders,
            Order::Tone(
                if up {
                    1800
                } else {
                    900
                },
                60,
            ),
        );
    }

    fn talk_idle(
        &mut self,
        s: &mut Session,
        low: bool,
        now_ms: u32,
        orders: &mut Vec<Order>,
    ) -> (n: Need)
        requires
            old(self).wf(),
            old(self).stage == Stage::TalkIdle,
            old(s).wf(),
        ensures
            final(self).wf(),
            final(s).wf(),
            (World { m: *final(self), s: final(s)@, orders: order_views(final(orders)@) }, n)
                == button_seen(
                World { m: *old(self), s: old(s)@, orders: order_views(old(orders)@) },
                low,
                now_ms,
            ),
    {
        if low && self.ws_up {
            self.enter_listening(s, now_ms, orders);
        }
        self.wait(Stage::Up, Need::Up)
    }

    fn talk_listen(
        &mut self,
        s: &mut Session,
        low: bool,
        now_ms: u32,
        orders: &mut Vec<Order>,
    ) -> (n: Need)
        requires
            old(self).wf(),
            old(self).stage == Stage::TalkListen,
            old(s).wf(),
        ensures
            final(self).wf(),
            final(s).wf(),
            (World { m: *final(self), s: final(s)@, orders: order_views(final(orders)@) }, n)
                == button_seen(
                World { m: *old(self), s: old(s)@, orders: order_views(old(orders)@) },
                low,
                now_ms,
            ),
    {
        if low {
            s.display.flush_typing();
            self.enter_resting(s, now_ms, orders);
        }
        self.check_timeout(s, now_ms, orders);
        self.wait(Stage::Up, Need::Up)
    }

    fn talk_play(
        &mut self,
        s: &mut Session,
        low: bool,
        now_ms: u32,
        orders: &mut Vec<Order>,
    ) -> (n: Need)
        requires
            old(self).wf(),
            old(self).stage == Stage::TalkPlay,
            old(s).wf(),
            !low ==> activity_known(old(s)@.audio),
        ensures
            final(self).wf(),
            final(s).wf(),
            (World { m: *final(self), s: final(s)@, orders: order_views(final(orders)@) }, n)
                == button_seen(
                World { m: *old(self), s: old(s)@, orders: order_views(old(orders)@) },
                low,
                now_ms,
            ),
    {
        if low {
            push_order(orders, Order::Interrupt);
            s.display.flush_typing();
            return self.wait(Stage::Release, Need::Release);
        }
        self.check_quiet(s, now_ms, orders);
        self.wait(Stage::Up, Need::Up)
    }

    fn talk_release(
        &mut self,
        s: &mut Session,
        low: bool,
        now_ms: u32,
        orders: &mut Vec<Order>,
    ) -> (n: Need)
        requires
            old(self).wf(),
            old(self).stage == Stage::Release,
            old(s).wf(),
            !low ==> activity_known(old(s)@.audio),
        ensures
            final(self).wf(),
            final(s).wf(),
            (World { m: *final(self), s: final(s)@, orders: order_views(final(orders)@) }, n)
                == button_seen(
                World { m: *old(self), s: old(s)@, orders: order_views(old(orders)@) },
                low,
                now_ms,
            ),
    {
        if low {
            return Need::Release;
        }
        self.enter_listening(s, now_ms, orders);
        self.check_quiet(s, now_ms, orders);
        self.wait(Stage::Up, Need::Up)
    }

    fn volume_up(
        &mut self,
        s: &mut Session,
        low: bool,
        now_ms: u32,
        orders: &mut Vec<Order>,
    ) -> (n: Need)
        requires
            old(self).wf(),
            old(self).stage == Stage::Up || old(self).stage == Stage::UpAgain,
            old(s).wf(),
        ensures
            final(self).wf(),
            final(s).wf(),
            (World { m: *final(self), s: final(s)@, orders: order_views(final(orders)@) }, n)
                == button_seen(
                World { m: *old(self), s: old(s)@, orders: order_views(old(orders)@) },
                low,
                now_ms,
            ),
    {
        if self.stage == Stage::Up {
            let edge = low && !self.prev_up;
            self.prev_up = low;
            if edge {
                return self.wait(Stage::UpAgain, Need::UpAgain);
            }
        } else if low {
            self.step_volume(s, true, now_ms, orders);
        }
        self.wait(Stage::Down, Need::Down)
    }

    fn volume_down(
        &mut self,
        s: &mut Session,
        low: bool,
        now_ms: u32,
        orders: &mut Vec<Order>,
    ) -> (n: Need)
        requires
            old(self).wf(),
            old(self).stage == Stage::Down || old(self).stage == Stage::DownAgain,
            old(s).wf(),
        ensures
            final(self).wf(),
            final(s).wf(),
            (World { m: *final(self), s: final(s)@, orders: order_views(final(orders)@) }, n)
                == button_seen(
                World { m: *old(self), s: old(s)@, orders: order_views(old(orders)@) },
                low,
                now_ms,
            ),
    {
        if self.stage == Stage::Down {
            let edge = low && !self.prev_dn;
            self.prev_dn = low;
            if edge {
                return self.wait(Stage::DownAgain, Need::DownAgain);
            }
        } else if low {
            self.step_volume(s, false, now_ms, orders);
        }
        self.over()
    }

    /// Carries a pass on with the button that was asked for: `low` tells whether it is down.
    pub fn button(&mut self, s: &mut Session, low: bool, now_ms: u32, orders: &mut Vec<Order>) -> (n:
        Need)
        requires
            old(self).wf(),
            old(self).stage != Stage::Ready,
            old(self).stage != Stage::Mic,
            old(s).wf(),
            (old(self).stage == Stage::TalkPlay || old(self).stage == Stage::Release) && !low
                ==> activity_known(old(s)@.audio),
        ensures
            final(self).wf(),
            final(s).wf(),
            (World { m: *final(self), s: final(s)@, orders: order_views(final(orders)@) }, n)
                == button_seen(
                World { m: *old(self), s: old(s)@, orders: order_views(old(orders)@) },
                low,
                now_ms,
            ),
    {
        match self.stage {
            Stage::TalkIdle => self.talk_idle(s, low, now_ms, orders),
            Stage::TalkListen => self.talk_listen(s, low, now_ms, orders),
            Stage::TalkPlay => self.talk_play(s, low, now_ms, orders),
            Stage::Release => self.talk_release(s, low, now_ms, orders),
            Stage::Up => self.volume_up(s, low, now_ms, orders),
            Stage::UpAgain => self.volume_up(s, low, now_ms, orders),
            _ => self.volume_down(s, low, now_ms, orders),
        }
    }
}

/// Samples as bytes, low byte first.
fn mic_chunk(samples: &[i16]) -> (b: Vec<u8>)
    ensures
        b@ == audio_output::sample_bytes(samples@),
{
    let mut b: Vec<u8> = Vec::new();
    let n = samples.len();
    let mut i: usize = 0;
    assert(samples@.take(0) =~= Seq::<i16>::empty());
    while i < n
        invariant
            i <= n == samples@.len(),
            b@ == audio_output::sample_bytes(samples@.take(i as int)),
        decreases n - i,
    {
        let u = samples[i] as u16;
        b.push((u % 256) as u8);
        b.push((u / 256) as u8);
        proof {
            let upto = samples@.take(i + 1);
            assert(upto.drop_last() =~= samples@.take(i as int));
            assert(upto.last() == samples@[i as int]);
        }
        i = i + 1;
    }
    assert(samples@.take(n as int) =~= samples@);
    b
}

fn loudest_of(samples: &[i16], so_far: i32) -> (p: i32)
    ensures
        p == loudest(samples@, so_far),
{
    let mut p: i32 = so_far;
    let n = samples.len();
    let mut i: usize = 0;
    assert(samples@.take(0) =~= Seq::<i16>::empty());
    while i < n
        invariant
            i <= n == samples@.len(),
            p == loudest(samples@.take(i as int), so_far),
        decreases n - i,
    {
        let x: i32 = samples[i] as i32;
        let a: i32 = if x < 0 {
            -x
        } else {
            x
        };
        if a > p {
            p = a;
        }
        proof {
            let upto = samples@.take(i + 1);
            assert(upto.drop_last() =~= samples@.take(i as int));
            assert(upto.last() == samples@[i as int]);
        }
        i = i + 1;
    }
    assert(samples@.take(n as int) =~= samples@);
    p
}

// ---------- laws of the machine ----------

/// The uplink is on while the device begins to listen, and off when it begins to play or to
/// rest, in every place that keeps it.
pub proof fn law_uplink_follows_state(w: World, now_ms: u32)
    ensures
        listening(w, now_ms).s.link.mic_on && listening(w, now_ms).s.tracker.mic_active,
        listening(w, now_ms).orders.last() == OrderView::StartMic,
        !playing(w).s.link.mic_on && !playing(w).s.tracker.mic_active,
        playing(w).orders.last() == OrderView::StopMic,
        !resting(w, now_ms).s.link.mic_on && !resting(w, now_ms).s.tracker.mic_active,
        resting(w, now_ms).orders.last() == OrderView::StopMic,
{
}

/// After listening was left it does not start by itself until the pause is over; then it
/// does, given a channel, for as long as the millisecond counter can tell.
pub proof fn law_cooldown(w: World, now_ms: u32, passed_ms: u32)
    requires
        passed_ms < 0x7fffffff,
    ensures
        ({
            let r = resting(w, now_ms);
            let later = now_ms.wrapping_add(passed_ms);
            &&& passed_ms < LISTEN_COOLDOWN_MS ==> !starts_by_itself(r, later)
            &&& passed_ms >= LISTEN_COOLDOWN_MS && r.s.link.ws_up && later > BOOT_QUIET_MS
                ==> starts_by_itself(r, later)
        }),
{
}

/// Without a channel the device does not start to listen, neither by itself nor by the
/// button.
pub proof fn law_no_listening_offline(w: World, talk: bool, low: bool, now_ms: u32)
    requires
        w.m.state == AppState::Idle,
        !w.s.link.ws_up,
    ensures
        pass_begun(w, talk, now_ms).0.m.state == AppState::Idle,
        pass_begun(w, talk, now_ms).1 == Need::TalkAgain ==> button_seen(
            pass_begun(w, talk, now_ms).0,
            low,
            now_ms,
        ).0.m.state == AppState::Idle,
{
}

/// The talk button, pressed and held while a reply plays, interrupts it and settles the
/// subtitle; once released the device listens.
pub proof fn law_talk_interrupts(w: World, now_ms: u32)
    requires
        w.m.state == AppState::Playing,
        !w.m.prev_talk,
    ensures
        ({
            let a = pass_begun(w, true, now_ms);
            let b = button_seen(a.0, true, now_ms);
            let c = button_seen(b.0, false, now_ms);
            &&& a.1 == Need::TalkAgain
            &&& b.1 == Need::Release
            &&& b.0.orders == w.orders.push(OrderView::Interrupt)
            &&& !display::typing(b.0.s.display)
            &&& c.0.m.state == AppState::Listening
            &&& c.0.s.link.mic_on
        }),
{
}

/// The talk button, pressed and held while the device listens, ends listening.
pub proof fn law_talk_ends_listening(w: World, now_ms: u32)
    requires
        w.m.stage == Stage::TalkListen,
    ensures
        button_seen(w, true, now_ms).0.m.state == AppState::Idle,
        !button_seen(w, true, now_ms).0.s.link.mic_on,
        !display::typing(button_seen(w, true, now_ms).0.s.display),
{
}

/// A reply that has begun to arrive moves the device from listening to playing, unless the
/// user or the time limit ends the conversation in the same pass.
pub proof fn law_reply_moves_to_playing(w: World, now_ms: u32)
    requires
        w.s.audio.data.len() > 0,
        !w.m.talk_edge,
        !timed_out(w, now_ms),
    ensures
        after_mic(w, now_ms).0.m.state == AppState::Playing,
        !after_mic(w, now_ms).0.s.link.mic_on,
{
}

/// Listening resumes only after playback has been quiet without a break for the time set,
/// and then it does.
pub proof fn law_resume_after_quiet(w: World, now_ms: u32)
    requires
        w.m.state == AppState::Playing,
    ensures
        audio_output::active(w.s.audio) ==> after_playing(w, now_ms).m.state == AppState::Playing
            && after_playing(w, now_ms).m.quiet_since is None,
        w.m.quiet_since is None ==> after_playing(w, now_ms).m.state == AppState::Playing,
        w.m.quiet_since matches Some(t0) ==> (after_playing(w, now_ms).m.state
            == AppState::Listening <==> !audio_output::active(w.s.audio) && now_ms.wrapping_sub(t0)
            > RESUME_LISTEN_SILENCE_MS),
{
}

/// How much of a pass is ahead.
pub open spec fn ahead(stage: Stage) -> int {
    match stage {
        Stage::Ready => 0,
        Stage::DownAgain => 1,
        Stage::Down => 2,
        Stage::UpAgain => 3,
        Stage::Up => 4,
        Stage::Release => 5,
        Stage::TalkIdle => 6,
        Stage::TalkListen => 6,
        Stage::TalkPlay => 6,
        Stage::Mic => 7,
    }
}

/// Every answer brings a pass nearer to its end, unless it is that the talk button is still
/// down where its release is awaited.
pub proof fn law_pass_comes_to_an_end(w: World, low: bool, now_ms: u32)
    requires
        w.m.stage != Stage::Ready,
        w.m.stage != Stage::Mic,
        !(w.m.stage == Stage::Release && low),
    ensures
        ahead(button_seen(w, low, now_ms).0.m.stage) < ahead(w.m.stage),
        button_seen(w, low, now_ms).1 is Over <==> button_seen(w, low, now_ms).0.m.stage
            == Stage::Ready,
{
}

/// So does what the microphone gave.
pub proof fn law_samples_carry_a_pass_on(w: World, samples: Seq<i16>, now_ms: u32)
    requires
        w.m.stage == Stage::Mic,
    ensures
        ahead(after_mic(heard(w, samples), now_ms).0.m.stage) < ahead(w.m.stage),
{
}

/// The machine after `n` reads in a row that gave nothing.
pub open spec fn after_empty_reads(w: World, n: nat) -> World
    decreases n,
{
    if n == 0 {
        w
    } else {
        heard(after_empty_reads(w, (n - 1) as nat), Seq::empty())
    }
}

/// A microphone that gives nothing is restarted after a number of reads, and not before.
pub proof fn law_dead_microphone_restarts(w: World, n: nat)
    requires
        w.m.wf(),
        w.m.empty_streak == 0,
        n <= EMPTY_READS,
        !w.orders.contains(OrderView::RestartMic),
    ensures
        after_empty_reads(w, n).orders.contains(OrderView::RestartMic) == (n == EMPTY_READS),
        after_empty_reads(w, n).m.wf(),
        n < EMPTY_READS ==> after_empty_reads(w, n).m.empty_streak == n,
    decreases n,
{
    if n > 0 {
        law_dead_microphone_restarts(w, (n - 1) as nat);
        let b = after_empty_reads(w, (n - 1) as nat);
        let a = after_empty_reads(w, n);
        assert forall|k: int| 0 <= k < b.orders.len() implies a.orders[k] == b.orders[k] by {}
        if n == EMPTY_READS {
            assert(a.orders[b.orders.len() as int] == OrderView::RestartMic);
        } else {
            if a.orders.contains(OrderView::RestartMic) {
                let k = choose|k: int|
                    0 <= k < a.orders.len() && a.orders[k] == OrderView::RestartMic;
                assert(k < b.orders.len());
                assert(b.orders.contains(b.orders[k]));
            }
        }
    }
}

/// The volume moves in steps of ten and stays a percentage; a step down undoes a step up
/// that did not reach the end.
pub proof fn law_volume_steps(w: World, now_ms: u32)
    requires
        0 <= w.s.audio.volume <= 100,
    ensures
        0 <= volume_stepped(w, true, now_ms).s.audio.volume <= 100,
        0 <= volume_stepped(w, false, now_ms).s.audio.volume <= 100,
        w.s.audio.volume <= 90 ==> volume_stepped(
            volume_stepped(w, true, now_ms),
            false,
            now_ms,
        ).s.audio.volume == w.s.audio.volume,
        w.s.audio.volume >= 10 ==> volume_stepped(
            volume_stepped(w, false, now_ms),
            true,
            now_ms,
        ).s.audio.volume == w.s.audio.volume,
{
}

/// Listening lasts. It is not ended by the time limit while no more than three minutes have
/// passed since it began, whatever was heard before, nor while no more than three minutes
/// have passed since speech was last heard; after both it is. Where it is not ended nothing
/// changes.
pub proof fn law_listening_lasts(w: World, now_ms: u32)
    ensures
        now_ms.wrapping_sub(w.m.listen_started) <= 180000 ==> after_listen_talk(w, now_ms) == w,
        w.s.link.last_vad_ms != 0 && now_ms.wrapping_sub(w.s.link.last_vad_ms) <= 180000
            ==> after_listen_talk(w, now_ms) == w,
        now_ms.wrapping_sub(w.m.listen_started) > 180000 && (w.s.link.last_vad_ms == 0
            || now_ms.wrapping_sub(w.s.link.last_vad_ms) > 180000) ==> {
            let r = after_listen_talk(w, now_ms);
            &&& r.m.state == AppState::Idle
            &&& !r.s.link.mic_on && !r.s.tracker.mic_active
            &&& r.orders == w.orders.push(OrderView::StopMic)
            &&& r.s.display.state == DisplayState::Idle
        },
{
}

/// So a pass of a listening device, without a reply, a button or a reading of the microphone,
/// ends listening exactly when both times are over.
pub proof fn law_listening_pass(w: World, talk: bool, now_ms: u32)
    requires
        w.m.state == AppState::Listening,
        w.s.audio.data.len() == 0,
        !talk || w.m.prev_talk,
        w.m.pass % 16 != 0 || !w.s.link.mic_on,
    ensures
        ({
            let (r, n) = pass_begun(w, talk, now_ms);
            let over = now_ms.wrapping_sub(w.m.listen_started) > 180000 && (w.s.link.last_vad_ms
                == 0 || now_ms.wrapping_sub(w.s.link.last_vad_ms) > 180000);
            &&& over ==> r.m.state == AppState::Idle
            &&& !over ==> r.m.state == AppState::Listening && r.s == w.s && r.orders == w.orders
                && r.m.listen_started == w.m.listen_started
            &&& n == Need::Up
        }),
{
}

/// Every time that listening begins it has its full time again: whatever was heard before,
/// and however long ago, no pass of the next three minutes ends it by the time limit.
pub proof fn law_new_listening_has_its_time(w: World, now_ms: u32, passed_ms: u32)
    requires
        passed_ms <= 180000,
    ensures
        ({
            let l = listening(w, now_ms);
            after_listen_talk(l, now_ms.wrapping_add(passed_ms)) == l
        }),
{
}

/// What happens where listening begins: the microphone is started and the uplink on, the time
/// is noted, and the screen says so. Nothing else changes.
pub proof fn law_listening_begins(w: World, now_ms: u32)
    ensures
        ({
            let l = listening(w, now_ms);
            &&& l.m.state == AppState::Listening
            &&& l.m.listen_started == now_ms
            &&& l.orders == w.orders.push(OrderView::StartMic)
            &&& l.s.link.mic_on && l.s.tracker.mic_active
            &&& l.s.display.state == DisplayState::Listening
            &&& l.m.cooldown_until == w.m.cooldown_until && l.m.stage == w.m.stage && l.m.pass
                == w.m.pass && l.m.quiet_since == w.m.quiet_since && l.m.prev_talk
                == w.m.prev_talk && l.m.talk_edge == w.m.talk_edge
            &&& l.s.audio == w.s.audio
            &&& l.s.link.ws_up == w.s.link.ws_up && l.s.link.last_vad_ms == w.s.link.last_vad_ms
            &&& l.s.display.history == w.s.display.history && l.s.display.cur == w.s.display.cur
                && l.s.display.rest == w.s.display.rest && l.s.display.volume
                == w.s.display.volume
            &&& l.s.tracker.round_finalized == w.s.tracker.round_finalized
                && l.s.tracker.round_active == w.s.tracker.round_active
                && l.s.tracker.voice_audio_on == w.s.tracker.voice_audio_on
        }),
{
}

/// What happens where a reply begins to play, and where the device begins to rest: the
/// microphone is stopped and the uplink off, and the screen says so. Nothing of the reply is
/// lost.
pub proof fn law_listening_ends(w: World, now_ms: u32)
    ensures
        ({
            let p = playing(w);
            let r = resting(w, now_ms);
            &&& p.m.state == AppState::Playing && r.m.state == AppState::Idle
            &&& p.m.quiet_since is None
            &&& r.m.cooldown_until == now_ms.wrapping_add(8000) && p.m.cooldown_until
                == w.m.cooldown_until
            &&& p.orders == w.orders.push(OrderView::StopMic) && r.orders == w.orders.push(
                OrderView::StopMic,
            )
            &&& !p.s.link.mic_on && !p.s.tracker.mic_active && !r.s.link.mic_on
                && !r.s.tracker.mic_active
            &&& p.s.display.state == DisplayState::Playing && r.s.display.state
                == DisplayState::Idle
            &&& p.s.audio == w.s.audio && r.s.audio == w.s.audio
            &&& p.s.display.history == w.s.display.history && r.s.display.history
                == w.s.display.history
            &&& p.s.display.rest == w.s.display.rest && r.s.display.rest == w.s.display.rest
            &&& p.s.link.ws_up == w.s.link.ws_up && r.s.link.ws_up == w.s.link.ws_up
            &&& p.s.tracker.voice_audio_on == w.s.tracker.voice_audio_on
                && r.s.tracker.voice_audio_on == w.s.tracker.voice_audio_on
                && p.s.tracker.round_finalized == w.s.tracker.round_finalized
        }),
{
}

/// An idle device starts to listen by itself exactly where the channel is up, five seconds
/// have passed since the start, and the pause after the last listening is over; otherwise a
/// press of the talk button is looked at again, and without one nothing changes.
pub proof fn law_idle_pass(w: World, talk: bool, now_ms: u32)
    requires
        w.m.state == AppState::Idle,
    ensures
        ({
            let (r, n) = pass_begun(w, talk, now_ms);
            let starts = w.s.link.ws_up && now_ms > 5000 && now_ms.wrapping_sub(w.m.cooldown_until)
                < 0x7fffffff;
            let pressed = talk && !w.m.prev_talk;
            &&& starts ==> r.m.state == AppState::Listening && r.m.listen_started == now_ms && n
                == Need::Up && r.s.link.mic_on && r.orders == w.orders.push(OrderView::StartMic)
            &&& !starts ==> r.m.state == AppState::Idle && r.s == w.s && r.orders == w.orders
            &&& !starts && pressed ==> n == Need::TalkAgain && r.m.stage == Stage::TalkIdle
            &&& !starts && !pressed ==> n == Need::Up
        }),
{
}

/// The talk button of an idle device: held down with the channel up it starts listening; one
/// that only bounced, or one without a channel, changes nothing.
pub proof fn law_talk_starts_listening(w: World, low: bool, now_ms: u32)
    requires
        w.m.stage == Stage::TalkIdle,
    ensures
        ({
            let (r, n) = button_seen(w, low, now_ms);
            &&& low && w.m.ws_up ==> r.m.state == AppState::Listening && r.m.listen_started
                == now_ms && r.s.link.mic_on && r.orders == w.orders.push(OrderView::StartMic)
            &&& !(low && w.m.ws_up) ==> r.m.state == w.m.state && r.s == w.s && r.orders
                == w.orders
            &&& n == Need::Up
        }),
{
}

/// A button counts where it goes down, not where it stays down. What is remembered for the
/// next pass is how it stood in this one.
pub proof fn law_press_counts_once(w: World, talk: bool, low: bool, now_ms: u32)
    ensures
        pass_begun(w, talk, now_ms).0.m.talk_edge == (talk && !w.m.prev_talk),
        pass_begun(w, talk, now_ms).0.m.prev_talk == talk,
        w.m.prev_talk ==> pass_begun(w, talk, now_ms).1 != Need::TalkAgain,
        w.m.stage == Stage::Up ==> {
            let (r, n) = button_seen(w, low, now_ms);
            &&& r.m.prev_up == low
            &&& n == Need::UpAgain <==> low && !w.m.prev_up
            &&& n == Need::UpAgain || n == Need::Down
            &&& r.s == w.s && r.orders == w.orders
        },
        w.m.stage == Stage::Down ==> {
            let (r, n) = button_seen(w, low, now_ms);
            &&& r.m.prev_dn == low
            &&& n == Need::DownAgain <==> low && !w.m.prev_dn
            &&& n == Need::DownAgain || n is Over
            &&& r.s == w.s && r.orders == w.orders
        },
{
}

/// A talk button that only bounced does nothing of its own, in whatever state: listening goes
/// on unless its time is up, a reply is not interrupted, and no text settles.
pub proof fn law_bounce_does_nothing(w: World, now_ms: u32)
    ensures
        w.m.stage == Stage::TalkListen ==> {
            let r = button_seen(w, false, now_ms).0;
            &&& now_ms.wrapping_sub(w.m.listen_started) <= 180000 ==> r.m.state == w.m.state && r.s
                == w.s && r.orders == w.orders
            &&& r.s.display.history == w.s.display.history && r.s.display.rest
                == w.s.display.rest
        },
        w.m.stage == Stage::TalkPlay ==> {
            let r = button_seen(w, false, now_ms).0;
            &&& w.s.audio.streaming || w.s.audio.data.len() > 0 ==> r.s == w.s && r.orders
                == w.orders && r.m.state == w.m.state
            &&& r.s.display.history == w.s.display.history && r.s.display.rest
                == w.s.display.rest
        },
{
}

/// The talk button, held down while the device listens: what is being typed goes to the
/// history and listening ends, for eight seconds at least.
pub proof fn law_talk_leaves_listening(w: World, now_ms: u32)
    requires
        w.m.stage == Stage::TalkListen,
        now_ms.wrapping_sub(w.m.listen_started) <= 180000,
    ensures
        ({
            let (r, n) = button_seen(w, true, now_ms);
            &&& r.m.state == AppState::Idle
            &&& r.m.cooldown_until == now_ms.wrapping_add(8000)
            &&& r.orders == w.orders.push(OrderView::StopMic)
            &&& r.s.display.history == display::settled(w.s.display).history
            &&& r.s.display.cur.len() == 0 && r.s.display.rest.len() == 0
            &&& r.s.display.state == DisplayState::Idle
            &&& !r.s.link.mic_on && !r.s.tracker.mic_active
            &&& r.s.audio == w.s.audio
            &&& n == Need::Up
        }),
{
}

/// The talk button, held down while a reply plays: the reply is interrupted and its text goes
/// to the history. While the button stays down nothing happens; when it is let go the device
/// listens, its time counted from then on.
pub proof fn law_talk_during_reply(w: World, now_ms: u32)
    ensures
        w.m.stage == Stage::TalkPlay ==> {
            let (r, n) = button_seen(w, true, now_ms);
            &&& n == Need::Release && r.m.stage == Stage::Release
            &&& r.orders == w.orders.push(OrderView::Interrupt)
            &&& r.s.display.history == display::settled(w.s.display).history
            &&& r.s.display.cur.len() == 0 && r.s.display.rest.len() == 0
            &&& r.s.audio == w.s.audio && r.s.link == w.s.link && r.m.state == w.m.state
        },
        w.m.stage == Stage::Release ==> button_seen(w, true, now_ms) == (w, Need::Release),
        w.m.stage == Stage::Release && w.m.quiet_since is None ==> {
            let (r, n) = button_seen(w, false, now_ms);
            &&& r.m.state == AppState::Listening
            &&& r.m.listen_started == now_ms
            &&& r.orders == w.orders.push(OrderView::StartMic)
            &&& r.s.link.mic_on && r.s.tracker.mic_active
            &&& r.s.display.state == DisplayState::Listening
            &&& n == Need::Up
        },
{
}

/// A reply plays on while it has sound or more is to come. The first pass without either is
/// noted; more than 400 milliseconds of such passes in a row lead back to listening, and
/// sound in between starts the count anew.
pub proof fn law_quiet_is_timed(w: World, now_ms: u32)
    requires
        w.m.state == AppState::Playing,
    ensures
        ({
            let r = after_playing(w, now_ms);
            let sounds = w.s.audio.streaming || w.s.audio.data.len() > 0;
            &&& sounds ==> r.m.quiet_since is None && r.m.state == AppState::Playing && r.s == w.s
                && r.orders == w.orders
            &&& !sounds && w.m.quiet_since is None ==> r.m.quiet_since == Some(now_ms) && r.m.state
                == AppState::Playing && r.s == w.s && r.orders == w.orders
            &&& !sounds ==> (w.m.quiet_since matches Some(t0) ==> {
                &&& now_ms.wrapping_sub(t0) <= 400 ==> r == w
                &&& now_ms.wrapping_sub(t0) > 400 ==> r.m.state == AppState::Listening
                    && r.m.listen_started == now_ms && r.s.link.mic_on && r.orders == w.orders.push(
                    OrderView::StartMic,
                )
            })
        }),
{
}

/// The pass of a playing device without a press of the talk button is that.
pub proof fn law_playing_pass(w: World, talk: bool, now_ms: u32)
    requires
        w.m.state == AppState::Playing,
    ensures
        ({
            let (r, n) = pass_begun(w, talk, now_ms);
            let pressed = talk && !w.m.prev_talk;
            let a = after_playing(w, now_ms);
            &&& pressed ==> n == Need::TalkAgain && r.m.stage == Stage::TalkPlay && r.s == w.s
                && r.orders == w.orders
            &&& !pressed ==> n == Need::Up && r.m.state == a.m.state && r.s == a.s && r.orders
                == a.orders && r.m.quiet_since == a.m.quiet_since
        }),
{
}

/// A listening device reads the microphone in every sixteenth pass, while the uplink is on.
/// Samples go up as they were read, two bytes each, and no read is lost in between.
pub proof fn law_samples_go_up(w: World, samples: Seq<i16>, talk: bool, now_ms: u32, i: int)
    requires
        w.m.wf(),
    ensures
        w.m.state == AppState::Listening ==> (pass_begun(w, talk, now_ms).1 == Need::Mic
            <==> w.m.pass % 16 == 0 && w.s.link.mic_on),
        samples.len() > 0 ==> {
            let h = heard(w, samples);
            &&& h.orders.len() > w.orders.len()
            &&& h.orders[w.orders.len() as int] matches OrderView::Uplink(b) && {
                &&& b.len() == 2 * samples.len()
                &&& 0 <= i < samples.len() ==> audio_output::sample_of(b[2 * i], b[2 * i + 1])
                    == samples[i]
            }
            &&& h.m.empty_streak == 0
        },
        samples.len() == 0 ==> forall|k: int|
            w.orders.len() <= k < heard(w, samples).orders.len() ==> !(#[trigger] heard(
                w,
                samples,
            ).orders[k] is Uplink),
        heard(w, samples).s == w.s,
        heard(w, samples).m.state == w.m.state,
        heard(w, samples).m.stage == w.m.stage,
{
    if samples.len() > 0 {
        let h = heard(w, samples);
        assert(h.orders[w.orders.len() as int] == OrderView::Uplink(
            audio_output::sample_bytes(samples),
        ));
        audio_output::law_samples_as_bytes(samples, 0);
        if 0 <= i < samples.len() {
            audio_output::law_samples_as_bytes(samples, i);
        }
    }
}

/// The loudest of some samples is as loud as each of them and as what was loudest before, and
/// it is one of these.
pub proof fn law_loudest(samples: Seq<i16>, so_far: i32)
    ensures
        loudest(samples, so_far) >= so_far,
        forall|i: int|
            0 <= i < samples.len() ==> loudest(samples, so_far) >= (#[trigger] samples[i])
                && loudest(samples, so_far) >= -samples[i],
        loudest(samples, so_far) == so_far || exists|i: int|
            0 <= i < samples.len() && (loudest(samples, so_far) == #[trigger] samples[i] || loudest(
                samples,
                so_far,
            ) == -samples[i]),
    decreases samples.len(),
{
    if samples.len() > 0 {
        let front = samples.drop_last();
        law_loudest(front, so_far);
        let p = loudest(samples, so_far);
        assert forall|i: int| 0 <= i < samples.len() implies p >= (#[trigger] samples[i]) && p
            >= -samples[i] by {
            if i < front.len() {
                assert(front[i] == samples[i]);
            }
        }
        if p == loudest(front, so_far) {
            if p != so_far {
                let i = choose|i: int|
                    0 <= i < front.len() && (loudest(front, so_far) == #[trigger] front[i]
                        || loudest(front, so_far) == -front[i]);
                assert(samples[i] == front[i]);
            }
        } else {
            assert(samples[samples.len() - 1] == samples.last());
        }
    }
}

/// The loudest sample is told after every second read, for the samples since it was last
/// told.
pub proof fn law_peak_is_told(w: World, samples: Seq<i16>)
    requires
        w.m.wf(),
    ensures
        ({
            let h = heard(w, samples);
            let told = w.m.peak_win == 1;
            &&& told ==> h.orders.last() == OrderView::Peak(loudest(samples, w.m.peak)) && h.m.peak
                == 0 && h.m.peak_win == 0
            &&& !told ==> h.m.peak == loudest(samples, w.m.peak) && h.m.peak_win == 1
            &&& !told ==> forall|k: int|
                w.orders.len() <= k < h.orders.len() ==> !(#[trigger] h.orders[k] is Peak)
        }),
{
}

/// The world after `k` steps of the volume in one direction.
pub open spec fn after_steps(w: World, up: bool, now_ms: u32, k: nat) -> World
    decreases k,
{
    if k == 0 {
        w
    } else {
        volume_stepped(after_steps(w, up, now_ms, (k - 1) as nat), up, now_ms)
    }
}

/// Each step of the volume is ten per cent, up to a hundred and down to nothing, and the
/// screen shows the volume that is played. Each step sounds, higher on the way up.
pub proof fn law_volume_presses(w: World, up: bool, now_ms: u32, k: nat)
    requires
        0 <= w.s.audio.volume <= 100,
    ensures
        ({
            let r = after_steps(w, up, now_ms, k);
            let v = w.s.audio.volume;
            &&& up ==> r.s.audio.volume == (if v + 10 * k > 100 {
                100
            } else {
                v + 10 * k
            })
            &&& !up ==> r.s.audio.volume == (if v - 10 * k < 0 {
                0
            } else {
                v - 10 * k
            })
            &&& k > 0 ==> r.s.display.volume == r.s.audio.volume
            &&& r.orders.len() == w.orders.len() + k
            &&& k > 0 ==> r.orders.last() == (if up {
                OrderView::Tone(1800, 60)
            } else {
                OrderView::Tone(900, 60)
            })
            &&& r.m == w.m && r.s.link == w.s.link && r.s.tracker == w.s.tracker
            &&& r.s.audio.data == w.s.audio.data && r.s.audio.streaming == w.s.audio.streaming
            &&& r.s.display.history == w.s.display.history
        }),
    decreases k,
{
    if k > 0 {
        law_volume_presses(w, up, now_ms, (k - 1) as nat);
    }
}

/// A volume button that is still down after the bounce makes one step in its direction; one
/// that is not makes none.
pub proof fn law_volume_button(w: World, low: bool, now_ms: u32)
    ensures
        w.m.stage == Stage::UpAgain ==> {
            let (r, n) = button_seen(w, low, now_ms);
            &&& low ==> r.s == volume_stepped(w, true, now_ms).s && r.orders == w.orders.push(
                OrderView::Tone(1800, 60),
            )
            &&& !low ==> r.s == w.s && r.orders == w.orders
            &&& n == Need::Down
        },
        w.m.stage == Stage::DownAgain ==> {
            let (r, n) = button_seen(w, low, now_ms);
            &&& low ==> r.s == volume_stepped(w, false, now_ms).s && r.orders == w.orders.push(
                OrderView::Tone(900, 60),
            )
            &&& !low ==> r.s == w.s && r.orders == w.orders
            &&& n is Over
        },
{
}

/// Passes are counted, and every thirty thousandth asks for a line of the heartbeat.
pub proof fn law_passes_are_counted(w: World)
    ensures
        ({
            let (r, n) = pass_over(w);
            &&& w.m.pass < u32::MAX ==> r.m.pass == w.m.pass + 1
            &&& n == Need::Over(r.m.pass % 30000 == 0)
            &&& r.m.stage == Stage::Ready
            &&& r.s == w.s && r.orders == w.orders && r.m.state == w.m.state
        }),
{
}

/// Whether what a pass has no business with is as it was: the channel, the time of the last
/// speech, playback but for its volume, and the round but for the uplink.
pub open spec fn left_alone(w: World, r: World) -> bool {
    &&& r.s.link.ws_up == w.s.link.ws_up
    &&& r.s.link.last_vad_ms == w.s.link.last_vad_ms
    &&& (audio_output::AudioView { volume: w.s.audio.volume, ..r.s.audio }) == w.s.audio
    &&& (round::RoundTracker { mic_active: w.s.tracker.mic_active, ..r.s.tracker }) == w.s.tracker
}

proof fn lemma_alone_changes(w: World, now_ms: u32)
    ensures
        left_alone(w, listening(w, now_ms)),
        left_alone(w, playing(w)),
        left_alone(w, resting(w, now_ms)),
        listening(w, now_ms).s.display.history == w.s.display.history,
        playing(w).s.display.history == w.s.display.history,
        resting(w, now_ms).s.display.history == w.s.display.history,
{
}

proof fn lemma_alone_chain(a: World, b: World, c: World)
    requires
        left_alone(a, b),
        left_alone(b, c),
    ensures
        left_alone(a, c),
{
}

proof fn lemma_alone_listen_talk(w: World, now_ms: u32)
    ensures
        left_alone(w, after_listen_talk(w, now_ms)),
        after_listen_talk(w, now_ms).s.display.history == w.s.display.history,
{
    lemma_alone_changes(w, now_ms);
}

proof fn lemma_alone_playing(w: World, now_ms: u32)
    ensures
        left_alone(w, after_playing(w, now_ms)),
        after_playing(w, now_ms).s.display.history == w.s.display.history,
{
    lemma_alone_changes(w, now_ms);
}

proof fn lemma_alone_mic(w: World, now_ms: u32)
    ensures
        left_alone(w, after_mic(w, now_ms).0),
        after_mic(w, now_ms).0.s.display.history == w.s.display.history,
{
    lemma_alone_changes(w, now_ms);
    let p = if w.s.audio.data.len() > 0 {
        playing(w)
    } else {
        w
    };
    let q = after_listen_talk(p, now_ms);
    lemma_alone_listen_talk(p, now_ms);
    lemma_alone_chain(w, p, q);
    let r = after_mic(w, now_ms).0;
    if w.m.talk_edge {
        assert(r.s == p.s);
    } else {
        assert(r.s == q.s);
    }
}

/// No step of a pass touches the channel, the time of the last speech, what is to be played,
/// or how far the reply has come. The history grows only where the talk button settles what
/// is being typed.
pub proof fn law_begin_leaves_alone(w: World, talk: bool, now_ms: u32)
    ensures
        left_alone(w, pass_begun(w, talk, now_ms).0),
        pass_begun(w, talk, now_ms).0.s.display.history == w.s.display.history,
{
    let b = World {
        m: Machine {
            ws_up: w.s.link.ws_up,
            talk_edge: talk && !w.m.prev_talk,
            prev_talk: talk,
            ..w.m
        },
        ..w
    };
    assert(b.s == w.s);
    lemma_alone_changes(b, now_ms);
    lemma_alone_mic(b, now_ms);
    lemma_alone_playing(b, now_ms);
    let r = pass_begun(w, talk, now_ms).0;
    assert(r.s == b.s || r.s == listening(b, now_ms).s || r.s == after_mic(b, now_ms).0.s || r.s
        == after_playing(b, now_ms).s);
}

/// So with what the microphone gave.
pub proof fn law_reading_leaves_alone(w: World, samples: Seq<i16>, now_ms: u32)
    ensures
        left_alone(w, after_mic(heard(w, samples), now_ms).0),
        after_mic(heard(w, samples), now_ms).0.s.display.history == w.s.display.history,
{
    let h = heard(w, samples);
    assert(h.s == w.s);
    lemma_alone_mic(h, now_ms);
}

/// So with the talk button while the device listens.
#[verifier::spinoff_prover]
pub proof fn law_talk_while_listening_leaves_alone(w: World, low: bool, now_ms: u32)
    requires
        w.m.stage == Stage::TalkListen,
    ensures
        left_alone(w, button_seen(w, low, now_ms).0),
{
    let r = button_seen(w, low, now_ms).0;
    let s = with_settled(w);
    let q = resting(s, now_ms);
    assert(left_alone(w, s));
    lemma_alone_changes(s, now_ms);
    lemma_alone_chain(w, s, q);
    lemma_alone_listen_talk(q, now_ms);
    lemma_alone_chain(w, q, after_listen_talk(q, now_ms));
    lemma_alone_listen_talk(w, now_ms);
    if low {
        assert(r.s == after_listen_talk(q, now_ms).s);
    } else {
        assert(r.s == after_listen_talk(w, now_ms).s);
    }
}

/// So with the talk button while a reply plays: what stops the reply is the order to do so.
#[verifier::spinoff_prover]
pub proof fn law_talk_while_playing_leaves_alone(w: World, low: bool, now_ms: u32)
    requires
        w.m.stage == Stage::TalkPlay || w.m.stage == Stage::Release,
    ensures
        left_alone(w, button_seen(w, low, now_ms).0),
{
    let r = button_seen(w, low, now_ms).0;
    let l = listening(w, now_ms);
    lemma_alone_changes(w, now_ms);
    lemma_alone_playing(w, now_ms);
    lemma_alone_playing(l, now_ms);
    lemma_alone_chain(w, l, after_playing(l, now_ms));
    if w.m.stage == Stage::Release {
        if low {
            assert(r.s == w.s);
        } else {
            assert(r.s == after_playing(l, now_ms).s);
        }
    } else if low {
        assert(r.s == with_settled(w).s);
    } else {
        assert(r.s == after_playing(w, now_ms).s);
    }
}

/// So with the talk button of an idle device and with the volume buttons.
#[verifier::spinoff_prover]
pub proof fn law_other_buttons_leave_alone(w: World, low: bool, now_ms: u32)
    requires
        w.m.stage != Stage::TalkListen && w.m.stage != Stage::TalkPlay && w.m.stage != Stage::Release,
    ensures
        left_alone(w, button_seen(w, low, now_ms).0),
        button_seen(w, low, now_ms).0.s.display.history == w.s.display.history,
{
    let r = button_seen(w, low, now_ms).0;
    lemma_alone_changes(w, now_ms);
    if w.m.stage == Stage::TalkIdle {
        assert(r.s == w.s || r.s == listening(w, now_ms).s);
    } else if w.m.stage == Stage::UpAgain {
        assert(r.s == w.s || r.s == volume_stepped(w, true, now_ms).s);
    } else if w.m.stage == Stage::DownAgain {
        assert(r.s == w.s || r.s == volume_stepped(w, false, now_ms).s);
    } else {
        assert(r.s == w.s);
    }
}

/// The screen says that the channel is down wherever it is, and otherwise what the device
/// does, each state by a word of its own.
pub proof fn law_shown_state(a: AppState, b: AppState)
    ensures
        shown_state(a, false) == DisplayState::Offline,
        shown_state(a, true) != DisplayState::Offline,
        shown_state(AppState::Listening, true) == DisplayState::Listening,
        shown_state(AppState::Playing, true) == DisplayState::Playing,
        a != b ==> shown_state(a, true) != shown_state(b, true),
{
}

/// Behind a reading of the microphone, or where none is due: a reply that has begun to arrive
/// stops the microphone and is played, and a press of the talk button is looked at again.
/// Without either, only the time limit changes anything.
pub proof fn law_listening_goes_on(w: World, now_ms: u32)
    ensures
        ({
            let (r, n) = after_mic(w, now_ms);
            let sound = w.s.audio.data.len() > 0;
            let within = now_ms.wrapping_sub(w.m.listen_started) <= 180000;
            &&& n == (if w.m.talk_edge {
                Need::TalkAgain
            } else {
                Need::Up
            })
            &&& w.m.talk_edge ==> r.m.stage == Stage::TalkListen
            &&& sound && (w.m.talk_edge || within) ==> r.m.state == AppState::Playing
                && r.m.quiet_since is None && !r.s.link.mic_on && !r.s.tracker.mic_active
                && r.orders == w.orders.push(OrderView::StopMic) && r.s.display.state
                == DisplayState::Playing
            &&& !sound && (w.m.talk_edge || within) ==> r.m.state == w.m.state && r.s == w.s
                && r.orders == w.orders
            &&& !w.m.talk_edge && now_ms.wrapping_sub(w.m.listen_started) > 180000
                && w.s.link.last_vad_ms == 0 ==> r.m.state == AppState::Idle
        }),
{
}

/// Thirty-two reads in a row that give nothing restart the microphone; a read that gives
/// something starts the count anew.
pub proof fn law_empty_reads_are_counted(w: World, samples: Seq<i16>)
    requires
        w.m.wf(),
    ensures
        ({
            let h = heard(w, samples);
            &&& samples.len() > 0 ==> h.m.empty_streak == 0
            &&& samples.len() == 0 && w.m.empty_streak < 31 ==> h.m.empty_streak
                == w.m.empty_streak + 1
            &&& samples.len() == 0 && w.m.empty_streak == 31 ==> h.m.empty_streak == 0
                && h.orders[w.orders.len() as int] == OrderView::RestartMic
        }),
{
}

} // verus!

//! Scrolling while a key is held.
//!
//! A timer ticks while a scroll is active, and each tick scrolls by what the time since the last
//! one is worth. The event loop and the pointer belong to the caller: it hands in the time, removes
//! and adds the timers that it is told to, and sends the frames that it is given.
use crate::number::{is_product, is_seconds, is_sum, Arithmetic, Number};
use vstd::prelude::*;

verus! {

/// Nanoseconds between ticks.
pub const KEYBOARD_SCROLL_INTERVAL: u128 = 8_333_333;

/// The bits of the default speed in pixels per second: `150`.
pub const DEFAULT_KEYBOARD_SCROLL_PIXELS_PER_SECOND: u64 = 0x4062_c000_0000_0000;

/// Identifies a timer of the event loop.
pub type TimerToken = u64;

/// Which way to scroll.
#[derive(Debug, Clone, Copy, PartialEq, Eq, Structural)]
pub enum KeyboardScrollDirection {
    /// Towards the start.
    Up,
    /// Towards the end.
    Down,
}

impl KeyboardScrollDirection {
    /// The amount with the sign of the direction.
    pub open spec fn signed(self, amount: Number) -> Number {
        match self {
            KeyboardScrollDirection::Up => amount.opposite(),
            KeyboardScrollDirection::Down => amount,
        }
    }

    /// The amount with the sign of the direction: negative upwards.
    pub fn amount(self, amount: Number) -> (result: Number)
        ensures
            result == self.signed(amount),
    {
        match self {
            KeyboardScrollDirection::Up => amount.neg(),
            KeyboardScrollDirection::Down => amount,
        }
    }
}

/// A scroll that goes on.
#[derive(Debug, Clone, Copy)]
pub struct ActiveKeyboardScroll {
    /// Which way.
    pub direction: KeyboardScrollDirection,
    /// Pixels per second.
    pub speed: Number,
    /// When it last scrolled, in nanoseconds.
    pub last_tick_time: u128,
}

/// The scroll that goes on, if any, and its timer.
#[derive(Debug, Clone, Copy)]
pub struct State {
    /// The scroll.
    pub active_keyboard_scroll: Option<ActiveKeyboardScroll>,
    /// The timer.
    pub keyboard_scroll_timer: Option<TimerToken>,
}

/// A continuous vertical scroll to send to the pointer.
#[derive(Debug, Clone, Copy)]
pub struct ScrollFrame {
    /// Milliseconds, cut to what fits.
    pub time: u32,
    /// How far to scroll.
    pub amount: Number,
}

/// What a tick asks for.
#[derive(Debug, Clone, Copy)]
pub enum Tick {
    /// Nothing.
    Nothing,
    /// Send the frame, and go on with the scroll after that.
    Send {
        /// The frame.
        frame: ScrollFrame,
        /// The scroll to go on with.
        scroll: ActiveKeyboardScroll,
    },
}

/// What becomes of the timer after a tick.
#[derive(Debug, Clone, Copy, PartialEq, Eq, Structural)]
pub enum TimeoutAction {
    /// It is removed.
    Drop,
    /// It fires again after this many nanoseconds.
    ToDuration(u128),
}

/// The time `b` subtracted from `a`, or zero where that is negative.
pub open spec fn elapsed(a: u128, b: u128) -> u128 {
    if a >= b {
        (a - b) as u128
    } else {
        0
    }
}

/// The milliseconds of a time, cut to 32 bits.
pub open spec fn frame_time(nanos: u128) -> int {
    (nanos / 1_000_000) as int % 0x1_0000_0000
}

/// `frame` scrolls by what the time since the last tick is worth.
pub open spec fn is_frame<A: Arithmetic>(
    a: &A,
    scroll: ActiveKeyboardScroll,
    now: u128,
    frame: ScrollFrame,
) -> bool {
    &&& frame.time == frame_time(now)
    &&& exists|secs: Number, amount: Number|
        #![trigger is_seconds(a, elapsed(now, scroll.last_tick_time), secs), is_product(a, scroll.speed, secs, amount)]
        is_seconds(a, elapsed(now, scroll.last_tick_time), secs) && is_product(
            a,
            scroll.speed,
            secs,
            amount,
        ) && frame.amount == scroll.direction.signed(amount)
}

/// The state after a scroll was started: its last tick is put one interval into the past.
pub open spec fn started(now: u128, direction: KeyboardScrollDirection, speed: Number) -> State {
    State {
        active_keyboard_scroll: Some(
            ActiveKeyboardScroll {
                direction,
                speed,
                last_tick_time: elapsed(now, KEYBOARD_SCROLL_INTERVAL),
            },
        ),
        keyboard_scroll_timer: None,
    }
}

/// The state after a scroll was stopped. Without a scroll it stays as it is.
pub open spec fn stopped(state: State) -> State {
    if state.active_keyboard_scroll is Some {
        State { active_keyboard_scroll: None, keyboard_scroll_timer: None }
    } else {
        state
    }
}

/// What starting a scroll does: the timer of the one before is to be cancelled.
pub open spec fn is_started(
    before: State,
    now: u128,
    direction: KeyboardScrollDirection,
    speed: Number,
    after: State,
    cancel: Option<TimerToken>,
) -> bool {
    &&& cancel == before.keyboard_scroll_timer
    &&& after == started(now, direction, speed)
}

/// What stopping a scroll does: its timer is to be cancelled.
pub open spec fn is_stopped(before: State, after: State, cancel: Option<TimerToken>) -> bool {
    &&& after == stopped(before)
    &&& cancel == (if before.active_keyboard_scroll is Some {
        before.keyboard_scroll_timer
    } else {
        None
    })
}

/// What becomes of the timer: it fires again after an interval while there is a scroll.
pub open spec fn timeout_of(state: State) -> TimeoutAction {
    if state.active_keyboard_scroll is Some {
        TimeoutAction::ToDuration(KEYBOARD_SCROLL_INTERVAL)
    } else {
        TimeoutAction::Drop
    }
}

/// What a tick does: nothing without a scroll, and nothing but noting the time where no time went
/// by; else it takes the scroll out and sends a frame.
pub open spec fn is_ticked<A: Arithmetic>(
    a: &A,
    before: State,
    now: u128,
    after: State,
    tick: Tick,
) -> bool {
    &&& after.keyboard_scroll_timer == before.keyboard_scroll_timer
    &&& match before.active_keyboard_scroll {
        None => tick is Nothing && after == before,
        Some(scroll) => {
            let next = ActiveKeyboardScroll { last_tick_time: now, ..scroll };
            if elapsed(now, scroll.last_tick_time) == 0 {
                tick is Nothing && after.active_keyboard_scroll == Some(next)
            } else {
                &&& after.active_keyboard_scroll is None
                &&& tick is Send
                &&& tick->scroll == next
                &&& is_frame(a, scroll, now, tick->frame)
            }
        },
    }
}

fn time_since(a: u128, b: u128) -> (delta: u128)
    ensures
        delta == elapsed(a, b),
{
    if a >= b {
        a - b
    } else {
        0
    }
}

impl State {
    /// No scroll and no timer.
    pub fn new() -> (state: State)
        ensures
            state == (State { active_keyboard_scroll: None, keyboard_scroll_timer: None }),
    {
        State { active_keyboard_scroll: None, keyboard_scroll_timer: None }
    }

    /// Starts to scroll, in place of a scroll that goes on.
    ///
    /// Returns a timer to remove. The caller adds one that fires at once and hands it to
    /// [`State::set_keyboard_scroll_timer`].
    pub fn start_keyboard_scroll(
        &mut self,
        now: u128,
        direction: KeyboardScrollDirection,
        speed: Number,
    ) -> (cancel: Option<TimerToken>)
        ensures
            is_started(*old(self), now, direction, speed, *final(self), cancel),
    {
        self.active_keyboard_scroll = Some(
            ActiveKeyboardScroll {
                direction,
                speed,
                // Prime the first immediate tick with one interval's worth of scroll.
                last_tick_time: time_since(now, KEYBOARD_SCROLL_INTERVAL),
            },
        );
        self.keyboard_scroll_timer.take()
    }

    /// Notes the timer that ticks.
    pub fn set_keyboard_scroll_timer(&mut self, token: TimerToken)
        ensures
            *final(self) == (State { keyboard_scroll_timer: Some(token), ..*old(self) }),
    {
        self.keyboard_scroll_timer = Some(token);
    }

    /// Stops to scroll. Returns a timer to remove.
    pub fn stop_keyboard_scroll(&mut self) -> (cancel: Option<TimerToken>)
        ensures
            is_stopped(*old(self), *final(self), cancel),
    {
        if self.active_keyboard_scroll.is_none() {
            return None;
        }
        let cancel = self.keyboard_scroll_timer.take();
        self.active_keyboard_scroll = None;
        cancel
    }

    /// What to do at a tick. No scroll is active from here until [`State::finish_keyboard_scroll_tick`]
    /// where a frame is sent.
    pub fn tick_keyboard_scroll<A: Arithmetic>(&mut self, a: &A, now: u128) -> (tick: Tick)
        ensures
            is_ticked(a, *old(self), now, *final(self), tick),
    {
        let mut scroll = match self.active_keyboard_scroll.take() {
            Some(scroll) => scroll,
            None => return Tick::Nothing,
        };

        let delta = time_since(now, scroll.last_tick_time);
        let ghost before = scroll;
        scroll.last_tick_time = now;

        if delta == 0 {
            self.active_keyboard_scroll = Some(scroll);
            return Tick::Nothing;
        }

        let secs = a.seconds(delta);
        let amount = scroll.direction.amount(a.product(scroll.speed, secs));
        let millis: u128 = now / 1_000_000;
        let time: u32 = (millis % 0x1_0000_0000) as u32;
        let frame = ScrollFrame { time, amount };
        assert(is_frame(a, before, now, frame));
        Tick::Send { frame, scroll }
    }

    /// Goes on with a scroll after its frame was sent.
    pub fn finish_keyboard_scroll_tick(&mut self, scroll: ActiveKeyboardScroll)
        ensures
            *final(self) == (State { active_keyboard_scroll: Some(scroll), ..*old(self) }),
    {
        self.active_keyboard_scroll = Some(scroll);
    }

    /// What becomes of the timer after a tick: it goes on while a scroll is active.
    pub fn keyboard_scroll_timeout(&self) -> (action: TimeoutAction)
        ensures
            action == timeout_of(*self),
    {
        if self.active_keyboard_scroll.is_some() {
            TimeoutAction::ToDuration(KEYBOARD_SCROLL_INTERVAL)
        } else {
            TimeoutAction::Drop
        }
    }
}

/// The first tick of a scroll is worth one interval, where the clock has run for that long.
pub proof fn first_tick_is_primed(now: u128)
    requires
        now >= KEYBOARD_SCROLL_INTERVAL,
    ensures
        elapsed(now, elapsed(now, KEYBOARD_SCROLL_INTERVAL)) == KEYBOARD_SCROLL_INTERVAL,
{
}

/// No time is lost between ticks: what two ticks in a row are worth adds up to the time that went
/// by, as long as the clock does not run backwards.
pub proof fn ticks_add_up(start: u128, first: u128, second: u128)
    requires
        start <= first <= second,
    ensures
        elapsed(first, start) + elapsed(second, first) == elapsed(second, start),
{
}

/// Scrolling up undoes scrolling down: the amounts differ in their sign alone.
pub proof fn directions_are_opposite(amount: Number)
    ensures
        KeyboardScrollDirection::Up.signed(amount) == KeyboardScrollDirection::Down.signed(
            amount,
        ).opposite(),
        KeyboardScrollDirection::Up.signed(amount).rank() == -KeyboardScrollDirection::Down.signed(
            amount,
        ).rank(),
        KeyboardScrollDirection::Up.signed(KeyboardScrollDirection::Up.signed(amount)) == amount,
{
}

/// After a stop, ticks do nothing, and stopping again does nothing.
pub proof fn stop_ends_the_scroll<A: Arithmetic>(
    a: &A,
    state: State,
    now: u128,
    after: State,
    tick: Tick,
)
    requires
        is_ticked(a, stopped(state), now, after, tick),
    ensures
        stopped(state).active_keyboard_scroll is None,
        stopped(stopped(state)) == stopped(state),
        tick is Nothing,
        after == stopped(state),
{
}

/// The first tick after a start sends a frame, where the clock has run for an interval.
pub proof fn start_scrolls_at_once<A: Arithmetic>(
    a: &A,
    start: u128,
    direction: KeyboardScrollDirection,
    speed: Number,
    now: u128,
    after: State,
    tick: Tick,
)
    requires
        KEYBOARD_SCROLL_INTERVAL <= start <= now,
        is_ticked(a, started(start, direction, speed), now, after, tick),
    ensures
        tick is Send,
        tick->scroll == (ActiveKeyboardScroll { direction, speed, last_tick_time: now }),
{
}

/// The state once the frame of a tick was sent and the scroll goes on.
pub open spec fn resumed(state: State, tick: Tick) -> State {
    match tick {
        Tick::Send { scroll, .. } => State { active_keyboard_scroll: Some(scroll), ..state },
        Tick::Nothing => state,
    }
}

/// `states` follow on one another by ticks at `times`.
pub open spec fn is_run<A: Arithmetic>(
    a: &A,
    states: Seq<State>,
    times: Seq<u128>,
    ticks: Seq<Tick>,
) -> bool {
    &&& ticks.len() == times.len()
    &&& states.len() == times.len() + 1
    &&& forall|i: int|
        0 <= i < times.len() ==> is_tick_step(
            a,
            states[i],
            times[i],
            #[trigger] ticks[i],
            states[i + 1],
        )
}

/// `after` follows on `before` by a tick.
pub open spec fn is_tick_step<A: Arithmetic>(
    a: &A,
    before: State,
    now: u128,
    tick: Tick,
    after: State,
) -> bool {
    exists|sending: State| #[trigger]
        is_ticked(a, before, now, sending, tick) && after == resumed(sending, tick)
}

/// The time of the last of the first `i` ticks, or the start.
pub open spec fn time_at(start: u128, times: Seq<u128>, i: int) -> u128 {
    if i <= 0 {
        start
    } else {
        times[i - 1]
    }
}

/// The clock does not run backwards.
pub open spec fn is_forward(start: u128, times: Seq<u128>) -> bool {
    forall|i: int| 0 <= i < times.len() ==> time_at(start, times, i) <= #[trigger] times[i]
}

/// However the ticks fall, the scroll stays active with its direction and speed and notes the time
/// of the last tick, and a tick sends a frame exactly where time went by.
pub proof fn ticks_keep_the_scroll<A: Arithmetic>(
    a: &A,
    scroll: ActiveKeyboardScroll,
    states: Seq<State>,
    times: Seq<u128>,
    ticks: Seq<Tick>,
    k: int,
)
    requires
        is_run(a, states, times, ticks),
        is_forward(scroll.last_tick_time, times),
        states[0].active_keyboard_scroll == Some(scroll),
        0 <= k <= times.len(),
    ensures
        states[k].active_keyboard_scroll == Some(
            ActiveKeyboardScroll {
                last_tick_time: time_at(scroll.last_tick_time, times, k),
                ..scroll
            },
        ),
        scroll.last_tick_time <= time_at(scroll.last_tick_time, times, k),
        k < times.len() ==> (ticks[k] is Send <==> time_at(scroll.last_tick_time, times, k)
            < times[k]),
        k < times.len() && ticks[k] is Send ==> is_frame(
            a,
            ActiveKeyboardScroll {
                last_tick_time: time_at(scroll.last_tick_time, times, k),
                ..scroll
            },
            times[k],
            ticks[k]->frame,
        ),
    decreases k,
{
    if k > 0 {
        ticks_keep_the_scroll(a, scroll, states, times, ticks, k - 1);
        assert(is_tick_step(a, states[k - 1], times[k - 1], ticks[k - 1], states[k]));
        assert(time_at(scroll.last_tick_time, times, k - 1) <= times[k - 1]);
    }
    if k < times.len() {
        assert(is_tick_step(a, states[k], times[k], ticks[k], states[k + 1]));
        assert(time_at(scroll.last_tick_time, times, k) <= times[k]);
    }
}

/// `amount` is what a span of time is worth.
pub open spec fn is_worth<A: Arithmetic>(
    a: &A,
    direction: KeyboardScrollDirection,
    speed: Number,
    nanos: u128,
    amount: Number,
) -> bool {
    if nanos == 0 {
        amount == (Number { bits: 0 })
    } else {
        exists|secs: Number, way: Number|
            #![trigger is_seconds(a, nanos, secs), is_product(a, speed, secs, way)]
            is_seconds(a, nanos, secs) && is_product(a, speed, secs, way) && amount
                == direction.signed(way)
    }
}

/// `totals` are the sums of what was scrolled by the first ticks.
pub open spec fn are_totals<A: Arithmetic>(
    a: &A,
    ticks: Seq<Tick>,
    totals: Seq<Number>,
) -> bool {
    &&& totals.len() == ticks.len() + 1
    &&& totals[0] == (Number { bits: 0 })
    &&& forall|i: int|
        0 <= i < ticks.len() ==> match #[trigger] ticks[i] {
            Tick::Send { frame, .. } => is_sum(a, totals[i], frame.amount, totals[i + 1]),
            Tick::Nothing => totals[i + 1] == totals[i],
        }
}

/// What the span up to a time is worth, and what the span from there is worth, make what both are
/// worth: nothing is lost to rounding.
pub open spec fn is_unrounded<A: Arithmetic>(
    a: &A,
    scroll: ActiveKeyboardScroll,
    middle: u128,
    end: u128,
) -> bool {
    forall|p: Number, q: Number, r: Number|
        #![trigger is_worth(a, scroll.direction, scroll.speed, elapsed(middle, scroll.last_tick_time), p), is_worth(a, scroll.direction, scroll.speed, elapsed(end, middle), q), is_sum(a, p, q, r)]
        is_worth(a, scroll.direction, scroll.speed, elapsed(middle, scroll.last_tick_time), p)
            && is_worth(a, scroll.direction, scroll.speed, elapsed(end, middle), q) && is_sum(
            a,
            p,
            q,
            r,
        ) ==> is_worth(a, scroll.direction, scroll.speed, elapsed(end, scroll.last_tick_time), r)
}

/// However the ticks fall, what they scroll adds up to what the time that went by is worth, where
/// nothing is lost to rounding.
pub proof fn scrolled_way_adds_up<A: Arithmetic>(
    a: &A,
    scroll: ActiveKeyboardScroll,
    states: Seq<State>,
    times: Seq<u128>,
    ticks: Seq<Tick>,
    totals: Seq<Number>,
    k: int,
)
    requires
        is_run(a, states, times, ticks),
        is_forward(scroll.last_tick_time, times),
        states[0].active_keyboard_scroll == Some(scroll),
        are_totals(a, ticks, totals),
        forall|i: int|
            0 <= i < times.len() ==> is_unrounded(
                a,
                scroll,
                time_at(scroll.last_tick_time, times, i),
                #[trigger] times[i],
            ),
        0 <= k <= times.len(),
    ensures
        is_worth(
            a,
            scroll.direction,
            scroll.speed,
            elapsed(time_at(scroll.last_tick_time, times, k), scroll.last_tick_time),
            totals[k],
        ),
    decreases k,
{
    if k > 0 {
        let start = scroll.last_tick_time;
        let middle = time_at(start, times, k - 1);
        let end = times[k - 1];
        scrolled_way_adds_up(a, scroll, states, times, ticks, totals, k - 1);
        ticks_keep_the_scroll(a, scroll, states, times, ticks, k - 1);
        assert(middle <= end);
        assert(is_unrounded(a, scroll, middle, end));
        if let Tick::Send { frame, .. } = ticks[k - 1] {
            assert(is_worth(a, scroll.direction, scroll.speed, elapsed(end, middle), frame.amount));
            assert(is_sum(a, totals[k - 1], frame.amount, totals[k]));
        } else {
            assert(totals[k] == totals[k - 1]);
        }
    }
}

} // verus!

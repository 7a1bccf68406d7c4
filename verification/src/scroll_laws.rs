//! What scrolling with a key comes to, without rounding.
use crate::exact::is_exact;
use crate::keyboard_scroll::{
    elapsed, is_started, is_stopped, is_ticked, started, stopped, timeout_of, ActiveKeyboardScroll,
    KeyboardScrollDirection, State, Tick, TimeoutAction, TimerToken,
};
use crate::number::{is_product, is_seconds, Arithmetic, Number};
use vstd::prelude::*;

verus! {

/// A span of nanoseconds is read as seconds without rounding, and the other sign stands for the
/// negative value.
pub open spec fn reads_time<A: Arithmetic>(a: &A, v: spec_fn(Number) -> real) -> bool {
    &&& forall|nanos: u128, r: Number| #[trigger]
        is_seconds(a, nanos, r) ==> v(r) * 1_000_000_000real == (nanos as int) as real
    &&& forall|x: Number| v(#[trigger] x.opposite()) == -v(x)
}

/// The way that a scroll at a speed comes to in nanoseconds, times their number in a second:
/// positive downwards.
pub open spec fn way(direction: KeyboardScrollDirection, speed: real, nanos: int) -> real {
    if direction == KeyboardScrollDirection::Down {
        speed * (nanos as real)
    } else {
        -(speed * (nanos as real))
    }
}

/// A tick scrolls by the speed times the time since the last one, down or up as the key says, and
/// the scroll goes on from there. Nothing is sent without a scroll, nor where no time went by.
pub proof fn tick_scrolls_by_speed_and_time<A: Arithmetic>(
    a: &A,
    v: spec_fn(Number) -> real,
    before: State,
    now: u128,
    after: State,
    tick: Tick,
)
    requires
        is_exact(a, v),
        reads_time(a, v),
        is_ticked(a, before, now, after, tick),
    ensures
        after.keyboard_scroll_timer == before.keyboard_scroll_timer,
        before.active_keyboard_scroll is None ==> tick is Nothing && after == before,
        before.active_keyboard_scroll matches Some(scroll) ==> {
            &&& tick is Send <==> scroll.last_tick_time < now
            &&& tick is Nothing ==> after.active_keyboard_scroll == Some(
                ActiveKeyboardScroll { last_tick_time: now, ..scroll },
            )
            &&& tick is Send ==> {
                &&& after.active_keyboard_scroll is None
                &&& tick->scroll == (ActiveKeyboardScroll { last_tick_time: now, ..scroll })
                &&& tick->frame.time == (now / 1_000_000) % 0x1_0000_0000
                &&& v(tick->frame.amount) * 1_000_000_000real == way(
                    scroll.direction,
                    v(scroll.speed),
                    now - scroll.last_tick_time,
                )
            }
        },
{
    if let Some(scroll) = before.active_keyboard_scroll {
        if tick is Send {
            let nanos = elapsed(now, scroll.last_tick_time);
            let (secs, amount) = choose|secs: Number, amount: Number|
                #![trigger is_seconds(a, nanos, secs), is_product(a, scroll.speed, secs, amount)]
                is_seconds(a, nanos, secs) && is_product(a, scroll.speed, secs, amount)
                    && tick->frame.amount == scroll.direction.signed(amount);
            let (p, q, r, n) = (v(scroll.speed), v(secs), v(amount), (nanos as int) as real);
            assert(r * 1_000_000_000real == p * n) by (nonlinear_arith)
                requires
                    r == p * q,
                    q * 1_000_000_000real == n,
            ;
            assert(nanos == now - scroll.last_tick_time);
            assert(v(amount.opposite()) == -v(amount));
        }
    }
}

/// A scroll starts at once: its first tick comes to one interval more than the time since the
/// start, where the clock has run for an interval. It takes the place of any other, and its timer
/// is not yet known.
pub proof fn first_tick_scrolls_one_interval_more<A: Arithmetic>(
    a: &A,
    v: spec_fn(Number) -> real,
    start: u128,
    direction: KeyboardScrollDirection,
    speed: Number,
    now: u128,
    after: State,
    tick: Tick,
)
    requires
        is_exact(a, v),
        reads_time(a, v),
        8_333_333 <= start <= now,
        is_ticked(a, started(start, direction, speed), now, after, tick),
    ensures
        started(start, direction, speed).keyboard_scroll_timer is None,
        tick is Send,
        tick->scroll == (ActiveKeyboardScroll { direction, speed, last_tick_time: now }),
        v(tick->frame.amount) * 1_000_000_000real == way(
            direction,
            v(speed),
            now - start + 8_333_333,
        ),
{
    tick_scrolls_by_speed_and_time(a, v, started(start, direction, speed), now, after, tick);
}

/// A stop ends the scroll and its timer.
pub proof fn stop_leaves_nothing(state: State)
    requires
        state.active_keyboard_scroll is Some,
    ensures
        stopped(state).active_keyboard_scroll is None,
        stopped(state).keyboard_scroll_timer is None,
{
}

/// No timer is lost: where a start or a stop forgets one it is handed out to be cancelled, and no
/// other is. A start forgets the timer that there is; a stop without a scroll changes nothing.
pub proof fn forgotten_timers_are_cancelled(
    before: State,
    now: u128,
    direction: KeyboardScrollDirection,
    speed: Number,
    after: State,
    cancel: Option<TimerToken>,
)
    requires
        is_started(before, now, direction, speed, after, cancel) || is_stopped(
            before,
            after,
            cancel,
        ),
    ensures
        before.keyboard_scroll_timer is Some && after.keyboard_scroll_timer is None ==> cancel
            == before.keyboard_scroll_timer,
        cancel is Some ==> cancel == before.keyboard_scroll_timer && after.keyboard_scroll_timer
            is None,
        is_started(before, now, direction, speed, after, cancel) ==> after.keyboard_scroll_timer
            is None && after.active_keyboard_scroll is Some,
        is_stopped(before, after, cancel) && before.active_keyboard_scroll is None ==> after == before
            && cancel is None,
        is_stopped(before, after, cancel) ==> after.active_keyboard_scroll is None,
{
}

/// The timer fires every `8_333_333` nanoseconds as long as there is a scroll, and no longer.
pub proof fn timer_fires_while_scrolling(before: State, after: State, cancel: Option<TimerToken>)
    requires
        is_stopped(before, after, cancel),
    ensures
        before.active_keyboard_scroll is Some ==> timeout_of(before) == TimeoutAction::ToDuration(
            8_333_333,
        ),
        timeout_of(after) == TimeoutAction::Drop,
{
}

} // verus!

//! Reading the clock.

use std::time::{Duration, Instant};
use vstd::prelude::*;

verus! {

/// A point in time.
#[verifier::external_type_specification]
#[verifier::external_body]
pub struct ExInstant(std::time::Instant);

/// `Instant::now` reads the clock; nothing is stated of the time.
#[verifier::external_body]
fn now() -> (r: Instant)
{
    Instant::now()
}

/// `Instant::elapsed` measures the time since `start`, here in milliseconds;
/// nothing is stated of it.
#[verifier::external_body]
fn elapsed_ms(start: &Instant) -> (r: u64)
{
    start.elapsed().as_millis() as u64
}

/// `Instant::checked_add` gives the point in time `ms` milliseconds after
/// `start`, or `None` if the clock cannot represent it; nothing is stated of
/// it.
#[verifier::external_body]
fn after_ms(start: &Instant, ms: u64) -> (r: Option<Instant>)
{
    start.checked_add(Duration::from_millis(ms))
}

/// `Instant::ge` compares two points in time; nothing is stated of the result.
#[verifier::external_body]
fn at_or_after(a: &Instant, b: &Instant) -> (r: bool)
{
    a.ge(b)
}

/// Call a function without arguments.
fn call0<R, F: Fn() -> R>(f: F) -> (r: R)
    requires
        call_requires(f, ()),
    ensures
        call_ensures(f, (), r),
{
    f()
}

/// Call a function on a point in time.
fn call1<R, F: Fn(&Instant) -> R>(f: F, a: &Instant) -> (r: R)
    requires
        call_requires(f, (a,)),
    ensures
        call_ensures(f, (a,), r),
{
    f(a)
}

/// Call a function on two points in time.
fn call2<R, F: Fn(&Instant, &Instant) -> R>(f: F, a: &Instant, b: &Instant) -> (r: R)
    requires
        call_requires(f, (a, b)),
    ensures
        call_ensures(f, (a, b), r),
{
    f(a, b)
}

/// Call a function on a point in time and a number of milliseconds.
fn call_ms<R, F: Fn(&Instant, u64) -> R>(f: F, a: &Instant, ms: u64) -> (r: R)
    requires
        call_requires(f, (a, ms)),
    ensures
        call_ensures(f, (a, ms), r),
{
    f(a, ms)
}

/// The clock was read, as `t`.
pub closed spec fn started(t: Instant) -> bool {
    call_ensures(now, (), t)
}

/// The clock was read, and whether it had reached `deadline` is `late`.
pub closed spec fn found_late(deadline: Instant, late: bool) -> bool {
    exists|t: Instant| #[trigger]
        call_ensures(now, (), t) && call_ensures(at_or_after, (&t, &deadline), late)
}

/// The time since `start` was measured as `ms` milliseconds.
pub closed spec fn measured(start: Instant, ms: u64) -> bool {
    call_ensures(elapsed_ms, (&start,), ms)
}

/// The point in time `ms` milliseconds after `start` was worked out as `end`.
pub closed spec fn worked_out(start: Instant, ms: u64, end: Option<Instant>) -> bool {
    call_ensures(after_ms, (&start, ms), end)
}

/// Read the clock.
pub(crate) fn read_clock() -> (r: Instant)
    ensures
        started(r),
{
    call0(now)
}

/// True if the clock has reached a deadline.
pub(crate) fn is_past(deadline: &Instant) -> (r: bool)
    ensures
        found_late(*deadline, r),
{
    let t = call0(now);
    call2(at_or_after, &t, deadline)
}

/// The milliseconds since a point in time.
pub(crate) fn ms_since(start: &Instant) -> (r: u64)
    ensures
        measured(*start, r),
{
    call1(elapsed_ms, start)
}

/// The point in time a number of milliseconds after another.
pub(crate) fn ms_after(start: &Instant, ms: u64) -> (r: Option<Instant>)
    ensures
        worked_out(*start, ms, r),
{
    call_ms(after_ms, start, ms)
}

} // verus!

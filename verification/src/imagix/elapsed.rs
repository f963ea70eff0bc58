//! How long a piece of work took, in words.
use std::time::Instant;
use vstd::prelude::*;
use vstd::string::StringExecFns;
use crate::text::{decimal, decimal_two, push_decimal, push_decimal_two};

verus! {

/// A point in time of the standard library's monotonic clock.
#[verifier::external_type_specification]
#[verifier::external_body]
pub struct ExInstant(Instant);

/// A span of time: whole seconds, and the nanoseconds beyond them.
#[derive(Debug, Clone, Copy, PartialEq, Eq, Structural)]
pub struct Elapsed {
    pub secs: u64,
    pub nanos: u32,
}

/// The words for a span of `secs` seconds and `nanos` nanoseconds.
///
/// Under a second the largest unit that gives a whole number is used:
/// `ns`, `us` or `ms`.  Under ten seconds the hundredths are shown, and from
/// ten seconds on the whole seconds alone.
pub open spec fn elapsed_text(secs: u64, nanos: u32) -> Seq<char> {
    if secs == 0 {
        if nanos < 1000 {
            decimal(nanos as nat) + " ns"@
        } else if nanos < 1_000_000 {
            decimal(nanos as nat / 1000) + " us"@
        } else {
            decimal(nanos as nat / 1_000_000) + " ms"@
        }
    } else if secs < 10 {
        decimal(secs as nat) + "."@ + decimal_two(nanos as nat / 10_000_000) + " s"@
    } else {
        decimal(secs as nat) + " s"@
    }
}

/// `Instant::elapsed`, read as `Duration::as_secs` and
/// `Duration::subsec_nanos`: the time since `start`.  The clock decides the
/// result; all that is claimed is that the nanoseconds stay under a second.
#[verifier::external_body]
fn elapsed_since(start: &Instant) -> (r: (u64, u32))
    ensures
        r.1 < 1_000_000_000,
{
    let d = start.elapsed();
    (d.as_secs(), d.subsec_nanos())
}

impl Elapsed {
    /// The span of `secs` seconds and `nanos` nanoseconds.
    pub fn new(secs: u64, nanos: u32) -> (r: Elapsed)
        ensures
            r.secs == secs,
            r.nanos == nanos,
    {
        Elapsed { secs, nanos }
    }

    /// The time that has passed since `start`, as the clock gives it.
    pub fn from(start: &Instant) -> (r: Elapsed)
        ensures
            r.nanos < 1_000_000_000,
    {
        let (secs, nanos) = elapsed_since(start);
        Elapsed::new(secs, nanos)
    }

    /// The span in words, such as `250 us` or `3.07 s`.
    pub fn render(&self) -> (s: String)
        ensures
            s@ == elapsed_text(self.secs, self.nanos),
    {
        let mut s = String::new();
        let n = self.nanos as u64;
        if self.secs == 0 {
            if n < 1000 {
                push_decimal(&mut s, n);
                s.append(" ns");
            } else if n < 1_000_000 {
                push_decimal(&mut s, n / 1000);
                s.append(" us");
            } else {
                push_decimal(&mut s, n / 1_000_000);
                s.append(" ms");
            }
        } else if self.secs < 10 {
            push_decimal(&mut s, self.secs);
            s.append(".");
            push_decimal_two(&mut s, n / 10_000_000);
            s.append(" s");
        } else {
            push_decimal(&mut s, self.secs);
            s.append(" s");
        }
        assert(s@ =~= elapsed_text(self.secs, self.nanos));
        s
    }
}

} // verus!

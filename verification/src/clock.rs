//! Spans of time.

use vstd::prelude::*;

verus! {

/// A span of time: whole seconds and nanoseconds below one second.
#[derive(Debug, Clone, Copy, PartialEq, Eq, Structural)]
pub struct Elapsed {
    secs: u64,
    nanos: u32,
}

/// The time that `secs` seconds and `nanos` nanoseconds make, in seconds, as
/// text with `digits` digits after the decimal point.
pub uninterp spec fn seconds_text(secs: u64, nanos: u32, digits: usize) -> Seq<char>;

/// `Duration::as_secs_f64` of a `Duration` of `secs` and `nanos`, printed with
/// the precision `digits`. The text is a function of the three numbers: the
/// conversion is one addition of two IEEE doubles, and printing with a
/// precision rounds the exact value of the double. Which text that is, in
/// particular how it is rounded, is not stated.
#[verifier::external_body]
fn print_seconds(secs: u64, nanos: u32, digits: usize) -> (r: String)
    requires
        nanos < 1_000_000_000,
        digits <= 9,
    ensures
        r@ == seconds_text(secs, nanos, digits),
{
    format!("{:.*}", digits, std::time::Duration::new(secs, nanos).as_secs_f64())
}

impl Elapsed {
    #[verifier::type_invariant]
    spec fn below_one_second(self) -> bool {
        self.nanos < 1_000_000_000
    }

    /// The whole seconds.
    pub closed spec fn spec_secs(self) -> u64 {
        self.secs
    }

    /// The nanoseconds beyond the whole seconds.
    pub closed spec fn spec_nanos(self) -> u32 {
        self.nanos
    }

    /// The span in nanoseconds.
    pub open spec fn total_nanos(self) -> int {
        self.spec_secs() * 1_000_000_000 + self.spec_nanos()
    }

    /// The span in seconds, as text with `digits` digits after the point.
    pub open spec fn text(self, digits: usize) -> Seq<char> {
        seconds_text(self.spec_secs(), self.spec_nanos(), digits)
    }

    /// `secs` seconds and `nanos` nanoseconds.
    pub fn new(secs: u64, nanos: u32) -> (r: Elapsed)
        requires
            nanos < 1_000_000_000,
        ensures
            r.spec_secs() == secs,
            r.spec_nanos() == nanos,
    {
        Elapsed { secs, nanos }
    }

    /// No time at all.
    pub closed spec fn spec_zero() -> Elapsed {
        Elapsed { secs: 0, nanos: 0 }
    }

    /// No time at all.
    pub fn zero() -> (r: Elapsed)
        ensures
            r == Elapsed::spec_zero(),
            r.spec_secs() == 0,
            r.spec_nanos() == 0,
    {
        Elapsed { secs: 0, nanos: 0 }
    }

    /// `secs` seconds.
    pub fn from_secs(secs: u64) -> (r: Elapsed)
        ensures
            r.spec_secs() == secs,
            r.spec_nanos() == 0,
    {
        Elapsed { secs, nanos: 0 }
    }

    /// `millis` milliseconds.
    pub fn from_millis(millis: u64) -> (r: Elapsed)
        ensures
            r.spec_secs() == millis / 1000,
            r.spec_nanos() == (millis % 1000) * 1_000_000,
            r.total_nanos() == millis * 1_000_000,
    {
        Elapsed { secs: millis / 1000, nanos: (millis % 1000) as u32 * 1_000_000 }
    }

    /// The whole seconds.
    pub fn secs(&self) -> (r: u64)
        ensures
            r == self.spec_secs(),
    {
        self.secs
    }

    /// The nanoseconds beyond the whole seconds.
    pub fn nanos(&self) -> (r: u32)
        ensures
            r == self.spec_nanos(),
            r < 1_000_000_000,
    {
        proof {
            use_type_invariant(self);
        }
        self.nanos
    }

    /// The time from `earlier` to this reading of the same clock; none if this
    /// reading is the earlier one.
    pub closed spec fn spec_since(self, earlier: Elapsed) -> Elapsed {
        let nanos = if self.total_nanos() >= earlier.total_nanos() {
            self.total_nanos() - earlier.total_nanos()
        } else {
            0
        };
        Elapsed { secs: (nanos / 1_000_000_000) as u64, nanos: (nanos % 1_000_000_000) as u32 }
    }

    /// The time from `earlier` to this reading of the same clock; none if this
    /// reading is the earlier one.
    pub fn since(&self, earlier: &Elapsed) -> (r: Elapsed)
        ensures
            r == self.spec_since(*earlier),
            r.spec_nanos() < 1_000_000_000,
            r.total_nanos() == if self.total_nanos() >= earlier.total_nanos() {
                self.total_nanos() - earlier.total_nanos()
            } else {
                0
            },
    {
        proof {
            use_type_invariant(self);
            use_type_invariant(earlier);
        }
        if self.secs < earlier.secs || (self.secs == earlier.secs && self.nanos <= earlier.nanos) {
            Elapsed { secs: 0, nanos: 0 }
        } else if self.nanos >= earlier.nanos {
            Elapsed { secs: self.secs - earlier.secs, nanos: self.nanos - earlier.nanos }
        } else {
            Elapsed {
                secs: self.secs - earlier.secs - 1,
                nanos: 1_000_000_000 - earlier.nanos + self.nanos,
            }
        }
    }

    /// The span in seconds, as text with `digits` digits after the point.
    pub fn seconds(&self, digits: usize) -> (r: String)
        requires
            digits <= 9,
        ensures
            r@ == self.text(digits),
    {
        proof {
            use_type_invariant(self);
        }
        print_seconds(self.secs, self.nanos, digits)
    }
}

/// A span is printed from all of it, the whole seconds and the rest, with as many
/// digits as asked for.
pub proof fn law_a_span_is_printed_whole(d: Elapsed, digits: usize)
    ensures
        d.text(digits) == seconds_text(d.spec_secs(), d.spec_nanos(), digits),
        d.total_nanos() == d.spec_secs() * 1_000_000_000 + d.spec_nanos(),
{
}

/// The time between two readings of a clock is their difference; a reading that is
/// not later than the other is no time away.
pub proof fn law_time_between_readings(now: Elapsed, earlier: Elapsed)
    requires
        now.spec_nanos() < 1_000_000_000,
        earlier.spec_nanos() < 1_000_000_000,
    ensures
        now.total_nanos() >= earlier.total_nanos() ==> now.spec_since(earlier).total_nanos()
            == now.total_nanos() - earlier.total_nanos(),
        now.total_nanos() < earlier.total_nanos() ==> now.spec_since(earlier).total_nanos() == 0,
        now.spec_since(earlier).spec_nanos() < 1_000_000_000,
{
    let nanos = now.total_nanos() - earlier.total_nanos();
    if nanos >= 0 {
        assert(nanos / 1_000_000_000 <= now.spec_secs());
        assert(0 <= nanos % 1_000_000_000 < 1_000_000_000);
    }
}

/// No time is no seconds and nothing beyond them.
pub proof fn law_no_time()
    ensures
        Elapsed::spec_zero().spec_secs() == 0,
        Elapsed::spec_zero().spec_nanos() == 0,
{
}

} // verus!

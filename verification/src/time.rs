//! Spans and points of time, in nanoseconds.

use vstd::prelude::*;

verus! {

/// A length of time.
#[derive(Debug, Clone, Copy, PartialEq, Eq, Structural)]
pub struct Span {
    pub nanos: u128,
}

/// A point of time, counted from a fixed origin.
#[derive(Debug, Clone, Copy, PartialEq, Eq, Structural)]
pub struct Moment {
    pub nanos: u128,
}

impl Span {
    pub fn from_secs(secs: u64) -> (r: Span)
        ensures
            r.nanos == secs * 1_000_000_000,
    {
        Span { nanos: secs as u128 * 1_000_000_000 }
    }

    pub fn from_millis(millis: u64) -> (r: Span)
        ensures
            r.nanos == millis * 1_000_000,
    {
        Span { nanos: millis as u128 * 1_000_000 }
    }

    /// The shorter of two spans.
    pub fn min(self, other: Span) -> (r: Span)
        ensures
            r == if self.nanos <= other.nanos {
                self
            } else {
                other
            },
    {
        if self.nanos <= other.nanos {
            self
        } else {
            other
        }
    }
}

/// The text in which `std::time::Duration`'s `Debug` shows a duration of so
/// many seconds and nanoseconds.
pub uninterp spec fn duration_text(secs: u64, nanos: u32) -> Seq<char>;

/// `std::time::Duration`'s `Debug`: the duration in the largest unit that is
/// not larger than it, with a decimal fraction where one is needed.
#[verifier::external_body]
fn duration_text_of(secs: u64, nanos: u32) -> (s: String)
    requires
        nanos < 1_000_000_000,
    ensures
        s@ == duration_text(secs, nanos),
{
    format!("{:?}", std::time::Duration::new(secs, nanos))
}

impl Span {
    /// The span in words. A span longer than a `Duration` can be is shown as
    /// the longest `Duration`.
    pub open spec fn shown(self) -> Seq<char> {
        let secs = self.nanos as int / 1_000_000_000;
        if secs <= u64::MAX {
            duration_text(secs as u64, (self.nanos as int % 1_000_000_000) as u32)
        } else {
            duration_text(u64::MAX, 999_999_999)
        }
    }

    /// The span in words.
    pub fn text(self) -> (s: String)
        ensures
            s@ == self.shown(),
    {
        let secs: u128 = self.nanos / 1_000_000_000;
        let nanos: u128 = self.nanos % 1_000_000_000;
        if secs <= 0xffff_ffff_ffff_ffff {
            duration_text_of(secs as u64, nanos as u32)
        } else {
            duration_text_of(0xffff_ffff_ffff_ffff, 999_999_999)
        }
    }
}

impl Moment {
    /// The point of time `span` later. The sum has to fit the clock's range.
    pub fn after(self, span: Span) -> (r: Moment)
        requires
            self.nanos + span.nanos <= u128::MAX,
        ensures
            r.nanos == self.nanos + span.nanos,
    {
        Moment { nanos: self.nanos + span.nanos }
    }

    /// The span from `earlier` to this point; none when it has not come.
    pub fn since(self, earlier: Moment) -> (r: Span)
        ensures
            r.nanos == if self.nanos >= earlier.nanos {
                self.nanos - earlier.nanos
            } else {
                0
            },
    {
        if self.nanos >= earlier.nanos {
            Span { nanos: self.nanos - earlier.nanos }
        } else {
            Span { nanos: 0 }
        }
    }
}

} // verus!

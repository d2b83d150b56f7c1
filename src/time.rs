//! Time of day, inclusive time windows and the per-category time field table.
use vstd::prelude::*;

use crate::text::same_text;

verus! {

/// Number of seconds in a day without leap seconds.
pub const SECONDS_PER_DAY: u32 = 86400;

/// Largest fraction of a second: values from one billion up denote a leap second.
pub const MAX_FRACTION: u32 = 1_999_999_999;

/// A wall-clock time of day: whole seconds since midnight and nanoseconds.
#[derive(Clone, Copy, Debug, PartialEq, Eq, Structural)]
pub struct TimeOfDay {
    pub secs: u32,
    pub frac: u32,
}

impl TimeOfDay {
    /// The seconds lie within one day and the fraction within a (leap) second.
    pub open spec fn wf(self) -> bool {
        self.secs < SECONDS_PER_DAY && self.frac <= MAX_FRACTION
    }

    /// Chronological order: by seconds, then by fraction.
    pub open spec fn le(self, other: TimeOfDay) -> bool {
        self.secs < other.secs || (self.secs == other.secs && self.frac <= other.frac)
    }

    /// The start of the day, 00:00:00.
    pub fn midnight() -> (r: TimeOfDay)
        ensures
            r == (TimeOfDay { secs: 0, frac: 0 }),
            r.wf(),
    {
        TimeOfDay { secs: 0, frac: 0 }
    }

    /// Builds a time from hours, minutes, seconds and nanoseconds; `None` when a
    /// component is out of range (a nanosecond count past one billion is a leap
    /// second and is accepted only at second 59).
    pub fn from_hms_nano(hour: u32, min: u32, sec: u32, nano: u32) -> (r: Option<TimeOfDay>)
        ensures
            r is Some <==> (hour < 24 && min < 60 && sec < 60 && nano <= MAX_FRACTION && (
            nano >= 1_000_000_000 ==> sec == 59)),
            r is Some ==> r->0 == (TimeOfDay {
                secs: (hour * 3600 + min * 60 + sec) as u32,
                frac: nano,
            }),
            r is Some ==> r->0.wf(),
    {
        if hour < 24 && min < 60 && sec < 60 && nano <= MAX_FRACTION && (nano < 1_000_000_000
            || sec == 59) {
            Some(TimeOfDay { secs: hour * 3600 + min * 60 + sec, frac: nano })
        } else {
            None
        }
    }

    /// Whether `self` is at or before `other`.
    pub fn is_at_or_before(&self, other: &TimeOfDay) -> (r: bool)
        ensures
            r == self.le(*other),
    {
        self.secs < other.secs || (self.secs == other.secs && self.frac <= other.frac)
    }
}

/// An inclusive window of times of day. A window whose start lies after its
/// end admits no time: there is no wrap-around past midnight.
#[derive(Clone, Copy, Debug, PartialEq, Eq, Structural)]
pub struct TimeWindow {
    pub start: TimeOfDay,
    pub end: TimeOfDay,
}

impl TimeWindow {
    pub open spec fn contains(self, t: TimeOfDay) -> bool {
        self.start.le(t) && t.le(self.end)
    }

    /// The window admits every valid time of day.
    pub open spec fn admits_every_time(self) -> bool {
        forall|t: TimeOfDay| t.wf() ==> #[trigger] self.contains(t)
    }

    /// The default window, from 00:00:00 to 23:59:59.999.
    pub open spec fn whole_day_spec() -> TimeWindow {
        TimeWindow {
            start: TimeOfDay { secs: 0, frac: 0 },
            end: TimeOfDay { secs: 86399, frac: 999_000_000 },
        }
    }

    /// The default window, from 00:00:00 to 23:59:59.999.
    pub fn whole_day() -> (r: TimeWindow)
        ensures
            r == Self::whole_day_spec(),
    {
        TimeWindow {
            start: TimeOfDay { secs: 0, frac: 0 },
            end: TimeOfDay { secs: 86399, frac: 999_000_000 },
        }
    }

    /// The window from midnight to the last nanosecond of a leap second at
    /// the end of the day: every valid time of day falls inside it.
    pub fn unbounded() -> (r: TimeWindow)
        ensures
            r.admits_every_time(),
            r.start == (TimeOfDay { secs: 0, frac: 0 }),
    {
        TimeWindow {
            start: TimeOfDay { secs: 0, frac: 0 },
            end: TimeOfDay { secs: SECONDS_PER_DAY - 1, frac: MAX_FRACTION },
        }
    }

    /// A window whose start lies after its end admits no time at all.
    pub proof fn lemma_inverted_window_is_empty(self, t: TimeOfDay)
        requires
            !self.start.le(self.end),
        ensures
            !self.contains(t),
    {
    }

    /// The time gate: `start <= t <= end`.
    pub fn admits(&self, t: &TimeOfDay) -> (r: bool)
        ensures
            r == self.contains(*t),
    {
        self.start.is_at_or_before(t) && t.is_at_or_before(&self.end)
    }
}

/// The zero-based data field holding the timestamp of each time-bearing
/// sentence category; `None` for a category that carries no time.
pub open spec fn time_field_of(category: Seq<char>) -> Option<nat> {
    if category == "BWC"@ || category == "BWR"@ || category == "GBS"@ || category == "GGA"@
        || category == "GNS"@ || category == "GRS"@ || category == "GST"@ || category == "GXA"@
        || category == "RMC"@ || category == "TRF"@ || category == "ZDA"@ || category == "ZFO"@
        || category == "ZTG"@ {
        Some(0)
    } else if category == "RLM"@ {
        Some(1)
    } else if category == "GLL"@ {
        Some(4)
    } else if category == "TLL"@ {
        Some(6)
    } else if category == "TTM"@ {
        Some(13)
    } else {
        None
    }
}

/// Looks a category up in the time field table.
pub fn time_field_index(category: &str) -> (r: Option<usize>)
    ensures
        r is Some <==> time_field_of(category@) is Some,
        r is Some ==> r->0 == time_field_of(category@)->0,
{
    if same_text(category, "BWC") || same_text(category, "BWR") || same_text(category, "GBS")
        || same_text(category, "GGA") || same_text(category, "GNS") || same_text(category, "GRS")
        || same_text(category, "GST") || same_text(category, "GXA") || same_text(category, "RMC")
        || same_text(category, "TRF") || same_text(category, "ZDA") || same_text(category, "ZFO")
        || same_text(category, "ZTG") {
        Some(0)
    } else if same_text(category, "RLM") {
        Some(1)
    } else if same_text(category, "GLL") {
        Some(4)
    } else if same_text(category, "TLL") {
        Some(6)
    } else if same_text(category, "TTM") {
        Some(13)
    } else {
        None
    }
}

} // verus!

//! Points in time, as revision histories show and store them.
use crate::outside;
use vstd::prelude::*;

verus! {

/// The form that a table shows.
pub const TIMESTAMP_HUMAN_FMT: &'static str = "%Y-%m-%d %H:%M UTC";

/// The form that a marker stores.
pub const TIMESTAMP_ISO_FMT: &'static str = "%Y-%m-%dT%H:%M:%SZ";

/// A point in time in UTC: seconds since 1970, and the nanoseconds in that
/// second. In a leap second, which only the last second of a minute can be,
/// the nanoseconds run on past a thousand million.
#[derive(Debug, Clone, Copy, PartialEq, Eq, Structural)]
pub struct Timestamp {
    secs: i64,
    nanos: u32,
}

/// Whether there is such a point in time between the first and the last year
/// that the calendar covers.
pub open spec fn in_range(secs: i64, nanos: u32) -> bool {
    &&& -8334601228800 <= secs <= 8210266876799
    &&& nanos < 2000000000
    &&& nanos >= 1000000000 ==> secs % 60 == 59
}

/// Whether the year has at most four digits and is not before the year zero.
pub open spec fn four_digit_year(secs: i64) -> bool {
    -62167219200 <= secs <= 253402300799
}

impl View for Timestamp {
    type V = (i64, u32);

    closed spec fn view(&self) -> (i64, u32) {
        (self.secs, self.nanos)
    }
}

/// The contents of an optional point in time.
pub open spec fn opt_time(o: Option<Timestamp>) -> Option<(i64, u32)> {
    match o {
        Some(t) => Some(t@),
        None => None,
    }
}

impl Timestamp {
    #[verifier::type_invariant]
    spec fn valid(self) -> bool {
        in_range(self.secs, self.nanos)
    }

    /// The point in time, where there is one.
    pub fn new(secs: i64, nanos: u32) -> (r: Option<Timestamp>)
        ensures
            match r {
                Some(t) => in_range(secs, nanos) && t@ == (secs, nanos),
                None => !in_range(secs, nanos),
            },
    {
        if secs < -8334601228800 || secs > 8210266876799 || nanos >= 2000000000 {
            return None;
        }
        if nanos >= 1000000000 {
            let mut s: i64 = secs % 60;
            if s < 0 {
                s = s + 60;
            }
            if s != 59 {
                return None;
            }
        }
        Some(Timestamp { secs, nanos })
    }

    /// The point in time in the form `fmt`.
    fn render(self, fmt: &str) -> (r: String)
        requires
            fmt@ == TIMESTAMP_HUMAN_FMT@ || fmt@ == TIMESTAMP_ISO_FMT@,
        ensures
            r@ == outside::time_text(self@, fmt@),
            outside::plain_time(r@),
    {
        proof {
            use_type_invariant(self);
        }
        outside::format_time(self.secs, self.nanos, fmt)
    }

    /// The form that a table shows.
    pub fn human(self) -> (r: String)
        ensures
            r@ == outside::time_text(self@, TIMESTAMP_HUMAN_FMT@),
            outside::plain_time(r@),
    {
        self.render(TIMESTAMP_HUMAN_FMT)
    }

    /// The form that a marker stores.
    pub fn iso(self) -> (r: String)
        ensures
            r@ == outside::time_text(self@, TIMESTAMP_ISO_FMT@),
            outside::plain_time(r@),
    {
        self.render(TIMESTAMP_ISO_FMT)
    }

    /// The point in time that a text in the form `fmt` writes.
    fn read(s: &str, fmt: &str) -> (r: Option<Timestamp>)
        ensures
            opt_time(r) == outside::time_value(s@, fmt@),
            fmt@ == TIMESTAMP_ISO_FMT@ ==> forall|secs: i64|
                four_digit_year(secs) && s@ == #[trigger] outside::time_text((secs, 0u32), fmt@)
                    ==> opt_time(r) == Some((secs, 0u32)),
    {
        match outside::parse_time(s, fmt) {
            Some((secs, nanos)) => Timestamp::new(secs, nanos),
            None => None,
        }
    }

    /// The point in time that a table shows.
    pub fn parse_human(s: &str) -> (r: Option<Timestamp>)
        ensures
            opt_time(r) == outside::time_value(s@, TIMESTAMP_HUMAN_FMT@),
    {
        Timestamp::read(s, TIMESTAMP_HUMAN_FMT)
    }

    /// The point in time that a marker stores. What was stored is read back,
    /// to the second.
    pub fn parse_iso(s: &str) -> (r: Option<Timestamp>)
        ensures
            opt_time(r) == outside::time_value(s@, TIMESTAMP_ISO_FMT@),
            forall|secs: i64|
                four_digit_year(secs) && s@ == #[trigger] outside::time_text(
                    (secs, 0u32),
                    TIMESTAMP_ISO_FMT@,
                ) ==> opt_time(r) == Some((secs, 0u32)),
    {
        Timestamp::read(s, TIMESTAMP_ISO_FMT)
    }
}

/// A time is a number of seconds that a calendar can hold, with less than a second
/// more; a leap second ends its minute.
pub proof fn law_time_is_what_was_given(secs: i64, nanos: u32, r: Option<Timestamp>)
    requires
        call_ensures(Timestamp::new, (secs, nanos), r),
    ensures
        r is Some ==> r->0@ == (secs, nanos),
        nanos < 1000000000 ==> (r is Some <==> -8334601228800 <= secs <= 8210266876799),
        nanos >= 2000000000 ==> r is None,
        1000000000 <= nanos < 2000000000 ==> (r is Some <==> -8334601228800 <= secs
            <= 8210266876799 && secs % 60 == 59),
{
}

} // verus!

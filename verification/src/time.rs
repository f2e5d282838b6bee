//! Points in time.
use vstd::prelude::*;

verus! {

/// The first second that a point in time can have.
pub const FIRST_SECOND: i64 = -8_334_601_228_800;

/// The last second that a point in time can have.
pub const LAST_SECOND: i64 = 8_210_266_876_799;

/// The last second that a certificate's validity can speak of: the end of the year 9999.
pub const LAST_DER_SECOND: i64 = 253_402_300_799;

/// A point in time, in UTC: seconds since 1970 and nanoseconds.
///
/// A leap second is told by a billion nanoseconds or more in the last second of a minute.
#[derive(Debug, Clone, Copy)]
pub struct Time {
    secs: i64,
    nanos: u32,
}

/// The mathematical counterpart of [`Time`].
pub struct TimeView {
    pub secs: int,
    pub nanos: int,
}

/// Whether seconds and nanoseconds make up a point in time.
pub open spec fn is_time(secs: int, nanos: int) -> bool {
    &&& FIRST_SECOND <= secs <= LAST_SECOND
    &&& 0 <= nanos < 2_000_000_000
    &&& nanos >= 1_000_000_000 ==> secs % 60 == 59
}

impl TimeView {
    /// Whether this point in time is before another.
    pub open spec fn before(self, other: TimeView) -> bool {
        self.secs < other.secs || (self.secs == other.secs && self.nanos < other.nanos)
    }

    /// The earlier of two points in time.
    pub open spec fn earlier(self, other: TimeView) -> TimeView {
        if other.before(self) {
            other
        } else {
            self
        }
    }

    /// The seconds, if a certificate's validity can speak of them.
    pub open spec fn der_seconds(self) -> Option<int> {
        if 0 <= self.secs <= LAST_DER_SECOND {
            Some(self.secs)
        } else {
            None
        }
    }
}

impl View for Time {
    type V = TimeView;

    closed spec fn view(&self) -> TimeView {
        TimeView { secs: self.secs as int, nanos: self.nanos as int }
    }
}

/// An optional point in time, by content.
pub open spec fn opt_time(time: Option<Time>) -> Option<TimeView> {
    match time {
        Some(t) => Some(t@),
        None => None,
    }
}

/// Seconds as a number.
pub open spec fn opt_secs(secs: Option<u64>) -> Option<int> {
    match secs {
        Some(s) => Some(s as int),
        None => None,
    }
}

impl Time {
    #[verifier::type_invariant]
    spec fn is_valid(self) -> bool {
        is_time(self.secs as int, self.nanos as int)
    }

    /// Makes a point in time.
    pub fn new(secs: i64, nanos: u32) -> (r: Option<Time>)
        ensures
            match r {
                Some(t) => is_time(secs as int, nanos as int) && t@ == (TimeView {
                    secs: secs as int,
                    nanos: nanos as int,
                }),
                None => !is_time(secs as int, nanos as int),
            },
    {
        if secs < FIRST_SECOND || secs > LAST_SECOND || nanos >= 2_000_000_000 {
            return None;
        }
        if nanos >= 1_000_000_000 {
            // Time starts with a full minute.
            let since_first: u64 = (secs - FIRST_SECOND) as u64;
            if since_first % 60 != 59 {
                return None;
            }
        }
        Some(Time { secs, nanos })
    }

    /// Seconds since 1970, and nanoseconds.
    pub fn parts(&self) -> (r: (i64, u32))
        ensures
            r.0 == self@.secs,
            r.1 == self@.nanos,
            is_time(r.0 as int, r.1 as int),
    {
        proof {
            use_type_invariant(self);
        }
        (self.secs, self.nanos)
    }

    /// Whether this point in time is before another.
    pub fn before(&self, other: &Time) -> (r: bool)
        ensures
            r == self@.before(other@),
    {
        self.secs < other.secs || (self.secs == other.secs && self.nanos < other.nanos)
    }

    /// The earlier of two points in time.
    pub fn earlier(self, other: Time) -> (r: Time)
        ensures
            r@ == self@.earlier(other@),
    {
        if other.before(&self) {
            other
        } else {
            self
        }
    }

    /// The seconds, if a certificate's validity can speak of them.
    pub fn der_seconds(&self) -> (r: Option<u64>)
        ensures
            match r {
                Some(s) => self@.der_seconds() == Some(s as int),
                None => self@.der_seconds() is None,
            },
    {
        if 0 <= self.secs && self.secs <= LAST_DER_SECOND {
            Some(self.secs as u64)
        } else {
            None
        }
    }

    /// The time of day that the machine's clock shows.
    pub fn now() -> (r: Time)
        ensures
            is_time(r@.secs, r@.nanos),
    {
        let (secs, nanos) = clock();
        Time { secs, nanos }
    }

    /// The point in time for people.
    pub fn text(&self) -> (r: String)
        ensures
            r@ == time_text(self@.secs, self@.nanos),
    {
        proof {
            use_type_invariant(self);
        }
        display(self.secs, self.nanos)
    }
}

/// `chrono::Utc::now`. Nothing is said of what the clock shows, but that it is a point in time.
#[verifier::external_body]
fn clock() -> (r: (i64, u32))
    ensures
        is_time(r.0 as int, r.1 as int),
{
    let now = chrono::Utc::now();
    (now.timestamp(), now.timestamp_subsec_nanos())
}

/// A point in time for people.
pub uninterp spec fn time_text(secs: int, nanos: int) -> Seq<char>;

/// `chrono::DateTime<Utc>` as text.
#[verifier::external_body]
fn display(secs: i64, nanos: u32) -> (r: String)
    requires
        is_time(secs as int, nanos as int),
    ensures
        r@ == time_text(secs as int, nanos as int),
{
    chrono::DateTime::from_timestamp(secs, nanos).map(|t| t.to_string()).unwrap_or_default()
}

/// A point in time keeps the seconds and nanoseconds that it was made from.
pub proof fn time_keeps_its_parts(secs: i64, nanos: u32, made: Option<Time>, parts: (i64, u32))
    requires
        call_ensures(Time::new, (secs, nanos), made),
        made matches Some(t) ==> call_ensures(Time::parts, (&t,), parts),
    ensures
        made is Some <==> -8_334_601_228_800 <= secs <= 8_210_266_876_799 && (nanos < 1_000_000_000
            || (nanos < 2_000_000_000 && secs % 60 == 59)),
        made is Some ==> parts == (secs, nanos),
{
}

/// Points in time are ordered: of two, one is before the other or they are the same, never both;
/// what is before something that is before a third is before the third; and a second earlier is
/// before.
pub proof fn times_are_ordered(a: TimeView, b: TimeView, c: TimeView)
    ensures
        a.before(b) || b.before(a) || a == b,
        !(a.before(b) && b.before(a)),
        !a.before(a),
        a.before(b) && b.before(c) ==> a.before(c),
        a.secs < b.secs ==> a.before(b),
        a.secs == b.secs && a.nanos < b.nanos ==> a.before(b),
{
}

/// The earlier of two points in time is one of them, the other is not before it, and it is the same
/// whichever comes first.
pub proof fn earlier_is_the_first_of_two(a: TimeView, b: TimeView)
    ensures
        a.earlier(b) == a || a.earlier(b) == b,
        !a.before(a.earlier(b)),
        !b.before(a.earlier(b)),
        a.earlier(b) == b.earlier(a),
{
    times_are_ordered(a, b, a);
}

/// The seconds that certificates can speak of are the seconds themselves, from 1970 to the end of
/// the year 9999.
pub proof fn der_seconds_are_the_seconds(t: TimeView)
    ensures
        t.der_seconds() is Some <==> 0 <= t.secs <= 253_402_300_799,
        t.der_seconds() matches Some(s) ==> s == t.secs,
{
}

} // verus!

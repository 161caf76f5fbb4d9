//! A broken-down point in time, as a bound parameter carries it, and its
//! RFC 3339 text.

use vstd::prelude::*;

verus! {

/// The RFC 3339 text that `time::Tm::rfc3339` renders for a broken-down
/// time with these fields: years since 1900, months since January, day
/// of the month, hour, minute, second, and seconds east of UTC.
pub uninterp spec fn rfc3339_text(
    year: int,
    mon: int,
    mday: int,
    hour: int,
    min: int,
    sec: int,
    utcoff: int,
) -> Seq<char>;

/// Whether the fields can be rendered: the renderer adds 1900 to the
/// year and 1 to the month, and negates a negative offset, in 32 bits.
pub open spec fn renderable(year: int, mon: int, utcoff: int) -> bool {
    year <= i32::MAX - 1900 && mon < i32::MAX && utcoff > i32::MIN
}

/// `time::Tm::rfc3339`, rendered with `to_string`, on a `Tm` with the
/// given fields. The text depends on these seven fields alone; the
/// remaining fields of the `Tm` are not read and are set to zero. The
/// bounds keep the renderer's 32-bit arithmetic from overflowing.
#[verifier::external_body]
pub(crate) fn rfc3339_string(
    year: i32,
    mon: i32,
    mday: i32,
    hour: i32,
    min: i32,
    sec: i32,
    utcoff: i32,
) -> (s: String)
    requires
        renderable(year as int, mon as int, utcoff as int),
    ensures
        s@ == rfc3339_text(
            year as int,
            mon as int,
            mday as int,
            hour as int,
            min as int,
            sec as int,
            utcoff as int,
        ),
{
    let tm = time::Tm {
        tm_sec: sec,
        tm_min: min,
        tm_hour: hour,
        tm_mday: mday,
        tm_mon: mon,
        tm_year: year,
        tm_wday: 0,
        tm_yday: 0,
        tm_isdst: 0,
        tm_utcoff: utcoff,
        tm_nsec: 0,
    };
    tm.rfc3339().to_string()
}

/// A broken-down point in time.
///
/// The fields follow the C convention: `year` counts from 1900, `mon`
/// from January as 0, and `utcoff` is the offset from UTC in seconds,
/// positive to the east.
#[derive(Clone, Copy, Debug, PartialEq, Eq)]
pub struct Timestamp {
    year: i32,
    mon: i32,
    mday: i32,
    hour: i32,
    min: i32,
    sec: i32,
    utcoff: i32,
}

impl Timestamp {
    #[verifier::type_invariant]
    spec fn can_render(self) -> bool {
        renderable(self.year as int, self.mon as int, self.utcoff as int)
    }

    /// The fields in the order year, month, day, hour, minute, second,
    /// offset.
    pub closed spec fn fields(&self) -> (int, int, int, int, int, int, int) {
        (
            self.year as int,
            self.mon as int,
            self.mday as int,
            self.hour as int,
            self.min as int,
            self.sec as int,
            self.utcoff as int,
        )
    }

    /// The RFC 3339 text of this point in time.
    pub open spec fn text(&self) -> Seq<char> {
        rfc3339_text(
            self.fields().0,
            self.fields().1,
            self.fields().2,
            self.fields().3,
            self.fields().4,
            self.fields().5,
            self.fields().6,
        )
    }

    /// A point in time with the given fields, or `None` where they cannot
    /// be rendered.
    pub fn new(year: i32, mon: i32, mday: i32, hour: i32, min: i32, sec: i32, utcoff: i32) -> (r:
        Option<Timestamp>)
        ensures
            r is Some <==> renderable(year as int, mon as int, utcoff as int),
            r matches Some(t) ==> t.fields() == (
                year as int,
                mon as int,
                mday as int,
                hour as int,
                min as int,
                sec as int,
                utcoff as int,
            ),
    {
        if year <= i32::MAX - 1900 && mon < i32::MAX && utcoff > i32::MIN {
            Some(Timestamp { year, mon, mday, hour, min, sec, utcoff })
        } else {
            None
        }
    }

    /// Years since 1900.
    pub fn year(&self) -> (n: i32)
        ensures
            n == self.fields().0,
    {
        self.year
    }

    /// Months since January.
    pub fn mon(&self) -> (n: i32)
        ensures
            n == self.fields().1,
    {
        self.mon
    }

    /// Day of the month.
    pub fn mday(&self) -> (n: i32)
        ensures
            n == self.fields().2,
    {
        self.mday
    }

    /// Hours after midnight.
    pub fn hour(&self) -> (n: i32)
        ensures
            n == self.fields().3,
    {
        self.hour
    }

    /// Minutes after the hour.
    pub fn min(&self) -> (n: i32)
        ensures
            n == self.fields().4,
    {
        self.min
    }

    /// Seconds after the minute.
    pub fn sec(&self) -> (n: i32)
        ensures
            n == self.fields().5,
    {
        self.sec
    }

    /// Seconds east of UTC.
    pub fn utcoff(&self) -> (n: i32)
        ensures
            n == self.fields().6,
    {
        self.utcoff
    }

    /// Renders this point in time as RFC 3339 text.
    pub fn to_rfc3339(&self) -> (s: String)
        ensures
            s@ == self.text(),
    {
        proof {
            use_type_invariant(self);
        }
        rfc3339_string(self.year, self.mon, self.mday, self.hour, self.min, self.sec, self.utcoff)
    }
}

} // verus!

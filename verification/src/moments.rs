//! Moments, as they are written for people and for other programs.

use chrono::{DateTime, Local, TimeZone, Utc};
use vstd::prelude::*;
use vstd::string::*;

verus! {

/// The first millisecond that has a date: the year 262144 before the common era begins.
pub const FIRST_MILLIS: i64 = -8_334_601_228_800_000;

/// The last millisecond that has a date: the year 262142 ends.
pub const LAST_MILLIS: i64 = 8_210_266_876_799_999;

/// Whether there is a date for so many milliseconds since the epoch.
pub open spec fn has_date(millis: i64) -> bool {
    FIRST_MILLIS <= millis <= LAST_MILLIS
}

/// What `chrono::DateTime::<Utc>::to_rfc3339` writes for so many milliseconds since the epoch.
pub uninterp spec fn rfc3339_text(millis: i64) -> Seq<char>;

/// Writes the moment that `chrono::DateTime::from_timestamp_millis` finds with
/// `chrono::DateTime::to_rfc3339`. The first finds one between the bounds of `chrono`'s dates and
/// nowhere else; what the second writes depends on the milliseconds alone, and is `rfc3339_text`
/// of them.
#[verifier::external_body]
fn rfc3339(millis: i64) -> (r: Option<String>)
    ensures
        r is Some <==> has_date(millis),
        r matches Some(text) ==> text@ == rfc3339_text(millis),
{
    DateTime::<Utc>::from_timestamp_millis(millis).map(|moment| moment.to_rfc3339())
}

/// A moment that has a date.
#[derive(Debug)]
pub struct Moment {
    millis: i64,
    text: String,
}

pub struct MomentView {
    /// Milliseconds since the epoch.
    pub millis: i64,
    /// Its date and time.
    pub text: Seq<char>,
}

impl View for Moment {
    type V = MomentView;

    closed spec fn view(&self) -> MomentView {
        MomentView { millis: self.millis, text: self.text@ }
    }
}

impl Moment {
    /// The moment that lies so many milliseconds after the epoch, where it has a date.
    pub fn from_millis(millis: i64) -> (r: Option<Moment>)
        ensures
            match r {
                Some(moment) => has_date(millis) && moment@ == (MomentView {
                    millis,
                    text: rfc3339_text(millis),
                }),
                None => !has_date(millis),
            },
    {
        match rfc3339(millis) {
            Some(text) => Some(Moment { millis, text }),
            None => None,
        }
    }

    /// Milliseconds since the epoch.
    pub fn millis(&self) -> (r: i64)
        ensures
            r == self@.millis,
    {
        self.millis
    }

    /// The date and time.
    pub fn text(&self) -> (r: &str)
        ensures
            r@ == self@.text,
    {
        self.text.as_str()
    }
}

/// How a clock's text is written: hours, minutes and seconds.
pub const CLOCK_FORMAT: &'static str = "%H:%M:%S";

/// Whether two digits stand at this place of a text, and write a number of at most `last`.
pub open spec fn counts_to(text: Seq<char>, at: int, last: int) -> bool {
    &&& '0' <= text[at] <= '9'
    &&& '0' <= text[at + 1] <= '9'
    &&& (text[at] as int - '0' as int) * 10 + (text[at + 1] as int - '0' as int) <= last
}

/// Whether `text` tells a time of day: hours, minutes and seconds.
pub open spec fn is_time_of_day(text: Seq<char>) -> bool {
    &&& text.len() == 8
    &&& counts_to(text, 0, 23)
    &&& text[2] == ':'
    &&& counts_to(text, 3, 59)
    &&& text[5] == ':'
    &&& counts_to(text, 6, 60)
}

/// Whether, in some time zone, `chrono::DateTime::<Local>::format` writes `text` in this format
/// for the moment that lies so many milliseconds after the epoch. In another zone it may write
/// another text for the same moment.
pub uninterp spec fn clock_shows(text: Seq<char>, format: Seq<char>, millis: i64) -> bool;

/// Writes the moment that `chrono::Local.timestamp_millis_opt` finds in this format. It finds one
/// between the bounds of `chrono`'s dates and nowhere else. What is written is one of the texts
/// that a clock shows at that moment, and tells a time of day; which one it is depends on the
/// machine's time zone, so nothing is said of that.
#[verifier::external_body]
fn local_text(millis: i64, format: &str) -> (r: Option<String>)
    requires
        format@ == CLOCK_FORMAT@,
    ensures
        r is Some <==> has_date(millis),
        r matches Some(text) ==> clock_shows(text@, format@, millis) && is_time_of_day(text@),
{
    Local.timestamp_millis_opt(millis).single().map(|moment| moment.format(format).to_string())
}

/// Whether `text` can be what a clock shows at this moment: a time of day where the moment has a
/// date, and a dash where it has none. Which time it shows depends on the machine's time zone.
pub open spec fn is_clock_text(text: Seq<char>, millis: i64) -> bool {
    if has_date(millis) {
        is_time_of_day(text) && clock_shows(text, CLOCK_FORMAT@, millis)
    } else {
        text == "-"@
    }
}

/// What the clock of this machine shows at this moment.
pub fn clock_time(millis: i64) -> (r: String)
    ensures
        is_clock_text(r@, millis),
{
    match local_text(millis, CLOCK_FORMAT) {
        Some(text) => text,
        None => "-".to_owned(),
    }
}

/// A clock shows a time of day at every moment that has a date: hours, minutes and seconds, of two
/// digits each and with colons between them. It shows a dash at any other moment.
pub proof fn law_clock_shows_a_time_or_a_dash(text: Seq<char>, millis: i64)
    requires
        is_clock_text(text, millis),
    ensures
        millis < -8_334_601_228_800_000 || millis > 8_210_266_876_799_999 ==> text == "-"@,
        -8_334_601_228_800_000 <= millis <= 8_210_266_876_799_999 ==> {
            &&& text.len() == 8
            &&& text[2] == ':' && text[5] == ':'
            &&& forall|i: int|
                0 <= i < 8 && i != 2 && i != 5 ==> '0' <= #[trigger] text[i] <= '9'
            &&& (text[0] as int - '0' as int) * 10 + (text[1] as int - '0' as int) < 24
            &&& (text[3] as int - '0' as int) * 10 + (text[4] as int - '0' as int) < 60
            &&& (text[6] as int - '0' as int) * 10 + (text[7] as int - '0' as int) < 61
            &&& clock_shows(text, CLOCK_FORMAT@, millis)
        },
{
}

} // verus!

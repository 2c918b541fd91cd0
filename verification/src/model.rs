//! The records the interface works with: a message as the list and the reader
//! see it, and an attachment as the galleries see it.

use vstd::prelude::*;
use crate::text::{decimal, digit_char};

verus! {

/// One message summary, as indexed from the mail cache.
#[derive(Debug, Clone)]
pub struct Message {
    pub id: u32,
    pub account_id: u32,
    pub folder_id: u32,
    pub uid: u32,
    pub from_name: String,
    pub from_addr: String,
    pub to: String,
    pub cc: String,
    pub subject: String,
    pub preview: String,
    pub body: String,
    pub date: String,
    pub timestamp: i64,
    pub unread: bool,
    pub starred: bool,
    pub has_attachment: bool,
    pub message_id: String,
    pub references: String,
}

/// What can be done to one message, from its row or its card.
#[derive(Debug, Clone, Copy, PartialEq, Eq, Structural)]
pub enum RowAction {
    Reply,
    ReplyAll,
    Forward,
    ToggleStar,
    ToggleRead,
    Spam,
    Archive,
    Delete,
    ViewSource,
}

/// One cached attachment, with where it came from.
#[derive(Debug, Clone)]
pub struct GalleryItem {
    pub account_id: u32,
    pub folder_path: String,
    pub uid: u32,
    pub name: String,
    pub size: u64,
    pub from_name: String,
    pub subject: String,
    pub timestamp: i64,
    pub data: Option<Vec<u8>>,
}

/// The pattern of the full date headers show: `Tue, Mar 5, 2024 at 14:07`.
pub const DATETIME_FULL_PATTERN: &'static str = "%a, %b %-d, %Y at %H:%M";

/// Whether chrono's calendar holds a Unix timestamp (in seconds): from
/// January 1, 262144 BCE to December 31, 262142 CE, UTC.
pub open spec fn timestamp_in_range(ts: i64) -> bool {
    -8334601228800 <= ts && ts <= 8210266876799
}

/// A number under a hundred as two digits, zero first when under ten.
pub open spec fn two_digits(n: int) -> Seq<char> {
    seq![digit_char(n / 10), digit_char(n % 10)]
}

/// A number under ten thousand as four digits, zeros first.
pub open spec fn four_digits(n: int) -> Seq<char> {
    seq![digit_char(n / 1000), digit_char((n / 100) % 10), digit_char((n / 10) % 10), digit_char(n % 10)]
}

/// A year as `%Y` writes it: four digits, zeros first, for years 0 to 9999;
/// otherwise its sign and at least four digits.
pub open spec fn year_text(y: int) -> Seq<char> {
    if 0 <= y < 10000 {
        four_digits(y)
    } else if y < 0 {
        seq!['-'] + if -y < 10000 {
            four_digits(-y)
        } else {
            decimal((-y) as nat)
        }
    } else {
        seq!['+'] + decimal(y as nat)
    }
}

/// The short English name of a weekday, counted from Sunday (`%a`).
pub open spec fn weekday_abbr(w: int) -> Seq<char> {
    if w == 0 {
        seq!['S', 'u', 'n']
    } else if w == 1 {
        seq!['M', 'o', 'n']
    } else if w == 2 {
        seq!['T', 'u', 'e']
    } else if w == 3 {
        seq!['W', 'e', 'd']
    } else if w == 4 {
        seq!['T', 'h', 'u']
    } else if w == 5 {
        seq!['F', 'r', 'i']
    } else {
        seq!['S', 'a', 't']
    }
}

/// The short English name of a month, January being 1 (`%b`).
pub open spec fn month_abbr(m: int) -> Seq<char> {
    if m == 1 {
        seq!['J', 'a', 'n']
    } else if m == 2 {
        seq!['F', 'e', 'b']
    } else if m == 3 {
        seq!['M', 'a', 'r']
    } else if m == 4 {
        seq!['A', 'p', 'r']
    } else if m == 5 {
        seq!['M', 'a', 'y']
    } else if m == 6 {
        seq!['J', 'u', 'n']
    } else if m == 7 {
        seq!['J', 'u', 'l']
    } else if m == 8 {
        seq!['A', 'u', 'g']
    } else if m == 9 {
        seq!['S', 'e', 'p']
    } else if m == 10 {
        seq!['O', 'c', 't']
    } else if m == 11 {
        seq!['N', 'o', 'v']
    } else {
        seq!['D', 'e', 'c']
    }
}

/// The proleptic Gregorian date `(year, month, day)` of the day `days` after
/// January 1, 1970 (before it when negative), the year counted
/// astronomically (1 BCE is year 0).
pub open spec fn civil_from_days(days: int) -> (int, int, int) {
    let z = days + 719468;
    let era = z / 146097;
    let doe = z % 146097;
    let yoe = (doe - doe / 1460 + doe / 36524 - doe / 146096) / 365;
    let doy = doe - (365 * yoe + yoe / 4 - yoe / 100);
    let mp = (5 * doy + 2) / 153;
    let d = doy - (153 * mp + 2) / 5 + 1;
    let m = if mp < 10 {
        mp + 3
    } else {
        mp - 9
    };
    let y = yoe + era * 400 + if m <= 2 {
        1int
    } else {
        0int
    };
    (y, m, d)
}

/// The header text of a moment, `DATETIME_FULL_PATTERN` written for the wall
/// clock `offset` seconds east of UTC at the Unix time `utc` (in seconds):
/// for example `Thu, Jan 1, 1970 at 00:00` for `(0, 0)`.
pub open spec fn header_datetime_text(utc: int, offset: int) -> Seq<char> {
    let local = utc + offset;
    let days = local / 86400;
    let secs = local % 86400;
    let (y, m, d) = civil_from_days(days);
    weekday_abbr((days + 4) % 7) + seq![',', ' '] + month_abbr(m) + seq![' '] + decimal(d as nat)
        + seq![',', ' '] + year_text(y) + seq![' ', 'a', 't', ' '] + two_digits(secs / 3600)
        + seq![':'] + two_digits((secs % 3600) / 60)
}

/// What a full date header may read for a Unix timestamp: the header text for
/// some local offset strictly within a day of UTC when chrono's calendar holds
/// the timestamp, and nothing otherwise.
pub open spec fn full_date_of(timestamp: i64, text: Seq<char>) -> bool {
    if timestamp_in_range(timestamp) {
        exists|offset: int|
            -86400 < offset < 86400 && text == #[trigger] header_datetime_text(timestamp as int, offset)
    } else {
        text.len() == 0
    }
}

/// A full date header is empty exactly when the timestamp is off the calendar.
pub proof fn lemma_full_date_empty(timestamp: i64, text: Seq<char>)
    requires
        full_date_of(timestamp, text),
    ensures
        (text.len() == 0) == !timestamp_in_range(timestamp),
{
    if timestamp_in_range(timestamp) {
        let offset = choose|offset: int|
            -86400 < offset < 86400 && text == #[trigger] header_datetime_text(timestamp as int, offset);
        assert(text.len() > 0);
    }
}

/// chrono's `DateTime::from_timestamp`, moved into the machine's local time
/// zone (`with_timezone(&Local)`) and written out with `format(pattern)`;
/// empty when the timestamp is off chrono's calendar (`from_timestamp` gives
/// `None` exactly then). The contract is for the header pattern: chrono writes
/// `%a` and `%b` as English short names, `%-d` without padding, `%Y` as
/// `year_text` does and `%H`, `%M` as two digits, on the proleptic Gregorian
/// calendar, and the local offset is a `FixedOffset`, which lies strictly
/// within a day of UTC. Which offset applies depends on the machine's time
/// zone and on the moment, so the contract leaves it open.
#[verifier::external_body]
fn format_local_datetime(timestamp: i64, pattern: &str) -> (r: String)
    requires
        pattern@ == DATETIME_FULL_PATTERN@,
    ensures
        full_date_of(timestamp, r@),
{
    match chrono::DateTime::from_timestamp(timestamp, 0) {
        Some(d) => d.with_timezone(&chrono::Local).format(pattern).to_string(),
        None => String::new(),
    }
}

impl Message {
    /// A copy equal to this message in every field.
    pub fn duplicate(&self) -> (r: Message)
        ensures
            r == *self,
    {
        Message {
            id: self.id,
            account_id: self.account_id,
            folder_id: self.folder_id,
            uid: self.uid,
            from_name: self.from_name.clone(),
            from_addr: self.from_addr.clone(),
            to: self.to.clone(),
            cc: self.cc.clone(),
            subject: self.subject.clone(),
            preview: self.preview.clone(),
            body: self.body.clone(),
            date: self.date.clone(),
            timestamp: self.timestamp,
            unread: self.unread,
            starred: self.starred,
            has_attachment: self.has_attachment,
            message_id: self.message_id.clone(),
            references: self.references.clone(),
        }
    }

    /// The full date and time in the local time zone, as headers show it
    /// (`DATETIME_FULL_PATTERN`, see `header_datetime_text`); empty when the
    /// timestamp is off the calendar.
    pub fn datetime_full(&self) -> (r: String)
        ensures
            full_date_of(self.timestamp, r@),
            (r@.len() == 0) == !timestamp_in_range(self.timestamp),
    {
        let r = format_local_datetime(self.timestamp, DATETIME_FULL_PATTERN);
        proof {
            lemma_full_date_empty(self.timestamp, r@);
        }
        r
    }
}

} // verus!

//! Prompt-facing time labels. Relative labels ("yesterday", "3 days ago")
//! are never stored: they are derived at render time from stored absolute
//! RFC 3339 timestamps and the package's creation time, seen in the host's
//! local UTC offset.
use vstd::prelude::*;
use crate::text::{decimal, opt_view, u64_to_decimal};

verus! {

/// A parsed instant as seen in some UTC offset: its local calendar fields,
/// its Julian day number and its distance from the Unix epoch.
#[derive(Debug, Clone, Copy, PartialEq, Eq, Structural)]
pub struct LocalStamp {
    pub year: i32,
    pub month: u8,
    pub day: u8,
    pub hour: u8,
    pub minute: u8,
    /// Days since Monday: 0 for Monday, 6 for Sunday.
    pub weekday: u8,
    pub julian_day: i32,
    pub unix_nanos: i128,
}

/// What `time` makes of an RFC 3339 text moved to an offset of
/// `offset_seconds`: `None` when the text does not parse or the moved
/// date-time leaves the supported range.
pub uninterp spec fn rfc3339_in_offset(text: Seq<char>, offset_seconds: int) -> Option<LocalStamp>;

/// Largest offset, in seconds, that `time::UtcOffset` represents (25:59:59).
pub open spec fn max_offset_seconds() -> int {
    93599
}

/// `time::OffsetDateTime::parse(text, &Rfc3339)` followed by
/// `checked_to_offset` into the offset of `offset_seconds`, read back as
/// plain fields. The result is named, not described: it is whatever `time`
/// computes from these two arguments.
#[verifier::external_body]
fn parse_rfc3339_in_offset(text: &str, offset_seconds: i32) -> (r: Option<LocalStamp>)
    requires
        -max_offset_seconds() <= offset_seconds <= max_offset_seconds(),
    ensures
        r == rfc3339_in_offset(text@, offset_seconds as int),
{
    let offset = time::UtcOffset::from_whole_seconds(offset_seconds).ok()?;
    let parsed = time::OffsetDateTime::parse(text, &time::format_description::well_known::Rfc3339).ok()?;
    let local = parsed.checked_to_offset(offset)?;
    Some(LocalStamp {
        year: local.year(),
        month: u8::from(local.month()),
        day: local.day(),
        hour: local.hour(),
        minute: local.minute(),
        weekday: local.weekday().number_days_from_monday(),
        julian_day: local.to_julian_day(),
        unix_nanos: local.unix_timestamp_nanos(),
    })
}

/// `time::UtcOffset::from_whole_seconds`: an offset exists for every number
/// of seconds within ±25:59:59, and for no other.
#[verifier::external_body]
fn utc_offset_whole_seconds(seconds: i32) -> (r: Option<i32>)
    ensures
        r == (if -max_offset_seconds() <= seconds <= max_offset_seconds() {
            Some(seconds)
        } else {
            None::<i32>
        }),
{
    match time::UtcOffset::from_whole_seconds(seconds) {
        Ok(offset) => Some(offset.whole_seconds()),
        Err(_) => None,
    }
}

// ---------------------------------------------------------------- formatting

/// `s` padded on the left with zeros to `width` characters.
pub open spec fn zero_padded(s: Seq<char>, width: nat) -> Seq<char> {
    if s.len() >= width {
        s
    } else {
        Seq::new((width - s.len()) as nat, |k: int| '0') + s
    }
}

/// `format!("{n:0width$}")` for a non-negative `n`.
pub fn zero_pad(n: u64, width: usize) -> (r: String)
    ensures
        r@ == zero_padded(decimal(n as nat), width as nat),
{
    let digits = u64_to_decimal(n);
    let len = crate::text::char_count(digits.as_str());
    if len >= width {
        return digits;
    }
    let mut out = String::new();
    let mut k: usize = 0;
    while k < width - len
        invariant
            k <= width - len,
            len < width,
            out@ =~= Seq::new(k as nat, |j: int| '0'),
        decreases width - len - k,
    {
        out.append("0");
        proof {
            reveal_strlit("0");
        }
        k = k + 1;
    }
    out.append(digits.as_str());
    out
}

/// `format!("{year:04}")`: four digits, a minus sign counting toward the width.
pub open spec fn year_text(year: int) -> Seq<char> {
    if year >= 0 {
        zero_padded(decimal(year as nat), 4)
    } else {
        "-"@ + zero_padded(decimal((-year) as nat), 3)
    }
}

fn year_to_text(year: i32) -> (r: String)
    ensures
        r@ == year_text(year as int),
{
    if year >= 0 {
        zero_pad(year as u64, 4)
    } else {
        let magnitude: i64 = -(year as i64);
        let mut s = String::new();
        s.append("-");
        let digits = zero_pad(magnitude as u64, 3);
        s.append(digits.as_str());
        s
    }
}

/// The English name of a weekday counted from Monday, as `time` displays it.
pub open spec fn weekday_name(days_from_monday: int) -> Seq<char> {
    if days_from_monday == 0 {
        "Monday"@
    } else if days_from_monday == 1 {
        "Tuesday"@
    } else if days_from_monday == 2 {
        "Wednesday"@
    } else if days_from_monday == 3 {
        "Thursday"@
    } else if days_from_monday == 4 {
        "Friday"@
    } else if days_from_monday == 5 {
        "Saturday"@
    } else {
        "Sunday"@
    }
}

fn weekday_text(days_from_monday: u8) -> (r: String)
    ensures
        r@ == weekday_name(days_from_monday as int),
{
    let name = if days_from_monday == 0 {
        "Monday"
    } else if days_from_monday == 1 {
        "Tuesday"
    } else if days_from_monday == 2 {
        "Wednesday"
    } else if days_from_monday == 3 {
        "Thursday"
    } else if days_from_monday == 4 {
        "Friday"
    } else if days_from_monday == 5 {
        "Saturday"
    } else {
        "Sunday"
    };
    name.to_string()
}

/// `UTC`, `UTC+3`, `UTC-5:30`: the label of an offset of `total_minutes`.
pub open spec fn offset_text(total_minutes: int) -> Seq<char> {
    if total_minutes == 0 {
        "UTC"@
    } else {
        let sign = if total_minutes > 0 {
            "+"@
        } else {
            "-"@
        };
        let magnitude = if total_minutes > 0 {
            total_minutes
        } else {
            -total_minutes
        };
        let hours = magnitude / 60;
        let minutes = magnitude % 60;
        if minutes == 0 {
            "UTC"@ + sign + decimal(hours as nat)
        } else {
            "UTC"@ + sign + decimal(hours as nat) + ":"@ + zero_padded(decimal(minutes as nat), 2)
        }
    }
}

/// The label of a UTC offset given in minutes.
pub fn offset_label(total_minutes: i32) -> (r: String)
    ensures
        r@ == offset_text(total_minutes as int),
{
    if total_minutes == 0 {
        return "UTC".to_string();
    }
    let magnitude: i64 = if total_minutes > 0 {
        total_minutes as i64
    } else {
        -(total_minutes as i64)
    };
    let hours = magnitude / 60;
    let minutes = magnitude % 60;
    let mut s = String::new();
    s.append("UTC");
    if total_minutes > 0 {
        s.append("+");
    } else {
        s.append("-");
    }
    let h = u64_to_decimal(hours as u64);
    s.append(h.as_str());
    if minutes != 0 {
        s.append(":");
        let m = zero_pad(minutes as u64, 2);
        s.append(m.as_str());
    }
    s
}

// ---------------------------------------------------------------- age buckets

/// Calendar bucket of `then` as seen from `now`: today, yesterday, N days
/// ago up to six, then by calendar month, then "over a year ago".
pub open spec fn bucket_text(then: LocalStamp, now: LocalStamp) -> Seq<char> {
    let days = now.julian_day - then.julian_day;
    if days <= 0 {
        "today"@
    } else if days == 1 {
        "yesterday"@
    } else if days <= 6 {
        decimal(days as nat) + " days ago"@
    } else {
        let months = (now.year * 12 + now.month) - (then.year * 12 + then.month);
        if months <= 0 {
            "earlier this month"@
        } else if months == 1 {
            "last month"@
        } else if months <= 11 {
            decimal(months as nat) + " months ago"@
        } else {
            "over a year ago"@
        }
    }
}

/// The calendar bucket of `then` as seen from `now`.
pub fn bucket_label(then: LocalStamp, now: LocalStamp) -> (r: String)
    ensures
        r@ == bucket_text(then, now),
{
    let days: i64 = now.julian_day as i64 - then.julian_day as i64;
    if days <= 0 {
        "today".to_string()
    } else if days == 1 {
        "yesterday".to_string()
    } else if days <= 6 {
        let mut s = u64_to_decimal(days as u64);
        s.append(" days ago");
        s
    } else {
        let months: i64 = (now.year as i64 * 12 + now.month as i64) - (then.year as i64 * 12
            + then.month as i64);
        if months <= 0 {
            "earlier this month".to_string()
        } else if months == 1 {
            "last month".to_string()
        } else if months <= 11 {
            let mut s = u64_to_decimal(months as u64);
            s.append(" months ago");
            s
        } else {
            "over a year ago".to_string()
        }
    }
}

// ---------------------------------------------------------------- label context

/// The reference point of every relative label of one rendering: the
/// package's creation time (absent when the host's clock is untrusted or the
/// time does not parse) and the host's UTC offset.
#[derive(Debug, Clone, Copy)]
pub struct TimeLabelContext {
    now: Option<LocalStamp>,
    offset_minutes: i32,
}

/// The offset that a host's `utc_offset_minutes` gives: the offset itself
/// when `time` can represent it, UTC otherwise.
pub open spec fn effective_offset_minutes(utc_offset_minutes: int) -> int {
    if -max_offset_seconds() <= utc_offset_minutes * 60 <= max_offset_seconds() {
        utc_offset_minutes
    } else {
        0
    }
}

impl TimeLabelContext {
    #[verifier::type_invariant]
    spec fn offset_in_range(self) -> bool {
        -max_offset_seconds() <= self.offset_minutes * 60 <= max_offset_seconds()
    }

    /// The local creation time, when known.
    pub closed spec fn now_spec(self) -> Option<LocalStamp> {
        self.now
    }

    /// The UTC offset labels are computed in, in minutes.
    pub closed spec fn offset_spec(self) -> int {
        self.offset_minutes as int
    }

    /// The context of a package created at `now_rfc3339` for a host at
    /// `utc_offset_minutes`; with an untrusted clock no time is known.
    pub fn new(now_rfc3339: &str, utc_offset_minutes: i32, clock_untrusted: bool) -> (r: Self)
        ensures
            r.offset_spec() == effective_offset_minutes(utc_offset_minutes as int),
            r.now_spec() == (if clock_untrusted {
                None
            } else {
                rfc3339_in_offset(now_rfc3339@, r.offset_spec() * 60)
            }),
    {
        let wide: i64 = utc_offset_minutes as i64 * 60;
        let saturated: i32 = if wide > 2147483647 {
            2147483647
        } else if wide < -2147483648 {
            -2147483648
        } else {
            wide as i32
        };
        let offset_minutes: i32 = match utc_offset_whole_seconds(saturated) {
            Some(_) => utc_offset_minutes,
            None => 0,
        };
        let now = if clock_untrusted {
            None
        } else {
            parse_rfc3339_in_offset(now_rfc3339, offset_minutes * 60)
        };
        TimeLabelContext { now, offset_minutes }
    }

    /// A context that labels nothing.
    pub fn disabled() -> (r: Self)
        ensures
            r.now_spec() == None::<LocalStamp>,
            r.offset_spec() == 0,
    {
        TimeLabelContext { now: None, offset_minutes: 0 }
    }

    /// The `current_time:` line of the `<state>` block, when time is known.
    pub fn current_time_line(&self) -> (r: Option<String>)
        ensures
            r.is_some() == self.now_spec().is_some(),
            r.is_some() ==> r.unwrap()@ == current_time_text(
                self.now_spec().unwrap(),
                self.offset_spec(),
            ),
    {
        proof {
            use_type_invariant(self);
        }
        match self.now {
            None => None,
            Some(local) => {
                let mut s = String::new();
                s.append("current_time: ");
                let y = year_to_text(local.year);
                s.append(y.as_str());
                s.append("-");
                let mo = zero_pad(local.month as u64, 2);
                s.append(mo.as_str());
                s.append("-");
                let d = zero_pad(local.day as u64, 2);
                s.append(d.as_str());
                s.append(" ");
                let h = zero_pad(local.hour as u64, 2);
                s.append(h.as_str());
                s.append(":");
                let mi = zero_pad(local.minute as u64, 2);
                s.append(mi.as_str());
                s.append(" ");
                let w = weekday_text(local.weekday);
                s.append(w.as_str());
                s.append(" (");
                let o = offset_label(self.offset_minutes);
                s.append(o.as_str());
                s.append(")");
                Some(s)
            },
        }
    }

    /// The relative age label of a stored timestamp, or `None` when time is
    /// untrusted, the timestamp does not parse, or it lies after `now`.
    pub fn age_label(&self, timestamp: &str) -> (r: Option<String>)
        ensures
            opt_view(r) == age_text(self.now_spec(), self.offset_spec(), timestamp@),
    {
        proof {
            use_type_invariant(self);
        }
        let now = match self.now {
            Some(n) => n,
            None => {
                return None;
            },
        };
        let then = match parse_rfc3339_in_offset(timestamp, self.offset_minutes * 60) {
            Some(t) => t,
            None => {
                return None;
            },
        };
        if then.unix_nanos > now.unix_nanos {
            return None;
        }
        Some(bucket_label(then, now))
    }
}

/// `current_time: YYYY-MM-DD HH:MM Weekday (offset)`.
pub open spec fn current_time_text(local: LocalStamp, offset_minutes: int) -> Seq<char> {
    "current_time: "@ + year_text(local.year as int) + "-"@ + zero_padded(
        decimal(local.month as nat),
        2,
    ) + "-"@ + zero_padded(decimal(local.day as nat), 2) + " "@ + zero_padded(
        decimal(local.hour as nat),
        2,
    ) + ":"@ + zero_padded(decimal(local.minute as nat), 2) + " "@ + weekday_name(
        local.weekday as int,
    ) + " ("@ + offset_text(offset_minutes) + ")"@
}

/// The age label of `timestamp` given the local creation time.
pub open spec fn age_text(now: Option<LocalStamp>, offset_minutes: int, timestamp: Seq<char>) -> Option<
    Seq<char>,
> {
    match now {
        None => None,
        Some(n) => match rfc3339_in_offset(timestamp, offset_minutes * 60) {
            None => None,
            Some(then) => if then.unix_nanos > n.unix_nanos {
                None
            } else {
                Some(bucket_text(then, n))
            },
        },
    }
}

} // verus!

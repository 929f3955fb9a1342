//! Audio profiles: saved links, volumes, EQ and mixer snapshot.
use vstd::prelude::*;

use crate::audio::eq::EqBand;
use crate::mixer::snapshot::MixerSnapshot;
use crate::text::{dec, dec_u64, join2, pad2, pad2_u64, text_copy};

verus! {

/// A link between two ports, by node and port names (stable across restarts).
#[derive(Debug)]
pub struct LinkSpec {
    pub output_node: String,
    pub output_port: String,
    pub input_node: String,
    pub input_port: String,
}

#[derive(Debug)]
pub struct VolumeSpec {
    pub node_name: String,
    /// Volume, as the bit pattern of an `f32` in [0.0, 1.0].
    pub volume: u32,
    pub muted: bool,
}

#[derive(Debug)]
pub struct EqSpec {
    /// Name of the sink the EQ applies to.
    pub target_sink: String,
    pub bands: Vec<EqBand>,
}

/// A complete audio configuration snapshot.
#[derive(Debug)]
pub struct AudioProfile {
    pub name: String,
    pub description: String,
    /// Creation time, as the UTC date and time `YYYY-MM-DD HH:MM:SS UTC`
    /// (see [`timestamp_of`]).
    pub created_at: String,
    pub links: Vec<LinkSpec>,
    pub volumes: Vec<VolumeSpec>,
    pub default_sink: Option<String>,
    pub default_source: Option<String>,
    pub eq: Vec<EqSpec>,
    /// Mixer state applied without recreating channels.
    pub mixer_snapshot: Option<MixerSnapshot>,
}

/// Whether `y` is a leap year of the Gregorian calendar.
pub open spec fn is_leap(y: int) -> bool {
    (y % 4 == 0 && y % 100 != 0) || y % 400 == 0
}

/// The number of days of year `y`.
pub open spec fn year_days(y: int) -> int {
    if is_leap(y) {
        366
    } else {
        365
    }
}

/// The number of days of month `m` (1 to 12) of year `y`.
pub open spec fn month_days(y: int, m: int) -> int {
    if m == 2 {
        if is_leap(y) {
            29
        } else {
            28
        }
    } else if m == 4 || m == 6 || m == 9 || m == 11 {
        30
    } else {
        31
    }
}

/// The year, and the day within it (counting from 0), that lies `days`
/// days after the first of January of year `y`.
pub open spec fn year_and_day(days: nat, y: int) -> (int, nat)
    decreases days,
{
    if days < year_days(y) {
        (y, days)
    } else {
        year_and_day((days - year_days(y)) as nat, y + 1)
    }
}

/// The month (from `m` on, at most 12), and the day within it (counting
/// from 0), of day `day` of year `y` counted from the first of month `m`.
pub open spec fn month_and_day(day: nat, y: int, m: int) -> (int, nat)
    decreases 12 - m,
{
    if m >= 12 || day < month_days(y, m) {
        (m, day)
    } else {
        month_and_day((day - month_days(y, m)) as nat, y, m + 1)
    }
}

/// The calendar date (year, month from 1, day of month from 1) of the day
/// that lies `days` days after 1970-01-01.
pub open spec fn civil_date(days: nat) -> (int, int, int) {
    let (y, d) = year_and_day(days, 1970);
    let (m, dd) = month_and_day(d, y, 1);
    (y, m, dd + 1int)
}

/// `secs` seconds after the Unix epoch, written as the UTC date and time
/// `"YYYY-MM-DD HH:MM:SS UTC"`.
pub open spec fn timestamp_of(secs: u64) -> Seq<char> {
    let (y, m, d) = civil_date((secs / 86400) as nat);
    dec(y as nat) + "-"@ + pad2(m as nat) + "-"@ + pad2(d as nat) + " "@ + pad2(
        ((secs / 3600) % 24) as nat,
    ) + ":"@ + pad2(((secs / 60) % 60) as nat) + ":"@ + pad2((secs % 60) as nat) + " UTC"@
}

fn leap_year(y: u64) -> (r: bool)
    ensures
        r == is_leap(y as int),
{
    (y % 4 == 0 && y % 100 != 0) || y % 400 == 0
}

fn days_of_year(y: u64) -> (r: u64)
    ensures
        r == year_days(y as int),
{
    if leap_year(y) {
        366
    } else {
        365
    }
}

fn days_of_month(y: u64, m: u64) -> (r: u64)
    ensures
        r == month_days(y as int, m as int),
{
    if m == 2 {
        if leap_year(y) {
            29
        } else {
            28
        }
    } else if m == 4 || m == 6 || m == 9 || m == 11 {
        30
    } else {
        31
    }
}

/// The calendar date of the day `days` days after 1970-01-01 (see
/// [`civil_date`]).
pub fn civil_date_of(days: u64) -> (r: (u64, u64, u64))
    requires
        days <= u64::MAX / 86400,
    ensures
        civil_date(days as nat) == (r.0 as int, r.1 as int, r.2 as int),
{
    let mut rest: u64 = days;
    let mut y: u64 = 1970;
    while rest >= days_of_year(y)
        invariant
            year_and_day(days as nat, 1970) == year_and_day(rest as nat, y as int),
            1970 <= y,
            y - 1970 <= days - rest,
            rest <= days,
            days <= u64::MAX / 86400,
        decreases rest,
    {
        rest = rest - days_of_year(y);
        y = y + 1;
    }
    let mut m: u64 = 1;
    let ghost d0 = rest;
    while m < 12 && rest >= days_of_month(y, m)
        invariant
            1 <= m <= 12,
            month_and_day(d0 as nat, y as int, 1) == month_and_day(rest as nat, y as int, m as int),
            rest <= d0,
            d0 < 366,
        decreases 12 - m,
    {
        rest = rest - days_of_month(y, m);
        m = m + 1;
    }
    (y, m, rest + 1)
}

/// The text [`timestamp_of`] gives for `secs`.
pub fn timestamp_text(secs: u64) -> (r: String)
    ensures
        r@ == timestamp_of(secs),
{
    let (y, m, d) = civil_date_of(secs / 86400);
    let year = dec_u64(y);
    let month = pad2_u64(m);
    let day = pad2_u64(d);
    let hour = pad2_u64((secs / 3600) % 24);
    let min = pad2_u64((secs / 60) % 60);
    let sec = pad2_u64(secs % 60);
    let mut r = join2(year.as_str(), "-");
    r.append(month.as_str());
    r.append("-");
    r.append(day.as_str());
    r.append(" ");
    r.append(hour.as_str());
    r.append(":");
    r.append(min.as_str());
    r.append(":");
    r.append(sec.as_str());
    r.append(" UTC");
    r
}

#[verifier::external_type_specification]
#[verifier::external_body]
pub struct ExSystemTime(std::time::SystemTime);

/// `SystemTime::now`: the system clock's reading. Nothing is promised of
/// it.
#[verifier::external_body]
fn system_now() -> (r: std::time::SystemTime) {
    std::time::SystemTime::now()
}

/// `SystemTime::duration_since` with `UNIX_EPOCH`: the time from the epoch
/// to `t`, none when `t` is earlier. Nothing is promised of the length.
#[verifier::external_body]
fn since_epoch(t: &std::time::SystemTime) -> (r: Option<std::time::Duration>) {
    match t.duration_since(std::time::UNIX_EPOCH) {
        Ok(d) => Some(d),
        Err(_) => None,
    }
}

/// `Duration::as_secs`: the whole seconds of `d`. `Duration` is opaque
/// here, so nothing is stated of the number.
#[verifier::external_body]
fn whole_secs(d: &std::time::Duration) -> (r: u64) {
    d.as_secs()
}

/// The current time as a timestamp (see [`timestamp_of`]); the epoch when
/// the clock reads earlier than it.
pub fn chrono_now() -> (r: String)
    ensures
        exists|secs: u64| r@ == timestamp_of(secs),
{
    let now = system_now();
    let secs = match since_epoch(&now) {
        Some(d) => whole_secs(&d),
        None => 0,
    };
    timestamp_text(secs)
}

impl AudioProfile {
    /// An empty profile named `name`, created now.
    pub fn new(name: &str) -> (p: Self)
        ensures
            p.name@ == name@,
            p.description@.len() == 0,
            exists|secs: u64| p.created_at@ == timestamp_of(secs),
            p.links@.len() == 0,
            p.volumes@.len() == 0,
            p.default_sink is None,
            p.default_source is None,
            p.eq@.len() == 0,
            p.mixer_snapshot is None,
    {
        let now = chrono_now();
        AudioProfile {
            name: text_copy(name),
            description: String::new(),
            created_at: now,
            links: Vec::new(),
            volumes: Vec::new(),
            default_sink: None,
            default_source: None,
            eq: Vec::new(),
            mixer_snapshot: None,
        }
    }
}

} // verus!

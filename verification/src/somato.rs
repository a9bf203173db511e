//! What a report is made of: the configuration of a run, the report date,
//! and the figures of the exemptions and of each location.

use crate::date::{is_calendar_date, Date, FRIDAY};
use crate::joker::{filter_jokers_by_date, is_on, Joker};
use crate::location::Location;
use crate::member::{
    filter_jokers, filter_members_by_big, filter_members_by_location, filter_members_by_small,
    has_big, has_small, picks_up_at, without_joker, Member, MemberList,
};
use crate::reconcile::{
    check_for_members_in_tickoff_list, check_tickoff_list_against_members, have_forenames,
    member_warnings, tally_warnings,
};
use crate::text::{decimal_i32, decimal_u32, fields, parse_i32, parse_u32, split, texts};
use crate::tickoff::{TickOffItem, TickOffList};
use vstd::prelude::*;

verus! {

/// The configuration of a run: where the three spreadsheets are, and the
/// day of the report, written `YYYY-MM-DD`.
#[derive(Debug, PartialEq, Eq)]
pub struct Config {
    pub members: String,
    pub jokers: String,
    pub tickoff: String,
    pub date: String,
}

impl Clone for Config {
    fn clone(&self) -> (copy: Self)
        ensures
            copy == *self,
    {
        Config {
            members: self.members.clone(),
            jokers: self.jokers.clone(),
            tickoff: self.tickoff.clone(),
            date: self.date.clone(),
        }
    }
}

/// Why a text is no report date.
#[derive(Clone, Copy, Debug, PartialEq, Eq, Structural)]
pub enum DateError {
    /// The year is no number.
    Year,
    /// The month is missing or no number.
    Month,
    /// The day is missing or no number.
    Day,
    /// More follows the day.
    ExtraTokens,
    /// The calendar has no such day.
    NoSuchDay,
    /// The day is no Friday.
    NotFriday,
}

impl DateError {
    /// The cause as a text.
    pub open spec fn spec_message(self) -> Seq<char> {
        match self {
            DateError::Year => "Cannot parse year"@,
            DateError::Month => "Cannot parse month"@,
            DateError::Day => "Cannot parse day"@,
            DateError::ExtraTokens => "Found extra tokens in date"@,
            DateError::NoSuchDay => "Cannot process date"@,
            DateError::NotFriday => "Distribution should be on Fridays"@,
        }
    }

    /// The cause, for the operator.
    pub fn message(&self) -> (out: &'static str)
        ensures
            out@ == self.spec_message(),
    {
        match self {
            DateError::Year => "Cannot parse year",
            DateError::Month => "Cannot parse month",
            DateError::Day => "Cannot parse day",
            DateError::ExtraTokens => "Found extra tokens in date",
            DateError::NoSuchDay => "Cannot process date",
            DateError::NotFriday => "Distribution should be on Fridays",
        }
    }
}

/// The day that a text of the form `YYYY-MM-DD` names: year, month and day
/// are decimal numbers, parted by hyphens, and name a day of the calendar.
/// Of the causes that keep a text from naming a day, the first counts.
pub open spec fn date_of(text: Seq<char>) -> Result<Date, DateError> {
    let parts = fields(text, '-');
    if decimal_i32(parts[0]).is_none() {
        Err(DateError::Year)
    } else if parts.len() < 2 || decimal_u32(parts[1]).is_none() {
        Err(DateError::Month)
    } else if parts.len() < 3 || decimal_u32(parts[2]).is_none() {
        Err(DateError::Day)
    } else if parts.len() > 3 {
        Err(DateError::ExtraTokens)
    } else {
        let year = decimal_i32(parts[0])->0;
        let month = decimal_u32(parts[1])->0;
        let day = decimal_u32(parts[2])->0;
        if is_calendar_date(year as int, month as int, day as int) {
            Ok(Date { year, month, day })
        } else {
            Err(DateError::NoSuchDay)
        }
    }
}

/// The report date that a text names: the day it names, which has to be a
/// Friday, the day of distribution.
pub open spec fn report_date_of(text: Seq<char>) -> Result<Date, DateError> {
    match date_of(text) {
        Ok(date) => on_friday(date, date.spec_weekday()),
        Err(cause) => Err(cause),
    }
}

/// A date as a report date, given its day of the week counted from Monday as
/// 0: the date itself on a Friday, and an error on any other day.
pub open spec fn on_friday(date: Date, weekday: u32) -> Result<Date, DateError> {
    if weekday == FRIDAY {
        Ok(date)
    } else {
        Err(DateError::NotFriday)
    }
}

/// Reads a day written `YYYY-MM-DD`.
pub fn read_date(text: &str) -> (read: Result<Date, DateError>)
    ensures
        read == date_of(text@),
        read matches Ok(date) ==> date.is_valid(),
{
    let parts = split(text, '-');
    proof {
        crate::text::lemma_fields_nonempty(text@, '-');
        assert(forall|k: int|
            0 <= k < parts@.len() ==> texts(parts@)[k] == (#[trigger] parts@[k])@);
    }
    let year = match parse_i32(parts[0]) {
        Some(year) => year,
        None => {
            return Err(DateError::Year);
        },
    };
    if parts.len() < 2 {
        return Err(DateError::Month);
    }
    let month = match parse_u32(parts[1]) {
        Some(month) => month,
        None => {
            return Err(DateError::Month);
        },
    };
    if parts.len() < 3 {
        return Err(DateError::Day);
    }
    let day = match parse_u32(parts[2]) {
        Some(day) => day,
        None => {
            return Err(DateError::Day);
        },
    };
    if parts.len() > 3 {
        return Err(DateError::ExtraTokens);
    }
    match Date::from_ymd_opt(year, month, day) {
        Some(date) => Ok(date),
        None => Err(DateError::NoSuchDay),
    }
}

/// Accepts a date as a report date if `weekday`, its day of the week counted
/// from Monday as 0, is Friday.
pub fn distribution_day(date: Date, weekday: u32) -> (accepted: Result<Date, DateError>)
    ensures
        accepted == on_friday(date, weekday),
{
    if weekday == FRIDAY {
        Ok(date)
    } else {
        Err(DateError::NotFriday)
    }
}

/// Reads the report date of a run: a day written `YYYY-MM-DD` that falls on
/// a Friday.
pub fn parse_date(date: &str) -> (parsed: Result<Date, DateError>)
    ensures
        parsed == report_date_of(date@),
{
    let day = match read_date(date) {
        Ok(day) => day,
        Err(cause) => {
            return Err(cause);
        },
    };
    match day.weekday() {
        Some(weekday) => distribution_day(day, weekday),
        None => Err(DateError::NoSuchDay),
    }
}

/// The members expected to pick up on `date`: the active members who
/// declared no joker for that day.
pub open spec fn collectors(active_members: Seq<Member>, jokers: Seq<Joker>, date: Date) -> Seq<
    Member,
> {
    active_members.filter(without_joker(jokers.filter(is_on(date))))
}

/// Takes the jokers of `date` off the active members, and counts who is left
/// to pick up: all of them, those with a big share and those with a small
/// share.
pub fn analyze_jokers(active_members: &[Member], jokers: &[Joker], date: &Date) -> (counts: (
    usize,
    usize,
    usize,
))
    ensures
        counts.0 == collectors(active_members@, jokers@, *date).len(),
        counts.1 == collectors(active_members@, jokers@, *date).filter(has_big()).len(),
        counts.2 == collectors(active_members@, jokers@, *date).filter(has_small()).len(),
{
    let weekly_jokers = filter_jokers_by_date(jokers, date);
    let active_collectors = filter_jokers(active_members, weekly_jokers.as_slice());
    let with_big = filter_members_by_big(&active_collectors);
    let with_small = filter_members_by_small(&active_collectors);
    (active_collectors.len(), with_big.len(), with_small.len())
}

/// The figures of one location in a report: how many active members pick up
/// there, how many of them with a big and with a small share, and the
/// warnings of the two checks against the location's tally.
#[derive(Clone, Copy, Debug, PartialEq, Eq, Structural)]
pub struct LocationReport {
    pub members: usize,
    pub big: usize,
    pub small: usize,
    pub warnings: usize,
}

impl LocationReport {
    /// Whether the members with a big share and those with a small share
    /// add up to the members of the location.
    pub fn is_balanced(&self) -> (balanced: bool)
        ensures
            balanced == (self.members == self.big + self.small),
    {
        self.big <= self.members && self.members - self.big == self.small
    }
}

/// Whether the two checks can be made of these members and this tally:
/// every member has a forename, and the warnings can be counted.
pub open spec fn can_be_checked(members: Seq<Member>, tickoff: Seq<TickOffItem>) -> bool {
    &&& have_forenames(members)
    &&& members.len() * (tickoff.len() + 1) + 2 * tickoff.len() <= usize::MAX
}

/// Whether the two checks can be made of these members and this tally.
pub fn checks_apply(members: &MemberList, tickoff: &TickOffList) -> (apply: bool)
    ensures
        apply == can_be_checked(members@, tickoff@),
{
    for i in 0..members.len()
        invariant
            forall|k: int| 0 <= k < i ==> (#[trigger] members@[k]).forename@.len() > 0,
    {
        if members[i].forename.as_str().unicode_len() == 0 {
            return false;
        }
    }
    let entries = tickoff.len();
    let twice = match entries.checked_mul(2) {
        Some(twice) => twice,
        None => {
            return false;
        },
    };
    let more = match entries.checked_add(1) {
        Some(more) => more,
        None => {
            return false;
        },
    };
    let held = match members.len().checked_mul(more) {
        Some(held) => held,
        None => {
            assert(members@.len() * (tickoff@.len() + 1) + 2 * tickoff@.len() > usize::MAX)
                by (nonlinear_arith)
                requires
                    members@.len() * (tickoff@.len() + 1) > usize::MAX,
            ;
            return false;
        },
    };
    held.checked_add(twice).is_some()
}

/// Makes the report of one location: picks the members of the location out
/// of the active members, counts them, and holds them against the
/// location's tally in both directions.
pub fn analyze_location(
    active_members: &MemberList,
    location: &Location,
    tick_off: &TickOffList,
) -> (report: LocationReport)
    requires
        can_be_checked(active_members@.filter(picks_up_at(*location)), tick_off@),
    ensures
        report.members == active_members@.filter(picks_up_at(*location)).len(),
        report.big == active_members@.filter(picks_up_at(*location)).filter(has_big()).len(),
        report.small == active_members@.filter(picks_up_at(*location)).filter(has_small()).len(),
        report.warnings == member_warnings(
            active_members@.filter(picks_up_at(*location)),
            tick_off@,
        ) + tally_warnings(active_members@.filter(picks_up_at(*location)), tick_off@),
{
    let here = filter_members_by_location(active_members, *location);
    let with_big = filter_members_by_big(&here);
    let with_small = filter_members_by_small(&here);
    let missing = check_for_members_in_tickoff_list(&here, tick_off);
    let unknown = check_tickoff_list_against_members(&here, tick_off);
    proof {
        crate::reconcile::lemma_warnings_are_bounded(here@, tick_off@);
    }
    let mut warnings: usize = 0;
    if let Some(count) = missing {
        warnings = warnings + count;
    }
    if let Some(count) = unknown {
        warnings = warnings + count;
    }
    LocationReport {
        members: here.len(),
        big: with_big.len(),
        small: with_small.len(),
        warnings,
    }
}

} // verus!

//! The event model: one scheduled race of a season.

use vstd::prelude::*;

use crate::calendar::MAX_INSTANT;
use crate::calendar::valid_instant;
use crate::timefmt::parse_instant;
use crate::timefmt::parse_spec;

verus! {

/// Display instants are shifted to the fixed display timezone, UTC+2.
pub const DISPLAY_OFFSET_SECONDS: i64 = 7200;

/// One scheduled race. `start_instant` is the single scheduling anchor, in
/// whole seconds since the epoch; the date and time-of-day strings of the
/// feed are merged into it at ingestion.
#[derive(Debug, Clone)]
pub struct Race {
    pub round: u32,
    pub season: u32,
    pub race_name: String,
    pub country: String,
    pub start_instant: i64,
}

impl Race {
    /// The start instant lies in the supported range, with headroom so that
    /// the shift into the display timezone stays in range too.
    pub open spec fn wf(self) -> bool {
        &&& self.round >= 1
        &&& self.season >= 1
        &&& valid_instant(self.start_instant as int)
        &&& valid_instant(self.start_instant as int + DISPLAY_OFFSET_SECONDS)
    }
}

/// The merged form of the feed's separate date and time strings.
pub open spec fn merged_date_time(date: Seq<char>, time: Seq<char>) -> Seq<char> {
    date + seq![' '] + time
}

/// Build a race from one record of the event feed, merging the date and time
/// strings into the start instant. Returns `None` where the merged string is
/// not a valid timestamp in the fixed format, where the shifted display
/// instant would leave the supported range, or where round or season is zero.
pub fn race_from_feed(
    round: u32,
    season: u32,
    race_name: String,
    country: String,
    date: &str,
    time: &str,
) -> (r: Option<Race>)
    ensures
        match r {
            Some(race) => {
                &&& race.wf()
                &&& race.round == round
                &&& race.season == season
                &&& race.race_name@ == race_name@
                &&& race.country@ == country@
                &&& parse_spec(merged_date_time(date@, time@)) == Some(
                    race.start_instant as int,
                )
            },
            None => {
                ||| round == 0
                ||| season == 0
                ||| parse_spec(merged_date_time(date@, time@)) is None
                ||| (exists|t: int|
                    parse_spec(merged_date_time(date@, time@)) == Some(t) && !valid_instant(
                        t + DISPLAY_OFFSET_SECONDS,
                    ))
            },
        },
{
    if round == 0 || season == 0 {
        return None;
    }
    let mut merged = date.to_owned();
    merged.append(" ");
    merged.append(time);
    proof {
        reveal_strlit(" ");
        assert(merged@ =~= merged_date_time(date@, time@));
    }
    match parse_instant(merged.as_str()) {
        Some(t) => {
            if t > MAX_INSTANT - DISPLAY_OFFSET_SECONDS {
                return None;
            }
            Some(Race { round, season, race_name, country, start_instant: t })
        },
        None => None,
    }
}

} // verus!

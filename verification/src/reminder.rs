//! Reminder thresholds and the per-tick decision of the scheduler.
//!
//! Each threshold is a fixed signed hour offset relative to a race's start
//! instant; a reminder fires only when the current truncated offset equals a
//! threshold exactly, never on a range.

use vstd::prelude::*;

use crate::calendar::valid_instant;
use crate::event::Race;
use crate::selector::get_next_race;
use crate::selector::lemma_next_race_shape;
use crate::selector::next_race_of;
use crate::timefmt::dec_digits;
use crate::timefmt::u32_dec;

verus! {

/// Hour offset at which the tip reminder for the race fires.
pub const TIPS_THRESHOLD: i64 = -96;

/// Hour offset at which the qualifying reminder fires.
pub const QUALIFYING_THRESHOLD: i64 = -30;

/// Hour offset at which the race-start reminder fires.
pub const START_THRESHOLD: i64 = -1;

/// The three reminder kinds, one per threshold.
#[derive(Clone, Copy, Debug, PartialEq, Eq, Structural)]
pub enum Reminder {
    Tips,
    Qualifying,
    RaceStart,
}

/// The reminder that an offset triggers: exact equality against the
/// threshold table, no range test.
pub open spec fn threshold_spec(off: int) -> Option<Reminder> {
    if off == TIPS_THRESHOLD {
        Some(Reminder::Tips)
    } else if off == QUALIFYING_THRESHOLD {
        Some(Reminder::Qualifying)
    } else if off == START_THRESHOLD {
        Some(Reminder::RaceStart)
    } else {
        None
    }
}

/// Match an offset against the threshold table.
pub fn threshold_for(off: i64) -> (r: Option<Reminder>)
    ensures
        r == threshold_spec(off as int),
{
    if off == TIPS_THRESHOLD {
        Some(Reminder::Tips)
    } else if off == QUALIFYING_THRESHOLD {
        Some(Reminder::Qualifying)
    } else if off == START_THRESHOLD {
        Some(Reminder::RaceStart)
    } else {
        None
    }
}

/// The message template of a reminder, with the race's round number, name
/// and country interpolated.
pub open spec fn reminder_msg(rem: Reminder, round: int, name: Seq<char>, country: Seq<char>) -> Seq<
    char,
> {
    match rem {
        Reminder::Tips => "Rennen Nr. "@ + dec_digits(round)
            + " steht bald an! Vergesst nicht für den "@ + name + " eure Tipps abzugeben."@,
        Reminder::Qualifying => "Das Qualifying in "@ + country
            + " fängt bald an! Vergesst nicht für den "@ + name
            + " eure Tipps für die Top 4 Fahrer aus Q3 abzugeben."@,
        Reminder::RaceStart => "Gleich startet der "@ + name
            + ". Hoffentlich habt ihr eure Tipps abgegeben. Viel Spaß beim Rennen!"@,
    }
}

/// Render the message of a reminder for a race.
pub fn render_reminder(rem: Reminder, race: &Race) -> (r: String)
    ensures
        r@ == reminder_msg(rem, race.round as int, race.race_name@, race.country@),
{
    match rem {
        Reminder::Tips => {
            let mut out = String::new();
            out.append("Rennen Nr. ");
            let num = u32_dec(race.round);
            out.append(num.as_str());
            out.append(" steht bald an! Vergesst nicht für den ");
            out.append(race.race_name.as_str());
            out.append(" eure Tipps abzugeben.");
            proof {
                assert(out@ =~= reminder_msg(rem, race.round as int, race.race_name@,
                    race.country@));
            }
            out
        },
        Reminder::Qualifying => {
            let mut out = String::new();
            out.append("Das Qualifying in ");
            out.append(race.country.as_str());
            out.append(" fängt bald an! Vergesst nicht für den ");
            out.append(race.race_name.as_str());
            out.append(" eure Tipps für die Top 4 Fahrer aus Q3 abzugeben.");
            proof {
                assert(out@ =~= reminder_msg(rem, race.round as int, race.race_name@,
                    race.country@));
            }
            out
        },
        Reminder::RaceStart => {
            let mut out = String::new();
            out.append("Gleich startet der ");
            out.append(race.race_name.as_str());
            out.append(". Hoffentlich habt ihr eure Tipps abgegeben. Viel Spaß beim Rennen!");
            proof {
                assert(out@ =~= reminder_msg(rem, race.round as int, race.race_name@,
                    race.country@));
            }
            out
        },
    }
}

/// One tick of the scheduler: the reminder message that is due now, or
/// `None` when no race is upcoming or the offset of the next race matches no
/// threshold exactly.
pub fn tick_message(races: &Vec<Race>, now: i64) -> (r: Option<String>)
    requires
        valid_instant(now as int),
        forall|i: int| 0 <= i < races@.len() ==> (#[trigger] races@[i]).wf(),
    ensures
        match next_race_of(races@, now as int) {
            None => r is None,
            Some((j, off)) => match threshold_spec(off) {
                None => r is None,
                Some(rem) => match r {
                    Some(msg) => msg@ == reminder_msg(
                        rem,
                        races@[j].round as int,
                        races@[j].race_name@,
                        races@[j].country@,
                    ),
                    None => false,
                },
            },
        },
{
    proof {
        lemma_next_race_shape(races@, now as int);
    }
    match get_next_race(races, now) {
        None => None,
        Some((j, off)) => match threshold_for(off) {
            None => None,
            Some(rem) => Some(render_reminder(rem, &races[j])),
        },
    }
}

} // verus!

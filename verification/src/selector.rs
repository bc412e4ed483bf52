//! Selection of the next upcoming race relative to a given instant.

use vstd::prelude::*;

use crate::calendar::valid_instant;
use crate::event::Race;

verus! {

/// Signed whole-hour offset `now - start`, truncated toward zero. Negative
/// exactly when `start` lies more than a full hour in the future.
pub open spec fn hours_between(now: int, start: int) -> int {
    if now >= start {
        (now - start) / 3600
    } else {
        -((start - now) / 3600)
    }
}

/// A race counts as upcoming when its truncated hour offset is negative.
pub open spec fn is_future(now: int, r: Race) -> bool {
    hours_between(now, r.start_instant as int) < 0
}

/// The selected next race of a list: among the upcoming races the one with
/// the greatest (least negative) hour offset, ties broken by the earliest
/// start instant and then by the lowest index. `None` when no race is
/// upcoming. The result is the pair of index and hour offset.
pub open spec fn next_race_of(races: Seq<Race>, now: int) -> Option<(int, int)>
    decreases races.len(),
{
    if races.len() == 0 {
        None
    } else {
        let i = races.len() - 1;
        let rest = next_race_of(races.drop_last(), now);
        let off = hours_between(now, races[i].start_instant as int);
        if off < 0 {
            match rest {
                None => Some((i, off)),
                Some((j, off_j)) => if off > off_j || (off == off_j
                    && races[i].start_instant < races[j].start_instant) {
                    Some((i, off))
                } else {
                    Some((j, off_j))
                },
            }
        } else {
            rest
        }
    }
}

/// Basic shape of the selection: the index is in range, the offset is the
/// selected race's offset, and it is negative; `None` only when nothing is
/// upcoming.
pub proof fn lemma_next_race_shape(races: Seq<Race>, now: int)
    ensures
        match next_race_of(races, now) {
            Some((j, off)) => {
                &&& 0 <= j < races.len()
                &&& off == hours_between(now, races[j].start_instant as int)
                &&& off < 0
            },
            None => forall|i: int| 0 <= i < races.len() ==> !is_future(now, races[i]),
        },
    decreases races.len(),
{
    if races.len() > 0 {
        lemma_next_race_shape(races.drop_last(), now);
        assert(forall|i: int|
            0 <= i < races.len() - 1 ==> races.drop_last()[i] == races[i]);
    }
}

/// A race that starts no later is at least as close in truncated hours.
pub proof fn lemma_hours_monotone(now: int, s1: int, s2: int)
    requires
        s1 <= s2,
    ensures
        hours_between(now, s1) >= hours_between(now, s2),
{
    if now >= s2 {
        vstd::arithmetic::div_mod::lemma_div_is_ordered(now - s2, now - s1, 3600);
    } else if now >= s1 {
        vstd::arithmetic::div_mod::lemma_div_pos_is_pos(now - s1, 3600);
        vstd::arithmetic::div_mod::lemma_div_pos_is_pos(s2 - now, 3600);
    } else {
        vstd::arithmetic::div_mod::lemma_div_is_ordered(s1 - now, s2 - now, 3600);
    }
}

/// The selected race is the soonest upcoming one: every upcoming race has an
/// offset no greater than the selected offset and starts no earlier, and of
/// the races that tie on both, the selected one is the first in the list.
pub proof fn lemma_next_race_soonest(races: Seq<Race>, now: int)
    ensures
        match next_race_of(races, now) {
            Some((j, off)) => forall|i: int|
                0 <= i < races.len() && is_future(now, races[i]) ==> {
                    &&& hours_between(now, races[i].start_instant as int) <= off
                    &&& races[j].start_instant <= races[i].start_instant
                    &&& ((hours_between(now, races[i].start_instant as int) == off
                        && races[i].start_instant == races[j].start_instant) ==> j <= i)
                },
            None => true,
        },
    decreases races.len(),
{
    if races.len() > 0 {
        let prefix = races.drop_last();
        lemma_next_race_soonest(prefix, now);
        lemma_next_race_shape(prefix, now);
        lemma_next_race_shape(races, now);
        assert(forall|i: int| 0 <= i < races.len() - 1 ==> prefix[i] == races[i]);
        if let Some((j, off)) = next_race_of(races, now) {
            assert forall|i: int|
                0 <= i < races.len() && is_future(now, races[i]) implies {
                &&& hours_between(now, races[i].start_instant as int) <= off
                &&& races[j].start_instant <= races[i].start_instant
                &&& ((hours_between(now, races[i].start_instant as int) == off
                    && races[i].start_instant == races[j].start_instant) ==> j <= i)
            } by {
                if races[j].start_instant > races[i].start_instant {
                    lemma_hours_monotone(
                        now,
                        races[i].start_instant as int,
                        races[j].start_instant as int,
                    );
                }
            }
        }
    }
}

/// Compute the truncated hour offset `now - start`.
pub fn hours_between_x(now: i64, start: i64) -> (r: i64)
    requires
        valid_instant(now as int),
        valid_instant(start as int),
    ensures
        r == hours_between(now as int, start as int),
{
    if now >= start {
        let d: u64 = (now - start) as u64;
        (d / 3600) as i64
    } else {
        let d: u64 = (start - now) as u64;
        -((d / 3600) as i64)
    }
}

/// Select the next upcoming race: the index of the soonest race strictly in
/// the future (by truncated hour offset) together with that offset, or
/// `None` when every race has already started or is less than an hour away.
pub fn get_next_race(races: &Vec<Race>, now: i64) -> (r: Option<(usize, i64)>)
    requires
        valid_instant(now as int),
        forall|i: int| 0 <= i < races@.len() ==> (#[trigger] races@[i]).wf(),
    ensures
        match r {
            Some((j, off)) => next_race_of(races@, now as int) == Some((j as int, off as int)),
            None => next_race_of(races@, now as int) is None,
        },
{
    let mut best: Option<(usize, i64)> = None;
    let mut i: usize = 0;
    proof {
        assert(races@.subrange(0, 0) =~= Seq::<Race>::empty());
    }
    while i < races.len()
        invariant
            0 <= i <= races@.len(),
            valid_instant(now as int),
            forall|k: int| 0 <= k < races@.len() ==> (#[trigger] races@[k]).wf(),
            match best {
                Some((j, off)) => {
                    &&& j < i
                    &&& next_race_of(races@.subrange(0, i as int), now as int) == Some(
                        (j as int, off as int),
                    )
                },
                None => next_race_of(races@.subrange(0, i as int), now as int) is None,
            },
        decreases races@.len() - i,
    {
        let ghost prefix = races@.subrange(0, i as int);
        let ghost extended = races@.subrange(0, i as int + 1);
        proof {
            assert(extended =~= prefix.push(races@[i as int]));
            assert(extended.drop_last() =~= prefix);
            assert(extended[extended.len() - 1] == races@[i as int]);
        }
        let off = hours_between_x(now, races[i].start_instant);
        if off < 0 {
            match best {
                None => {
                    best = Some((i, off));
                },
                Some((j, off_j)) => {
                    if off > off_j || (off == off_j && races[i].start_instant
                        < races[j].start_instant) {
                        best = Some((i, off));
                    }
                },
            }
        }
        i = i + 1;
    }
    proof {
        assert(races@.subrange(0, races@.len() as int) =~= races@);
    }
    best
}

} // verus!

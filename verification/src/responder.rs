//! Handling of inbound messages: registration of senders and the reply to a
//! next-race query.

use vstd::prelude::*;

use crate::calendar::CivilDateTime;
use crate::calendar::civil_from_instant;
use crate::calendar::civil_of;
use crate::calendar::valid_instant;
use crate::event::DISPLAY_OFFSET_SECONDS;
use crate::event::Race;
use crate::registry::Registry;
use crate::selector::get_next_race;
use crate::selector::lemma_next_race_shape;
use crate::selector::next_race_of;
use crate::timefmt::date_de;
use crate::timefmt::format_date_de;
use crate::timefmt::format_time_hm;
use crate::timefmt::time_hm;

verus! {

/// What `str::to_lowercase` returns for a given character sequence; a
/// function of the characters alone.
pub uninterp spec fn lower_of(s: Seq<char>) -> Seq<char>;

/// Relies on str::to_lowercase: the result depends on the characters of the
/// input alone, and an empty string stays empty.
#[verifier::external_body]
fn lowercase(s: &str) -> (r: String)
    ensures
        r@ == lower_of(s@),
        s@.len() == 0 ==> r@.len() == 0,
{
    s.to_lowercase()
}

/// `needle` occurs contiguously in `hay`.
pub open spec fn contains_seq(hay: Seq<char>, needle: Seq<char>) -> bool {
    exists|i: int|
        0 <= i <= hay.len() - needle.len() && #[trigger] hay.subrange(i, i + needle.len())
            == needle
}

fn matches_at(hay: &str, needle: &str, at: usize) -> (r: bool)
    requires
        at as int + needle@.len() <= hay@.len(),
        hay@.len() <= usize::MAX,
    ensures
        r == (hay@.subrange(at as int, at as int + needle@.len()) == needle@),
{
    let n = needle.unicode_len();
    let mut j: usize = 0;
    while j < n
        invariant
            0 <= j <= n,
            n == needle@.len(),
            at as int + n <= hay@.len() <= usize::MAX,
            forall|k: int| 0 <= k < j ==> hay@[at + k] == needle@[k],
        decreases n - j,
    {
        if hay.get_char(at + j) != needle.get_char(j) {
            proof {
                assert(hay@.subrange(at as int, at as int + needle@.len())[j as int]
                    != needle@[j as int]);
            }
            return false;
        }
        j = j + 1;
    }
    proof {
        assert(hay@.subrange(at as int, at as int + needle@.len()) =~= needle@);
    }
    true
}

/// Substring search by characters.
pub fn contains_sub(hay: &str, needle: &str) -> (r: bool)
    ensures
        r == contains_seq(hay@, needle@),
{
    let hl = hay.unicode_len();
    let nl = needle.unicode_len();
    if nl > hl {
        return false;
    }
    if nl == 0 {
        proof {
            assert(hay@.subrange(0, 0 + needle@.len() as int) =~= needle@);
        }
        return true;
    }
    let mut i: usize = 0;
    while i <= hl - nl
        invariant
            0 <= i <= hl - nl + 1,
            1 <= nl <= hl,
            hl == hay@.len(),
            nl == needle@.len(),
            forall|k: int| 0 <= k < i ==> #[trigger] hay@.subrange(k, k + needle@.len())
                != needle@,
        decreases hl - nl - i + 1,
    {
        if matches_at(hay, needle, i) {
            proof {
                assert(contains_seq(hay@, needle@));
            }
            return true;
        }
        i = i + 1;
    }
    false
}

/// A lower-cased text asks for the next race when it contains both the
/// "next" and the "race" keyword.
pub open spec fn is_next_race_query(lower: Seq<char>) -> bool {
    contains_seq(lower, "nächst"@) && contains_seq(lower, "rennen"@)
}

/// Decide whether an already lower-cased text asks for the next race.
pub fn query_in_lower(lower: &str) -> (r: bool)
    ensures
        r == is_next_race_query(lower@),
{
    contains_sub(lower, "nächst") && contains_sub(lower, "rennen")
}

/// Decide, case-insensitively, whether a message text asks for the next race.
pub fn is_race_query(text: &str) -> (r: bool)
    ensures
        r == is_next_race_query(lower_of(text@)),
{
    let low = lowercase(text);
    query_in_lower(low.as_str())
}

/// The fixed reply when no upcoming race is known.
pub open spec fn fallback_reply() -> Seq<char> {
    "Leider kann ich dir gerade nicht den Zeitpunkt des nächsten Rennens sagen."@
}

/// The reply to a next-race query: a greeting with the race's name and its
/// start, shifted into the display timezone and broken down as `c`.
pub open spec fn greeting_reply(
    first_name: Seq<char>,
    race_name: Seq<char>,
    c: CivilDateTime,
) -> Seq<char> {
    "Hi, "@ + first_name + "! Das nächste Rennen ist der '"@ + race_name
        + "'. Das Rennen startet am "@ + date_de(c) + " um "@ + time_hm(c)
        + " Uhr zu deutscher Zeit."@
}

/// Render the reply to a next-race query: the greeting for the next upcoming
/// race, or the fixed fallback sentence when no race is upcoming.
pub fn render_query_reply(races: &Vec<Race>, now: i64, first_name: &str) -> (r: String)
    requires
        valid_instant(now as int),
        forall|i: int| 0 <= i < races@.len() ==> (#[trigger] races@[i]).wf(),
    ensures
        match next_race_of(races@, now as int) {
            Some((j, off)) => r@ == greeting_reply(
                first_name@,
                races@[j].race_name@,
                civil_of(races@[j].start_instant + DISPLAY_OFFSET_SECONDS),
            ),
            None => r@ == fallback_reply(),
        },
{
    proof {
        lemma_next_race_shape(races@, now as int);
    }
    match get_next_race(races, now) {
        Some((j, _off)) => {
            let race = &races[j];
            let shifted = race.start_instant + DISPLAY_OFFSET_SECONDS;
            let c = civil_from_instant(shifted);
            let date = format_date_de(&c);
            let time = format_time_hm(&c);
            let mut out = String::new();
            out.append("Hi, ");
            out.append(first_name);
            out.append("! Das nächste Rennen ist der '");
            out.append(race.race_name.as_str());
            out.append("'. Das Rennen startet am ");
            out.append(date.as_str());
            out.append(" um ");
            out.append(time.as_str());
            out.append(" Uhr zu deutscher Zeit.");
            proof {
                assert(out@ =~= greeting_reply(first_name@, races@[j as int].race_name@, c));
            }
            out
        },
        None => String::from_str(
            "Leider kann ich dir gerade nicht den Zeitpunkt des nächsten Rennens sagen.",
        ),
    }
}

/// Outcome of one inbound message.
pub struct MessageOutcome {
    /// The sender's chat was not yet known; the caller should append one
    /// record to the durable log before delivering anything.
    pub newly_registered: bool,
    /// The reply owed to the sender, if the text was a next-race query.
    pub reply: Option<String>,
}

/// Process one inbound text message: register the sender's chat in the
/// registry whatever the message says, and answer a next-race query.
pub fn handle_message(
    races: &Vec<Race>,
    now: i64,
    registry: &mut Registry,
    chat_id: i64,
    first_name: &str,
    text: &str,
) -> (out: MessageOutcome)
    requires
        valid_instant(now as int),
        forall|i: int| 0 <= i < races@.len() ==> (#[trigger] races@[i]).wf(),
        old(registry).wf(),
    ensures
        final(registry).wf(),
        final(registry)@ == old(registry)@.insert(chat_id),
        final(registry)@.contains(chat_id),
        out.newly_registered == !old(registry)@.contains(chat_id),
        is_next_race_query(lower_of(text@)) ==> match out.reply {
            Some(msg) => match next_race_of(races@, now as int) {
                Some((j, off)) => msg@ == greeting_reply(
                    first_name@,
                    races@[j].race_name@,
                    civil_of(races@[j].start_instant + DISPLAY_OFFSET_SECONDS),
                ),
                None => msg@ == fallback_reply(),
            },
            None => false,
        },
        !is_next_race_query(lower_of(text@)) ==> out.reply is None,
{
    let newly = registry.add(chat_id);
    let reply = if is_race_query(text) {
        Some(render_query_reply(races, now, first_name))
    } else {
        None
    };
    MessageOutcome { newly_registered: newly, reply }
}

} // verus!

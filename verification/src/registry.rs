//! The deduplicated, append-only registry of subscriber identities.
//!
//! The registry has set semantics: an identity is held at most once however
//! often it is observed, and however many duplicate records the backing log
//! holds. Durable storage of the log is the caller's concern; the registry
//! reports whether an `add` actually extended the set, so that the caller can
//! append one record exactly when something new was observed.

use vstd::prelude::*;

use crate::timefmt::digit_val;

verus! {

/// Decimal digits, most significant first, as an integer.
pub open spec fn digits_val(s: Seq<char>) -> int
    decreases s.len(),
{
    if s.len() == 0 {
        0
    } else {
        digits_val(s.drop_last()) * 10 + digit_val(s.last())
    }
}

pub open spec fn all_digits(s: Seq<char>) -> bool {
    forall|i: int| 0 <= i < s.len() ==> digit_val(#[trigger] s[i]) >= 0
}

/// The identity a record of the backing log denotes: an optional sign
/// followed by at least one decimal digit, with the value in the `i64`
/// range. Anything else denotes nothing.
pub open spec fn chat_id_spec(s: Seq<char>) -> Option<int> {
    let neg = s.len() >= 1 && s[0] == '-';
    let digits = if s.len() >= 1 && (s[0] == '-' || s[0] == '+') {
        s.skip(1)
    } else {
        s
    };
    if digits.len() >= 1 && all_digits(digits) {
        let v = if neg {
            -digits_val(digits)
        } else {
            digits_val(digits)
        };
        if i64::MIN <= v <= i64::MAX {
            Some(v)
        } else {
            None
        }
    } else {
        None
    }
}

proof fn lemma_digits_val_nonneg(s: Seq<char>)
    requires
        all_digits(s),
    ensures
        digits_val(s) >= 0,
    decreases s.len(),
{
    if s.len() > 0 {
        assert(all_digits(s.drop_last()));
        lemma_digits_val_nonneg(s.drop_last());
    }
}

/// Appending further digits never shrinks the value.
proof fn lemma_digits_val_prefix(s: Seq<char>, i: int)
    requires
        all_digits(s),
        0 <= i <= s.len(),
    ensures
        digits_val(s) >= digits_val(s.subrange(0, i)),
    decreases s.len() - i,
{
    if i < s.len() {
        lemma_digits_val_prefix(s, i + 1);
        assert(s.subrange(0, i + 1).drop_last() =~= s.subrange(0, i));
        assert(all_digits(s.subrange(0, i)));
        lemma_digits_val_nonneg(s.subrange(0, i));
    } else {
        assert(s.subrange(0, i) =~= s);
    }
}

/// Parse one record of the backing log as a subscriber identity.
pub fn parse_chat_id(line: &str) -> (r: Option<i64>)
    ensures
        match chat_id_spec(line@) {
            Some(v) => r == Some(v as i64),
            None => r is None,
        },
{
    let len = line.unicode_len();
    if len == 0 {
        return None;
    }
    let first = line.get_char(0);
    let neg = first == '-';
    let start: usize = if neg || first == '+' {
        1
    } else {
        0
    };
    if start == len {
        return None;
    }
    let ghost digits = if neg || first == '+' {
        line@.skip(1)
    } else {
        line@
    };
    proof {
        assert(digits =~= line@.subrange(start as int, len as int));
        assert(line@.subrange(start as int, start as int) =~= Seq::<char>::empty());
    }
    let mut acc: u64 = 0;
    let mut i: usize = start;
    while i < len
        invariant
            start <= i <= len,
            1 <= len == line@.len(),
            start == 0 || start == 1,
            neg == (line@[0] == '-'),
            (start == 1) == (line@[0] == '-' || line@[0] == '+'),
            digits == line@.subrange(start as int, len as int),
            acc == digits_val(line@.subrange(start as int, i as int)),
            acc <= 9223372036854775808,
            all_digits(line@.subrange(start as int, i as int)),
        decreases len - i,
    {
        let d = crate::timefmt::digit_val_x(line.get_char(i));
        if d > 9 {
            proof {
                assert(digits[i as int - start as int] == line@[i as int]);
                assert(!all_digits(digits));
            }
            return None;
        }
        proof {
            assert(line@.subrange(start as int, i as int + 1).drop_last() =~= line@.subrange(
                start as int,
                i as int,
            ));
            assert(all_digits(line@.subrange(start as int, i as int + 1)));
        }
        let wide: u128 = acc as u128 * 10 + d as u128;
        if wide > 9223372036854775808 {
            proof {
                if start == 0 {
                    assert(line@.subrange(0, len as int) =~= line@);
                } else {
                    assert(line@.subrange(1, len as int) =~= line@.skip(1));
                }
                assert(line@.subrange(start as int, i as int + 1).last() == line@[i as int]);
                assert(digits_val(line@.subrange(start as int, i as int + 1)) == acc * 10 + d);
                if all_digits(digits) {
                    lemma_digits_val_prefix(digits, i as int + 1 - start as int);
                    assert(digits.subrange(0, i as int + 1 - start as int) =~= line@.subrange(
                        start as int,
                        i as int + 1,
                    ));
                    assert(digits_val(digits) >= acc * 10 + d > 9223372036854775808);
                }
            }
            return None;
        }
        acc = wide as u64;
        i = i + 1;
    }
    proof {
        assert(line@.subrange(start as int, len as int) =~= digits);
    }
    if neg {
        if acc == 9223372036854775808 {
            Some(i64::MIN)
        } else {
            Some(-(acc as i64))
        }
    } else {
        if acc <= 9223372036854775807 {
            Some(acc as i64)
        } else {
            None
        }
    }
}

/// The set of known subscriber identities.
pub struct Registry {
    ids: Vec<i64>,
}

impl View for Registry {
    type V = Set<i64>;

    closed spec fn view(&self) -> Set<i64> {
        self.ids@.to_set()
    }
}

impl Registry {
    /// The backing vector holds each identity at most once.
    pub closed spec fn wf(&self) -> bool {
        self.ids@.no_duplicates()
    }

    pub fn new() -> (r: Registry)
        ensures
            r.wf(),
            r@ == Set::<i64>::empty(),
    {
        let r = Registry { ids: Vec::new() };
        proof {
            assert(r@ =~= Set::<i64>::empty());
        }
        r
    }

    pub fn contains(&self, id: i64) -> (r: bool)
        ensures
            r == self@.contains(id),
    {
        let mut i: usize = 0;
        while i < self.ids.len()
            invariant
                0 <= i <= self.ids@.len(),
                forall|k: int| 0 <= k < i ==> self.ids@[k] != id,
            decreases self.ids@.len() - i,
        {
            if self.ids[i] == id {
                proof {
                    assert(self.ids@.contains(id));
                }
                return true;
            }
            i = i + 1;
        }
        proof {
            assert(!self.ids@.contains(id));
        }
        false
    }

    /// Record an identity. Idempotent: adding an identity that is already
    /// known changes nothing. Returns whether the identity was new.
    pub fn add(&mut self, id: i64) -> (newly: bool)
        requires
            old(self).wf(),
        ensures
            final(self).wf(),
            final(self)@ == old(self)@.insert(id),
            newly == !old(self)@.contains(id),
    {
        if self.contains(id) {
            proof {
                assert(self@ =~= old(self)@.insert(id));
            }
            false
        } else {
            proof {
                assert(!self.ids@.contains(id));
            }
            self.ids.push(id);
            proof {
                assert(self.ids@ == old(self).ids@.push(id));
                assert(forall|k: int|
                    0 <= k < old(self).ids@.len() ==> self.ids@[k] == old(self).ids@[k]);
                assert(self.ids@.no_duplicates());
                old(self).ids@.lemma_push_to_set_commute(id);
            }
            true
        }
    }

    /// How many identities are known.
    pub fn count(&self) -> (n: usize)
        requires
            self.wf(),
        ensures
            n == self@.len(),
    {
        proof {
            self.ids@.unique_seq_to_set();
        }
        self.ids.len()
    }

    /// The current identities, one each, for fan-out delivery.
    pub fn snapshot(&self) -> (r: Vec<i64>)
        requires
            self.wf(),
        ensures
            r@.to_set() == self@,
            r@.no_duplicates(),
            r@.len() == self@.len(),
    {
        let mut v: Vec<i64> = Vec::new();
        let mut i: usize = 0;
        while i < self.ids.len()
            invariant
                0 <= i <= self.ids@.len(),
                v@ == self.ids@.subrange(0, i as int),
            decreases self.ids@.len() - i,
        {
            v.push(self.ids[i]);
            proof {
                assert(v@ =~= self.ids@.subrange(0, i as int + 1));
            }
            i = i + 1;
        }
        proof {
            assert(v@ =~= self.ids@);
            self.ids@.unique_seq_to_set();
        }
        v
    }

    /// Rebuild the set from the full backing log, deduplicating: the result
    /// holds exactly the identities of the log, each once.
    pub fn from_log(lines: &Vec<i64>) -> (r: Registry)
        ensures
            r.wf(),
            r@ == lines@.to_set(),
    {
        let mut reg = Registry::new();
        let mut i: usize = 0;
        proof {
            assert(lines@.subrange(0, 0).to_set() =~= Set::<i64>::empty());
        }
        while i < lines.len()
            invariant
                0 <= i <= lines@.len(),
                reg.wf(),
                reg@ == lines@.subrange(0, i as int).to_set(),
            decreases lines@.len() - i,
        {
            reg.add(lines[i]);
            proof {
                assert(lines@.subrange(0, i as int + 1) =~= lines@.subrange(0, i as int).push(
                    lines@[i as int],
                ));
                lines@.subrange(0, i as int).lemma_push_to_set_commute(lines@[i as int]);
            }
            i = i + 1;
        }
        proof {
            assert(lines@.subrange(0, lines@.len() as int) =~= lines@);
        }
        reg
    }
}

/// Adding the same identity twice is the same as adding it once.
pub proof fn lemma_add_idempotent(s: Set<i64>, id: i64)
    ensures
        s.insert(id).insert(id) == s.insert(id),
{
    assert(s.insert(id).insert(id) =~= s.insert(id));
}

} // verus!

//! The blocklist: an immutable-after-build set of normalized domain names,
//! with a membership test that blocks a queried name on an exact match, when
//! the name is a subdomain of a listed entry, or when a listed entry is a
//! subdomain of the name (the superdomain rule).

use vstd::prelude::*;

use crate::normalize::{norm_of, normalize_name, trim, trim_spec};

verus! {

/// The given suffix preceded by a label separator: `"." + e`.
pub open spec fn dotted(e: Seq<char>) -> Seq<char> {
    seq!['.'] + e
}

/// `suf` is a suffix of `s`.
pub open spec fn suffix_of(s: Seq<char>, suf: Seq<char>) -> bool {
    suf.len() <= s.len() && s.subrange(s.len() - suf.len(), s.len() as int) == suf
}

/// The candidate name is blocked by entry `e`: it equals `e`, it is a strict
/// subdomain of `e`, or `e` is a strict subdomain of the candidate.
pub open spec fn blocked_by(cand: Seq<char>, e: Seq<char>) -> bool {
    cand == e || suffix_of(cand, dotted(e)) || suffix_of(e, dotted(cand))
}

/// The candidate name is blocked by some entry of the set.
pub open spec fn is_blocked_spec(s: Set<Seq<char>>, cand: Seq<char>) -> bool {
    exists|e: Seq<char>| s.contains(e) && blocked_by(cand, e)
}

/// Which of the three matching rules applied to a blocked name.
#[derive(Clone, Copy, PartialEq, Eq, Structural, Debug)]
pub enum MatchKind {
    Exact,
    Subdomain,
    Superdomain,
}

/// Why a name is blocked: the matching rule and the entry it matched.
#[derive(Debug)]
pub struct BlockMatch {
    pub kind: MatchKind,
    pub entry: String,
}

/// The stated rule holds of the candidate name and the matched entry.
pub open spec fn match_witnessed(kind: MatchKind, cand: Seq<char>, e: Seq<char>) -> bool {
    match kind {
        MatchKind::Exact => cand == e,
        MatchKind::Subdomain => suffix_of(cand, dotted(e)),
        MatchKind::Superdomain => suffix_of(e, dotted(cand)),
    }
}

fn str_eq(a: &str, b: &str) -> (r: bool)
    ensures
        r == (a@ == b@),
{
    let n = a.unicode_len();
    let m = b.unicode_len();
    if n != m {
        return false;
    }
    let mut i: usize = 0;
    while i < n
        invariant
            0 <= i <= n,
            n == a@.len(),
            n == b@.len(),
            forall|k: int| 0 <= k < i ==> a@[k] == b@[k],
        decreases n - i,
    {
        if a.get_char(i) != b.get_char(i) {
            return false;
        }
        i = i + 1;
    }
    proof {
        assert(a@ =~= b@);
    }
    true
}

fn has_dot_suffix(s: &str, tail: &str) -> (r: bool)
    ensures
        r == suffix_of(s@, dotted(tail@)),
{
    let n = s.unicode_len();
    let m = tail.unicode_len();
    if n <= m {
        return false;
    }
    if s.get_char(n - m - 1) != '.' {
        proof {
            if suffix_of(s@, dotted(tail@)) {
                assert(s@.subrange(n - m - 1, n as int)[0] == dotted(tail@)[0]);
            }
        }
        return false;
    }
    let mut i: usize = 0;
    while i < m
        invariant
            0 <= i <= m,
            n == s@.len(),
            m == tail@.len(),
            n > m,
            s@[n - m - 1] == '.',
            forall|k: int| 0 <= k < i ==> s@[n - m + k] == tail@[k],
        decreases m - i,
    {
        if s.get_char(n - m + i) != tail.get_char(i) {
            proof {
                if suffix_of(s@, dotted(tail@)) {
                    assert(s@.subrange(n - m - 1, n as int)[i + 1] == dotted(tail@)[i + 1]);
                    assert(dotted(tail@)[i + 1] == tail@[i as int]);
                }
            }
            return false;
        }
        i = i + 1;
    }
    proof {
        assert(s@.subrange(n - m - 1, n as int) =~= dotted(tail@)) by {
            assert forall|k: int| 0 <= k < m + 1 implies s@.subrange(n - m - 1, n as int)[k]
                == dotted(tail@)[k] by {
                if k > 0 {
                    assert(s@[n - m + (k - 1)] == tail@[k - 1]);
                }
            }
        }
    }
    true
}

/// A line is kept when, after trimming, it is non-empty, is not a comment,
/// and still normalizes to a non-empty name.
pub open spec fn kept_line(line: Seq<char>) -> bool {
    &&& trim_spec(line).len() > 0
    &&& trim_spec(line)[0] != '#'
    &&& norm_of(trim_spec(line)).len() > 0
}

/// The entry a kept line contributes: its trimmed, normalized form.
pub open spec fn entry_of(line: Seq<char>) -> Seq<char> {
    norm_of(trim_spec(line))
}

/// The set of entries that a sequence of raw text lines yields.
pub open spec fn block_set_of(lines: Seq<Seq<char>>) -> Set<Seq<char>>
    decreases lines.len(),
{
    if lines.len() == 0 {
        Set::empty()
    } else if kept_line(lines.last()) {
        block_set_of(lines.drop_last()).insert(entry_of(lines.last()))
    } else {
        block_set_of(lines.drop_last())
    }
}

/// An immutable set of normalized blocked domain names.
pub struct BlockSet {
    entries: Vec<String>,
}

impl View for BlockSet {
    type V = Set<Seq<char>>;

    closed spec fn view(&self) -> Set<Seq<char>> {
        Set::new(
            |d: Seq<char>|
                exists|i: int| 0 <= i < self.entries@.len() && self.entries@[i]@ == d,
        )
    }
}

impl BlockSet {
    #[verifier::type_invariant]
    spec fn distinct(&self) -> bool {
        forall|i: int, j: int|
            0 <= i < j < self.entries@.len() ==> self.entries@[i]@ != self.entries@[j]@
    }

    proof fn lemma_view_is_entry_set(&self)
        ensures
            self@ =~= self.entries@.map_values(|e: String| e@).to_set(),
    {
        let s = self.entries@.map_values(|e: String| e@);
        assert forall|d: Seq<char>| self@.contains(d) implies s.to_set().contains(d) by {
            let i = choose|i: int| 0 <= i < self.entries@.len() && self.entries@[i]@ == d;
            assert(s[i] == d);
        }
        assert forall|d: Seq<char>| s.to_set().contains(d) implies self@.contains(d) by {
            let i = choose|i: int| 0 <= i < s.len() && s[i] == d;
            assert(self.entries@[i]@ == d);
        }
    }

    /// How many entries the set holds.
    pub fn len(&self) -> (n: usize)
        ensures
            n == self@.len(),
    {
        proof {
            use_type_invariant(&*self);
            self.lemma_view_is_entry_set();
            let s = self.entries@.map_values(|e: String| e@);
            s.unique_seq_to_set();
        }
        self.entries.len()
    }

    fn contains_entry(&self, e: &str) -> (r: bool)
        ensures
            r == self@.contains(e@),
    {
        let mut i: usize = 0;
        while i < self.entries.len()
            invariant
                0 <= i <= self.entries@.len(),
                forall|j: int| 0 <= j < i ==> self.entries@[j]@ != e@,
            decreases self.entries@.len() - i,
        {
            if str_eq(self.entries[i].as_str(), e) {
                proof {
                    assert(self.entries@[i as int]@ == e@);
                }
                return true;
            }
            i = i + 1;
        }
        proof {
            if self@.contains(e@) {
                let j = choose|j: int|
                    0 <= j < self.entries@.len() && self.entries@[j]@ == e@;
                assert(false);
            }
        }
        false
    }

    fn insert_entry(&mut self, e: String)
        ensures
            final(self)@ == old(self)@.insert(e@),
    {
        proof {
            use_type_invariant(&*self);
        }
        if !self.contains_entry(e.as_str()) {
            let ghost old_entries = self.entries@;
            let mut entries: Vec<String> = Vec::new();
            std::mem::swap(&mut entries, &mut self.entries);
            entries.push(e);
            proof {
                assert(forall|i: int, j: int|
                    0 <= i < j < entries@.len() ==> entries@[i]@ != entries@[j]@);
            }
            self.entries = entries;
            proof {
                assert forall|d: Seq<char>| self@.contains(d) implies old(
                    self,
                )@.insert(e@).contains(d) by {
                    let i = choose|i: int|
                        0 <= i < self.entries@.len() && self.entries@[i]@ == d;
                    if i < old_entries.len() {
                        assert(old(self)@.contains(d));
                    }
                }
                assert forall|d: Seq<char>| old(self)@.insert(e@).contains(d) implies self@.contains(
                    d,
                ) by {
                    if d == e@ {
                        assert(self.entries@[self.entries@.len() - 1]@ == d);
                    } else {
                        let i = choose|i: int| 0 <= i < old_entries.len() && old_entries[i]@ == d;
                        assert(self.entries@[i]@ == d);
                    }
                }
                assert(self@ =~= old(self)@.insert(e@));
            }
        } else {
            proof {
                assert(self@ =~= old(self)@.insert(e@));
            }
        }
    }

    /// Builds the set from raw text lines: each line is trimmed; lines that
    /// are then empty or start with `#` are skipped; the rest are normalized
    /// (lowercased, one trailing root dot stripped) and inserted, except those
    /// that normalize to the empty string. Malformed lines never fail the
    /// build; they are skipped. Rebuilding from the same lines yields an equal
    /// set, and every member is non-empty.
    pub fn build(lines: &Vec<String>) -> (r: BlockSet)
        ensures
            r@ == block_set_of(lines.deep_view()),
            forall|d: Seq<char>| r@.contains(d) ==> d.len() > 0,
    {
        let mut bs = BlockSet { entries: Vec::new() };
        proof {
            assert(bs@ =~= Set::<Seq<char>>::empty());
            assert(lines.deep_view().subrange(0, 0) =~= Seq::<Seq<char>>::empty());
        }
        let mut idx: usize = 0;
        while idx < lines.len()
            invariant
                0 <= idx <= lines@.len(),
                lines.deep_view().len() == lines@.len(),
                forall|i: int| 0 <= i < lines@.len() ==> lines.deep_view()[i] == lines@[i]@,
                bs@ == block_set_of(lines.deep_view().subrange(0, idx as int)),
                forall|d: Seq<char>| bs@.contains(d) ==> d.len() > 0,
            decreases lines@.len() - idx,
        {
            let ghost prefix = lines.deep_view().subrange(0, idx as int);
            let ghost line = lines.deep_view()[idx as int];
            let t = trim(lines[idx].as_str());
            let keep = if t.unicode_len() == 0 {
                false
            } else {
                t.get_char(0) != '#'
            };
            if keep {
                let e = normalize_name(t);
                if e.as_str().unicode_len() > 0 {
                    proof {
                        assert(kept_line(line));
                        assert(entry_of(line) == e@);
                    }
                    bs.insert_entry(e);
                } else {
                    proof {
                        assert(!kept_line(line));
                    }
                }
            } else {
                proof {
                    assert(!kept_line(line));
                }
            }
            proof {
                let ext = lines.deep_view().subrange(0, idx + 1);
                assert(ext.drop_last() =~= prefix);
                assert(ext.last() == line);
                if kept_line(line) {
                    assert(bs@ == block_set_of(prefix).insert(entry_of(line)));
                } else {
                    assert(bs@ == block_set_of(prefix));
                }
            }
            idx = idx + 1;
        }
        proof {
            assert(lines.deep_view().subrange(0, lines@.len() as int) =~= lines.deep_view());
        }
        bs
    }

    /// Looks the candidate name up in the set: returns a match — the rule and
    /// the entry that justify blocking — exactly when some entry blocks the
    /// name, and `None` otherwise.
    pub fn find_match(&self, name: &str) -> (r: Option<BlockMatch>)
        ensures
            r is Some <==> is_blocked_spec(self@, name@),
            r matches Some(m) ==> self@.contains(m.entry@) && match_witnessed(
                m.kind,
                name@,
                m.entry@,
            ),
    {
        let mut i: usize = 0;
        while i < self.entries.len()
            invariant
                0 <= i <= self.entries@.len(),
                forall|j: int| 0 <= j < i ==> !blocked_by(name@, self.entries@[j]@),
            decreases self.entries@.len() - i,
        {
            let e = &self.entries[i];
            proof {
                assert(self@.contains(self.entries@[i as int]@));
            }
            if str_eq(name, e.as_str()) {
                return Some(BlockMatch { kind: MatchKind::Exact, entry: e.clone() });
            }
            if has_dot_suffix(name, e.as_str()) {
                return Some(BlockMatch { kind: MatchKind::Subdomain, entry: e.clone() });
            }
            if has_dot_suffix(e.as_str(), name) {
                return Some(BlockMatch { kind: MatchKind::Superdomain, entry: e.clone() });
            }
            i = i + 1;
        }
        proof {
            if is_blocked_spec(self@, name@) {
                let e = choose|e: Seq<char>| self@.contains(e) && blocked_by(name@, e);
                let j = choose|j: int| 0 <= j < self.entries@.len() && self.entries@[j]@ == e;
                assert(false);
            }
        }
        None
    }

    /// The candidate name is blocked: it equals a listed entry, is a
    /// subdomain of one, or is a superdomain of one.
    pub fn is_blocked(&self, name: &str) -> (b: bool)
        ensures
            b == is_blocked_spec(self@, name@),
    {
        self.find_match(name).is_some()
    }
}

/// Every domain present in the blocklist is itself blocked: the exact rule.
pub proof fn lemma_listed_domain_blocked(s: Set<Seq<char>>, d: Seq<char>)
    requires
        s.contains(d),
    ensures
        is_blocked_spec(s, d),
{
    assert(blocked_by(d, d));
}

/// The subdomain rule: prefixing any non-empty label to a listed domain
/// yields a blocked name.
pub proof fn lemma_subdomain_blocked(s: Set<Seq<char>>, d: Seq<char>, label: Seq<char>)
    requires
        s.contains(d),
        label.len() > 0,
    ensures
        is_blocked_spec(s, label + dotted(d)),
{
    let cand = label + dotted(d);
    assert(cand.subrange(cand.len() - dotted(d).len(), cand.len() as int) =~= dotted(d));
    assert(blocked_by(cand, d));
}

/// The superdomain rule: when a listed entry extends the candidate by at
/// least one leading label, the candidate is blocked.
pub proof fn lemma_superdomain_blocked(s: Set<Seq<char>>, cand: Seq<char>, label: Seq<char>)
    requires
        s.contains(label + dotted(cand)),
        label.len() > 0,
    ensures
        is_blocked_spec(s, cand),
{
    let e = label + dotted(cand);
    assert(e.subrange(e.len() - dotted(cand).len(), e.len() as int) =~= dotted(cand));
    assert(blocked_by(cand, e));
}

/// A name that equals no entry, is a subdomain of no entry, and is a
/// superdomain of no entry is not blocked.
pub proof fn lemma_unrelated_not_blocked(s: Set<Seq<char>>, cand: Seq<char>)
    requires
        forall|e: Seq<char>|
            s.contains(e) ==> cand != e && !suffix_of(cand, dotted(e)) && !suffix_of(
                e,
                dotted(cand),
            ),
    ensures
        !is_blocked_spec(s, cand),
{
}

} // verus!

//! The header mapping attached to a parsed request.
//!
//! Header names are kept as given on the wire (no case normalization); a name
//! inserted twice keeps the later value (last-write-wins). The mapping is
//! built once by the request assembler and never mutated afterwards.

use vstd::prelude::*;

use crate::scan::bytes_equal;

verus! {

/// A mapping from header name to header value, both raw byte strings.
pub struct HttpHeaders {
    entries: Vec<(Vec<u8>, Vec<u8>)>,
}

/// The mapping denoted by a sequence of name/value entries, a later entry for
/// a name overriding an earlier one.
pub open spec fn spec_entries_map(s: Seq<(Vec<u8>, Vec<u8>)>) -> Map<Seq<u8>, Seq<u8>>
    decreases s.len(),
{
    if s.len() == 0 {
        Map::empty()
    } else {
        spec_entries_map(s.drop_last()).insert(s.last().0@, s.last().1@)
    }
}

/// Pairwise-distinct names over a sequence of entries.
pub open spec fn spec_entries_distinct(s: Seq<(Vec<u8>, Vec<u8>)>) -> bool {
    forall|i: int, j: int| 0 <= i < j < s.len() ==> s[i].0@ != s[j].0@
}

/// An entry's name and value are in the denoted mapping when names are
/// pairwise distinct.
proof fn lemma_entries_map_at(s: Seq<(Vec<u8>, Vec<u8>)>, i: int)
    requires
        spec_entries_distinct(s),
        0 <= i < s.len(),
    ensures
        spec_entries_map(s).contains_key(s[i].0@),
        spec_entries_map(s)[s[i].0@] == s[i].1@,
    decreases s.len(),
{
    if i < s.len() - 1 {
        assert(spec_entries_distinct(s.drop_last()));
        lemma_entries_map_at(s.drop_last(), i);
    }
}

/// A name held by no entry is not in the denoted mapping.
proof fn lemma_entries_map_absent(s: Seq<(Vec<u8>, Vec<u8>)>, k: Seq<u8>)
    requires
        forall|i: int| 0 <= i < s.len() ==> s[i].0@ != k,
    ensures
        !spec_entries_map(s).contains_key(k),
    decreases s.len(),
{
    if s.len() > 0 {
        lemma_entries_map_absent(s.drop_last(), k);
    }
}

/// With pairwise-distinct names, the mapping has exactly one key per entry.
proof fn lemma_entries_map_len(s: Seq<(Vec<u8>, Vec<u8>)>)
    requires
        spec_entries_distinct(s),
    ensures
        spec_entries_map(s).dom().finite(),
        spec_entries_map(s).dom().len() == s.len(),
    decreases s.len(),
{
    if s.len() > 0 {
        assert(spec_entries_distinct(s.drop_last()));
        lemma_entries_map_len(s.drop_last());
        lemma_entries_map_absent(s.drop_last(), s.last().0@);
        assert(spec_entries_map(s).dom() =~= spec_entries_map(s.drop_last()).dom().insert(
            s.last().0@,
        ));
    }
}

/// Replacing the entry at `i` with one of the same name denotes the same
/// mapping as inserting that name afresh.
proof fn lemma_entries_map_update(s: Seq<(Vec<u8>, Vec<u8>)>, i: int, p: (Vec<u8>, Vec<u8>))
    requires
        spec_entries_distinct(s),
        0 <= i < s.len(),
        s[i].0@ == p.0@,
    ensures
        spec_entries_map(s.update(i, p)) == spec_entries_map(s).insert(p.0@, p.1@),
    decreases s.len(),
{
    let t = s.update(i, p);
    if i == s.len() - 1 {
        assert(t.drop_last() =~= s.drop_last());
        assert(spec_entries_map(t) == spec_entries_map(s.drop_last()).insert(p.0@, p.1@));
        assert(spec_entries_map(s.drop_last()).insert(s.last().0@, s.last().1@).insert(
            p.0@,
            p.1@,
        ) =~= spec_entries_map(s.drop_last()).insert(p.0@, p.1@));
    } else {
        assert(t.drop_last() =~= s.drop_last().update(i, p));
        assert(spec_entries_distinct(s.drop_last()));
        lemma_entries_map_update(s.drop_last(), i, p);
        assert(t.last() == s.last());
        // The final name differs from the replaced one, so the two inserts
        // land on different keys and commute.
        assert(s.last().0@ != p.0@);
        assert(spec_entries_map(s.drop_last()).insert(p.0@, p.1@).insert(
            s.last().0@,
            s.last().1@,
        ) =~= spec_entries_map(s.drop_last()).insert(s.last().0@, s.last().1@).insert(
            p.0@,
            p.1@,
        ));
    }
}

impl View for HttpHeaders {
    type V = Map<Seq<u8>, Seq<u8>>;

    closed spec fn view(&self) -> Map<Seq<u8>, Seq<u8>> {
        spec_entries_map(self.entries@)
    }
}

impl HttpHeaders {
    /// Internal invariant: entry names are pairwise distinct, so the entry
    /// count equals the mapping's size.
    pub closed spec fn wf(&self) -> bool {
        spec_entries_distinct(self.entries@)
    }

    /// The entries as a sequence of name/value pairs, the enumeration that
    /// `entry` walks.
    pub closed spec fn entries_seq(&self) -> Seq<(Seq<u8>, Seq<u8>)> {
        Seq::new(self.entries@.len(), |i: int| (self.entries@[i].0@, self.entries@[i].1@))
    }

    /// Under the invariant, `entries_seq` enumerates the mapping exactly: one
    /// entry per distinct name, each a binding of the map.
    pub proof fn lemma_entries_enumerate(&self)
        requires
            self.wf(),
        ensures
            self.entries_seq().len() == self@.dom().len(),
            forall|i: int, j: int|
                0 <= i < j < self.entries_seq().len() ==> self.entries_seq()[i].0
                    != self.entries_seq()[j].0,
            forall|i: int|
                0 <= i < self.entries_seq().len() ==> self@.contains_key(
                    #[trigger] self.entries_seq()[i].0,
                ) && self@[self.entries_seq()[i].0] == self.entries_seq()[i].1,
    {
        lemma_entries_map_len(self.entries@);
        assert forall|i: int| 0 <= i < self.entries_seq().len() implies self@.contains_key(
            #[trigger] self.entries_seq()[i].0,
        ) && self@[self.entries_seq()[i].0] == self.entries_seq()[i].1 by {
            lemma_entries_map_at(self.entries@, i);
        }
    }

    /// An empty mapping.
    pub fn new() -> (h: HttpHeaders)
        ensures
            h.wf(),
            h@ == Map::<Seq<u8>, Seq<u8>>::empty(),
    {
        HttpHeaders { entries: Vec::new() }
    }

    /// Binds `name` to `value`, replacing any earlier value for `name`.
    pub fn insert(&mut self, name: Vec<u8>, value: Vec<u8>)
        requires
            old(self).wf(),
        ensures
            final(self).wf(),
            final(self)@ == old(self)@.insert(name@, value@),
    {
        let n = self.entries.len();
        let mut i: usize = 0;
        while i < n
            invariant
                self == old(self),
                self.wf(),
                n == self.entries@.len(),
                0 <= i <= n,
                forall|j: int| 0 <= j < i ==> self.entries@[j].0@ != name@,
            decreases n - i,
        {
            if bytes_equal(self.entries[i].0.as_slice(), name.as_slice()) {
                proof {
                    lemma_entries_map_update(self.entries@, i as int, (name, value));
                }
                self.entries.set(i, (name, value));
                return;
            }
            i += 1;
        }
        proof {
            assert(self.entries@.push((name, value)).drop_last() =~= self.entries@);
        }
        self.entries.push((name, value));
    }

    /// The value bound to `name`, if any.
    pub fn get(&self, name: &[u8]) -> (r: Option<&Vec<u8>>)
        requires
            self.wf(),
        ensures
            match r {
                Some(v) => self@.contains_key(name@) && v@ == self@[name@],
                None => !self@.contains_key(name@),
            },
    {
        let mut i: usize = 0;
        while i < self.entries.len()
            invariant
                self.wf(),
                0 <= i <= self.entries@.len(),
                forall|j: int| 0 <= j < i ==> self.entries@[j].0@ != name@,
            decreases self.entries@.len() - i,
        {
            if bytes_equal(self.entries[i].0.as_slice(), name) {
                proof {
                    lemma_entries_map_at(self.entries@, i as int);
                }
                return Some(&self.entries[i].1);
            }
            i += 1;
        }
        proof {
            lemma_entries_map_absent(self.entries@, name@);
        }
        None
    }

    /// The entry at `idx` of the enumeration, for walking the mapping entry
    /// by entry: distinct indices yield distinct names.
    pub fn entry(&self, idx: usize) -> (r: &(Vec<u8>, Vec<u8>))
        requires
            self.wf(),
            idx < self@.dom().len(),
        ensures
            (r.0@, r.1@) == self.entries_seq()[idx as int],
            self@.contains_key(r.0@),
            self@[r.0@] == r.1@,
    {
        proof {
            lemma_entries_map_len(self.entries@);
            lemma_entries_map_at(self.entries@, idx as int);
        }
        &self.entries[idx]
    }

    /// How many distinct header names the mapping holds.
    pub fn len(&self) -> (n: usize)
        requires
            self.wf(),
        ensures
            n == self@.dom().len(),
    {
        proof {
            lemma_entries_map_len(self.entries@);
        }
        self.entries.len()
    }
}

} // verus!

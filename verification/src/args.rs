//! String-keyed argument maps for tool calls.

use vstd::prelude::*;
use crate::text::str_eq;

verus! {

/// The map built by inserting `ps` in order, later keys overriding earlier ones.
pub open spec fn pairs_map(ps: Seq<(Seq<char>, Seq<char>)>) -> Map<Seq<char>, Seq<char>>
    decreases ps.len(),
{
    if ps.len() == 0 {
        Map::empty()
    } else {
        pairs_map(ps.drop_last()).insert(ps.last().0, ps.last().1)
    }
}

/// A key that does not occur among the pairs is not in the map.
pub proof fn lemma_pairs_map_absent(ps: Seq<(Seq<char>, Seq<char>)>, k: Seq<char>)
    requires
        forall|j: int| 0 <= j < ps.len() ==> ps[j].0 != k,
    ensures
        !pairs_map(ps).contains_key(k),
    decreases ps.len(),
{
    if ps.len() > 0 {
        lemma_pairs_map_absent(ps.drop_last(), k);
    }
}

/// The last pair with a key gives that key's value.
pub proof fn lemma_pairs_map_last(ps: Seq<(Seq<char>, Seq<char>)>, i: int)
    requires
        0 <= i < ps.len(),
        forall|j: int| i < j < ps.len() ==> ps[j].0 != ps[i].0,
    ensures
        pairs_map(ps).contains_key(ps[i].0),
        pairs_map(ps)[ps[i].0] == ps[i].1,
    decreases ps.len(),
{
    if i < ps.len() - 1 {
        lemma_pairs_map_last(ps.drop_last(), i);
    }
}

/// Tool arguments: names mapped to values. The pairs are kept in the order
/// they were inserted; a later value for a name replaces an earlier one.
#[derive(Debug, Clone)]
pub struct ToolArgs {
    entries: Vec<(String, String)>,
}

impl ToolArgs {
    /// The inserted pairs, in insertion order.
    pub closed spec fn pairs(&self) -> Seq<(Seq<char>, Seq<char>)> {
        self.entries.deep_view()
    }

    /// The argument map.
    pub open spec fn map(&self) -> Map<Seq<char>, Seq<char>> {
        pairs_map(self.pairs())
    }

    /// An empty argument map.
    pub fn new() -> (r: Self)
        ensures
            r.map() == Map::<Seq<char>, Seq<char>>::empty(),
            r.pairs() == Seq::<(Seq<char>, Seq<char>)>::empty(),
    {
        let r = ToolArgs { entries: Vec::new() };
        assert(r.pairs() =~= Seq::<(Seq<char>, Seq<char>)>::empty());
        r
    }

    /// Sets `key` to `value`, replacing any earlier value.
    pub fn insert(&mut self, key: String, value: String)
        ensures
            final(self).pairs() == old(self).pairs().push((key@, value@)),
            final(self).map() == old(self).map().insert(key@, value@),
    {
        let ghost old_pairs = self.pairs();
        self.entries.push((key, value));
        assert(self.pairs() =~= old_pairs.push((key@, value@)));
        assert(self.pairs().drop_last() =~= old_pairs);
    }

    /// The value of `key`, if any.
    pub fn get(&self, key: &str) -> (r: Option<&String>)
        ensures
            match r {
                Some(v) => self.map().contains_key(key@) && self.map()[key@] == v@,
                None => !self.map().contains_key(key@),
            },
    {
        let ghost ps = self.pairs();
        let mut i = self.entries.len();
        while i > 0
            invariant
                i <= self.entries@.len(),
                ps == self.pairs(),
                ps.len() == self.entries@.len(),
                forall|j: int| i <= j < ps.len() ==> ps[j].0 != key@,
            decreases i,
        {
            assert(ps[i - 1] == (self.entries@[i - 1].0@, self.entries@[i - 1].1@));
            if str_eq(self.entries[i - 1].0.as_str(), key) {
                proof {
                    lemma_pairs_map_last(ps, i - 1);
                }
                return Some(&self.entries[i - 1].1);
            }
            i = i - 1;
        }
        proof {
            lemma_pairs_map_absent(ps, key@);
        }
        None
    }

    /// The value of `key`, or `default` when absent.
    pub fn get_or<'a>(&'a self, key: &str, default: &'a str) -> (r: &'a str)
        ensures
            r@ == (if self.map().contains_key(key@) {
                self.map()[key@]
            } else {
                default@
            }),
    {
        match self.get(key) {
            Some(v) => v.as_str(),
            None => default,
        }
    }

    /// A copy of these arguments.
    pub fn duplicate(&self) -> (r: Self)
        ensures
            r.pairs() == self.pairs(),
            r.map() == self.map(),
    {
        let mut e: Vec<(String, String)> = Vec::new();
        for i in 0..self.entries.len()
            invariant
                e.deep_view() == self.entries.deep_view().take(i as int),
        {
            let ghost before = e.deep_view();
            e.push((self.entries[i].0.clone(), self.entries[i].1.clone()));
            assert(e.deep_view() =~= before.push(self.entries.deep_view()[i as int]));
            assert(self.entries.deep_view().take(i + 1) =~= self.entries.deep_view().take(
                i as int,
            ).push(self.entries.deep_view()[i as int]));
        }
        assert(self.entries.deep_view().take(self.entries@.len() as int)
            =~= self.entries.deep_view());
        ToolArgs { entries: e }
    }

    /// The number of pairs inserted so far.
    pub fn num_pairs(&self) -> (n: usize)
        ensures
            n == self.pairs().len(),
    {
        self.entries.len()
    }

    /// The `i`-th inserted pair.
    pub fn pair(&self, i: usize) -> (r: (&String, &String))
        requires
            i < self.pairs().len(),
        ensures
            (r.0@, r.1@) == self.pairs()[i as int],
    {
        (&self.entries[i].0, &self.entries[i].1)
    }
}

} // verus!

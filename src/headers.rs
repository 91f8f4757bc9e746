use vstd::prelude::*;

use crate::bytes::bytes_eq;

verus! {

/// A header as a (name, value) pair of byte strings.
pub type HeaderPair = (Seq<u8>, Seq<u8>);

/// The mapping that inserting `e` in order produces: a later pair overwrites an
/// earlier one with the same name.
pub open spec fn header_map(e: Seq<HeaderPair>) -> Map<Seq<u8>, Seq<u8>>
    decreases e.len(),
{
    if e.len() == 0 {
        Map::empty()
    } else {
        header_map(e.drop_last()).insert(e.last().0, e.last().1)
    }
}

/// No two pairs of `e` share a name.
pub open spec fn unique_names(e: Seq<HeaderPair>) -> bool {
    forall|i: int, j: int| 0 <= i < j < e.len() ==> e[i].0 != e[j].0
}

/// `i` is the last position of `e` whose pair has the name `e[i].0`.
pub open spec fn is_last_of_name(e: Seq<HeaderPair>, i: int) -> bool {
    0 <= i < e.len() && forall|j: int| i < j < e.len() ==> e[j].0 != e[i].0
}

/// A name is mapped exactly when some pair carries it, and it is mapped to the
/// value of the last such pair.
pub proof fn lemma_header_map(e: Seq<HeaderPair>)
    ensures
        forall|k: Seq<u8>| #[trigger]
            header_map(e).contains_key(k) <==> exists|i: int| 0 <= i < e.len() && e[i].0 == k,
        forall|i: int| #[trigger]
            is_last_of_name(e, i) ==> header_map(e)[e[i].0] == e[i].1,
    decreases e.len(),
{
    if e.len() > 0 {
        let p = e.drop_last();
        lemma_header_map(p);
        assert(header_map(e) == header_map(p).insert(e.last().0, e.last().1));
        assert forall|k: Seq<u8>| #[trigger]
            header_map(e).contains_key(k) <==> exists|i: int| 0 <= i < e.len() && e[i].0 == k by {
            if k == e.last().0 {
                assert(e[e.len() - 1].0 == k);
            }
            if header_map(e).contains_key(k) && k != e.last().0 {
                assert(header_map(p).contains_key(k));
                let i = choose|i: int| 0 <= i < p.len() && p[i].0 == k;
                assert(e[i].0 == k);
            }
            if exists|i: int| 0 <= i < e.len() && e[i].0 == k {
                let i = choose|i: int| 0 <= i < e.len() && e[i].0 == k;
                if i < p.len() {
                    assert(p[i].0 == k);
                    assert(header_map(p).contains_key(k));
                }
            }
        }
        assert forall|i: int| #[trigger] is_last_of_name(e, i) implies header_map(e)[e[i].0]
            == e[i].1 by {
            if i < p.len() {
                assert(e.last().0 != e[i].0);
                assert(is_last_of_name(p, i));
            }
        }
    }
}

/// With unique names, every pair is found in the mapping.
pub proof fn lemma_unique_header_map(e: Seq<HeaderPair>)
    requires
        unique_names(e),
    ensures
        forall|k: Seq<u8>| #[trigger]
            header_map(e).contains_key(k) <==> exists|i: int| 0 <= i < e.len() && e[i].0 == k,
        forall|i: int|
            0 <= i < e.len() ==> #[trigger] header_map(e)[e[i].0] == e[i].1,
{
    lemma_header_map(e);
    assert forall|i: int| 0 <= i < e.len() implies #[trigger] header_map(e)[e[i].0] == e[i].1 by {
        assert(is_last_of_name(e, i));
    }
}

/// When pairs that share a name are equal, each pair is found in the mapping.
pub proof fn lemma_consistent_header_map(e: Seq<HeaderPair>)
    requires
        forall|i: int, j: int|
            0 <= i < e.len() && 0 <= j < e.len() && e[i].0 == e[j].0 ==> e[i] == e[j],
    ensures
        forall|i: int| 0 <= i < e.len() ==> #[trigger] header_map(e)[e[i].0] == e[i].1,
    decreases e.len(),
{
    if e.len() > 0 {
        let p = e.drop_last();
        lemma_consistent_header_map(p);
        assert(header_map(e) == header_map(p).insert(e.last().0, e.last().1));
        assert forall|i: int| 0 <= i < e.len() implies #[trigger] header_map(e)[e[i].0] == e[i].1 by {
            if i < p.len() && e[i].0 != e.last().0 {
                assert(p[i] == e[i]);
            }
        }
    }
}

/// A header block: names map to single values, the last write for a name
/// wins, and the order of first insertion is kept.
#[derive(Debug, Clone)]
pub struct Headers {
    entries: Vec<(Vec<u8>, Vec<u8>)>,
}

impl Headers {
    /// The pairs, in order of first insertion.
    pub closed spec fn pairs(&self) -> Seq<HeaderPair> {
        Seq::new(self.entries@.len(), |i: int| (self.entries@[i].0@, self.entries@[i].1@))
    }

    /// The mapping from name to value.
    pub open spec fn view(&self) -> Map<Seq<u8>, Seq<u8>> {
        header_map(self.pairs())
    }

    /// Names are unique among the pairs.
    pub open spec fn wf(&self) -> bool {
        unique_names(self.pairs())
    }

    /// An empty header block.
    pub fn new() -> (r: Headers)
        ensures
            r.wf(),
            r.pairs() == Seq::<HeaderPair>::empty(),
            r@ == Map::<Seq<u8>, Seq<u8>>::empty(),
    {
        let r = Headers { entries: Vec::new() };
        assert(r.pairs() =~= Seq::<HeaderPair>::empty());
        r
    }

    /// The number of distinct names.
    pub fn len(&self) -> (r: usize)
        ensures
            r == self.pairs().len(),
    {
        self.entries.len()
    }

    /// The pair at position `i`, in order of first insertion.
    pub fn pair_at(&self, i: usize) -> (r: (&Vec<u8>, &Vec<u8>))
        requires
            i < self.pairs().len(),
        ensures
            (r.0@, r.1@) == self.pairs()[i as int],
    {
        let e = &self.entries[i];
        (&e.0, &e.1)
    }

    /// The position of the pair named `name`, if there is one.
    fn position(&self, name: &[u8]) -> (r: Option<usize>)
        ensures
            r matches Some(i) ==> i < self.pairs().len() && self.pairs()[i as int].0 == name@,
            r is None ==> forall|i: int|
                0 <= i < self.pairs().len() ==> #[trigger] self.pairs()[i].0 != name@,
    {
        let mut i: usize = 0;
        while i < self.entries.len()
            invariant
                i <= self.pairs().len(),
                self.pairs().len() == self.entries@.len(),
                forall|j: int| 0 <= j < self.entries@.len() ==> #[trigger] self.pairs()[j] == (self.entries@[j].0@, self.entries@[j].1@),
                forall|j: int| 0 <= j < i ==> #[trigger] self.pairs()[j].0 != name@,
            decreases self.entries@.len() - i,
        {
            if bytes_eq(self.entries[i].0.as_slice(), name) {
                return Some(i);
            }
            i = i + 1;
        }
        None
    }

    /// The value stored under `name`.
    pub fn get(&self, name: &[u8]) -> (r: Option<&Vec<u8>>)
        requires
            self.wf(),
        ensures
            r is Some <==> self@.contains_key(name@),
            r matches Some(v) ==> v@ == self@[name@],
    {
        proof {
            lemma_unique_header_map(self.pairs());
        }
        match self.position(name) {
            Some(i) => Some(&self.entries[i].1),
            None => None,
        }
    }

    /// Stores `value` under `name`, replacing any earlier value; a new name
    /// goes after all others.
    pub fn insert(&mut self, name: Vec<u8>, value: Vec<u8>)
        requires
            old(self).wf(),
        ensures
            final(self).wf(),
            final(self)@ == old(self)@.insert(name@, value@),
            old(self)@.contains_key(name@) ==> final(self).pairs().len() == old(self).pairs().len(),
            !old(self)@.contains_key(name@) ==> final(self).pairs() == old(self).pairs().push(
                (name@, value@),
            ),
    {
        let ghost old_pairs = self.pairs();
        proof {
            lemma_unique_header_map(old_pairs);
        }
        match self.position(name.as_slice()) {
            Some(i) => {
                self.entries.set(i, (name, value));
                let ghost new_pairs = self.pairs();
                assert(new_pairs =~= old_pairs.update(i as int, (name@, value@)));
                assert(unique_names(new_pairs));
                proof {
                    lemma_unique_header_map(new_pairs);
                }
                assert(self@ =~= old(self)@.insert(name@, value@)) by {
                    assert forall|k: Seq<u8>| #[trigger] self@.contains_key(k) implies old(
                        self,
                    )@.insert(name@, value@).contains_key(k) by {
                        let j = choose|j: int| 0 <= j < new_pairs.len() && new_pairs[j].0 == k;
                        if j != i {
                            assert(old_pairs[j].0 == k);
                        }
                    }
                    assert forall|k: Seq<u8>| #[trigger] old(self)@.insert(
                        name@,
                        value@,
                    ).contains_key(k) implies self@.contains_key(k) && self@[k] == old(
                        self,
                    )@.insert(name@, value@)[k] by {
                        if k == name@ {
                            assert(new_pairs[i as int].0 == k);
                        } else {
                            let j = choose|j: int| 0 <= j < old_pairs.len() && old_pairs[j].0 == k;
                            assert(new_pairs[j] == old_pairs[j]);
                        }
                    }
                }
            },
            None => {
                self.entries.push((name, value));
                let ghost new_pairs = self.pairs();
                assert(new_pairs =~= old_pairs.push((name@, value@)));
                assert(new_pairs.drop_last() =~= old_pairs);
            },
        }
    }
}

} // verus!

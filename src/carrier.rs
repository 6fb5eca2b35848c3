//! A header carrier: header names mapped to header values, read by the
//! propagator through `get` and `keys`.
use vstd::prelude::*;

verus! {

/// Header names (case-sensitive, unique) mapped to header values.
pub struct HeaderCarrier {
    pub(crate) entries: Vec<(String, String)>,
}

impl HeaderCarrier {
    pub closed spec fn pairs(&self) -> Seq<(Seq<char>, Seq<char>)> {
        self.entries@.map_values(|e: (String, String)| (e.0@, e.1@))
    }

    /// No header name occurs twice.
    pub closed spec fn wf(&self) -> bool {
        forall|i: int, j: int|
            0 <= i < self.pairs().len() && 0 <= j < self.pairs().len() && #[trigger] self.pairs()[i].0
                == #[trigger] self.pairs()[j].0 ==> i == j
    }

    pub closed spec fn index_of(&self, k: Seq<char>) -> int {
        choose|i: int| 0 <= i < self.pairs().len() && self.pairs()[i].0 == k
    }

    proof fn lemma_index_of(&self, i: int)
        requires
            self.wf(),
            0 <= i < self.pairs().len(),
        ensures
            self.index_of(self.pairs()[i].0) == i,
            self@.contains_key(self.pairs()[i].0),
            self@[self.pairs()[i].0] == self.pairs()[i].1,
    {
        let k = self.pairs()[i].0;
        assert(exists|j: int| 0 <= j < self.pairs().len() && self.pairs()[j].0 == k);
    }

    /// An empty carrier.
    pub fn new() -> (r: HeaderCarrier)
        ensures
            r.wf(),
            r@ == Map::<Seq<char>, Seq<char>>::empty(),
    {
        let r = HeaderCarrier { entries: Vec::new() };
        assert(r@ =~= Map::<Seq<char>, Seq<char>>::empty());
        r
    }

    /// Sets the value of header `key`, replacing any earlier value.
    pub fn insert(&mut self, key: String, value: String)
        requires
            old(self).wf(),
        ensures
            final(self).wf(),
            final(self)@ == old(self)@.insert(key@, value@),
    {
        let n = self.entries.len();
        let mut i: usize = 0;
        while i < n
            invariant
                n == self.entries.len(),
                0 <= i <= n,
                *self == *old(self),
                self.wf(),
                forall|j: int| 0 <= j < i ==> #[trigger] self.pairs()[j].0 != key@,
            decreases n - i,
        {
            if self.entries[i].0 == key {
                let ghost pre = *self;
                assert(pre.pairs()[i as int].0 == key@);
                self.entries.set(i, (key, value));
                proof {
                    assert(self.pairs() =~= pre.pairs().update(i as int, (key@, value@)));
                    assert forall|j: int| 0 <= j < n implies #[trigger] self.pairs()[j].0 == pre.pairs()[j].0 by {}
                    assert(self.wf());
                    lemma_view_after_write(pre, *self, i as int, key@, value@);
                }
                return;
            }
            i = i + 1;
        }
        let ghost pre = *self;
        self.entries.push((key, value));
        proof {
            assert(self.pairs() =~= pre.pairs().push((key@, value@)));
            assert(self.wf());
            lemma_view_after_write(pre, *self, n as int, key@, value@);
        }
    }

    /// The value of header `key`, if the carrier holds one.
    pub fn get(&self, key: &str) -> (r: Option<&str>)
        requires
            self.wf(),
        ensures
            match r {
                Some(v) => self@.contains_key(key@) && v@ == self@[key@],
                None => !self@.contains_key(key@),
            },
    {
        let wanted = key.to_owned();
        let n = self.entries.len();
        let mut i: usize = 0;
        while i < n
            invariant
                n == self.entries.len(),
                0 <= i <= n,
                self.wf(),
                wanted@ == key@,
                forall|j: int| 0 <= j < i ==> #[trigger] self.pairs()[j].0 != key@,
            decreases n - i,
        {
            if self.entries[i].0 == wanted {
                proof {
                    self.lemma_index_of(i as int);
                }
                return Some(self.entries[i].1.as_str());
            }
            i = i + 1;
        }
        proof {
            if self@.contains_key(key@) {
                let j = self.index_of(key@);
            }
        }
        None
    }

    /// Every header name the carrier holds, each once, in no promised order.
    pub fn keys(&self) -> (r: Vec<&str>)
        requires
            self.wf(),
        ensures
            r@.len() == self@.len(),
            forall|i: int| 0 <= i < r@.len() ==> self@.contains_key(#[trigger] r@[i]@),
            forall|k: Seq<char>| #[trigger] self@.contains_key(k) ==> exists|i: int| 0 <= i < r@.len() && r@[i]@ == k,
            forall|i: int, j: int| 0 <= i < r@.len() && 0 <= j < r@.len() && i != j ==> r@[i]@ != r@[j]@,
    {
        let n = self.entries.len();
        let mut r: Vec<&str> = Vec::new();
        let mut i: usize = 0;
        while i < n
            invariant
                n == self.entries.len(),
                0 <= i <= n,
                self.wf(),
                r@.len() == i,
                forall|j: int| 0 <= j < i ==> (#[trigger] r@[j])@ == self.pairs()[j].0,
            decreases n - i,
        {
            r.push(self.entries[i].0.as_str());
            i = i + 1;
        }
        proof {
            assert forall|i: int| 0 <= i < r@.len() implies self@.contains_key(#[trigger] r@[i]@) by {
                self.lemma_index_of(i);
            }
            assert forall|k: Seq<char>| #[trigger] self@.contains_key(k) implies exists|i: int| 0 <= i < r@.len() && r@[i]@ == k by {
                let j = self.index_of(k);
                assert(r@[j]@ == k);
            }
            self.lemma_len();
        }
        r
    }

    proof fn lemma_len(&self)
        requires
            self.wf(),
        ensures
            self@.len() == self.pairs().len(),
    {
        let keys = self.pairs().map_values(|p: (Seq<char>, Seq<char>)| p.0);
        assert(keys.no_duplicates());
        keys.unique_seq_to_set();
        assert(keys.to_set() =~= self@.dom()) by {
            assert forall|k: Seq<char>| keys.to_set().contains(k) implies self@.dom().contains(k) by {
                let j = choose|j: int| 0 <= j < keys.len() && keys[j] == k;
                self.lemma_index_of(j);
            }
            assert forall|k: Seq<char>| self@.dom().contains(k) implies keys.to_set().contains(k) by {
                let j = self.index_of(k);
                assert(keys[j] == k);
            }
        }
    }

    /// The number of headers.
    pub fn len(&self) -> (r: usize)
        requires
            self.wf(),
        ensures
            r == self@.len(),
    {
        proof {
            self.lemma_len();
        }
        self.entries.len()
    }
}

/// Writing `(key, value)` at position `i` of a carrier, over the entry that
/// held `key` or as a new last entry, sets `key` to `value` in its map.
proof fn lemma_view_after_write(
    pre: HeaderCarrier,
    post: HeaderCarrier,
    i: int,
    key: Seq<char>,
    value: Seq<char>,
)
    requires
        pre.wf(),
        post.wf(),
        0 <= i < post.pairs().len(),
        post.pairs().len() == pre.pairs().len() || (post.pairs().len() == pre.pairs().len() + 1
            && i == pre.pairs().len()),
        post.pairs()[i] == (key, value),
        i < pre.pairs().len() ==> pre.pairs()[i].0 == key,
        forall|j: int| 0 <= j < pre.pairs().len() && j != i ==> #[trigger] post.pairs()[j] == pre.pairs()[j],
        forall|j: int| 0 <= j < pre.pairs().len() && j != i ==> #[trigger] pre.pairs()[j].0 != key,
    ensures
        post@ == pre@.insert(key, value),
{
    let target = pre@.insert(key, value);
    assert forall|k: Seq<char>| #[trigger] post@.contains_key(k) == target.contains_key(k) by {
        if target.contains_key(k) && k != key {
            let j = pre.index_of(k);
            assert(pre.pairs()[j].0 == k);
            assert(post.pairs()[j] == pre.pairs()[j]);
        }
        if k == key {
            assert(post.pairs()[i].0 == k);
        }
        if post@.contains_key(k) && k != key {
            let j = post.index_of(k);
            assert(pre.pairs()[j].0 == k);
        }
    }
    assert forall|k: Seq<char>| #[trigger] post@.contains_key(k) implies post@[k] == target[k] by {
        if k == key {
            post.lemma_index_of(i);
        } else {
            let j = post.index_of(k);
            assert(pre.pairs()[j].0 == k);
            pre.lemma_index_of(j);
            post.lemma_index_of(j);
        }
    }
    assert(post@ =~= target);
}

impl View for HeaderCarrier {
    type V = Map<Seq<char>, Seq<char>>;

    closed spec fn view(&self) -> Map<Seq<char>, Seq<char>> {
        Map::new(
            |k: Seq<char>| exists|i: int| 0 <= i < self.pairs().len() && self.pairs()[i].0 == k,
            |k: Seq<char>| self.pairs()[self.index_of(k)].1,
        )
    }
}

} // verus!

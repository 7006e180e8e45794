//! The table of header files already placed, keyed by their case-insensitive name.
use vstd::prelude::*;
use std::collections::HashMap;

verus! {

broadcast use vstd::std_specs::hash::group_hash_axioms;

/// A destination path, as the names of its components.
pub open spec fn path_view(p: Seq<Vec<u8>>) -> Seq<Seq<u8>> {
    p.map_values(|s: Vec<u8>| s@)
}

/// Whether some entry holds the key.
pub open spec fn has_key(s: Seq<(u64, Seq<Seq<u8>>)>, key: u64) -> bool {
    exists|i: int| 0 <= i < s.len() && (#[trigger] s[i]).0 == key
}

/// The entries after a claim of `key` for `path`: a new key is added at the end; a
/// known one leaves them as they were.
pub open spec fn after_claim(s: Seq<(u64, Seq<Seq<u8>>)>, key: u64, path: Seq<Seq<u8>>) -> Seq<
    (u64, Seq<Seq<u8>>),
> {
    if has_key(s, key) {
        s
    } else {
        s.push((key, path))
    }
}

/// No two entries share a key.
pub open spec fn keys_unique(s: Seq<(u64, Seq<Seq<u8>>)>) -> bool {
    forall|i: int, j: int| 0 <= i < j < s.len() ==> (#[trigger] s[i]).0 != (#[trigger] s[j]).0
}

/// The number of entries that hold the key.
pub open spec fn key_count(s: Seq<(u64, Seq<Seq<u8>>)>, key: u64) -> nat {
    s.filter(|e: (u64, Seq<Seq<u8>>)| e.0 == key).len()
}

/// Maps the key of each placed header to its destination; the first claim of a key
/// wins. The keys are also kept in the order of their claims.
pub struct DedupRegistry {
    paths: HashMap<u64, Vec<Vec<u8>>>,
    order: Vec<u64>,
}

impl View for DedupRegistry {
    type V = Seq<(u64, Seq<Seq<u8>>)>;

    closed spec fn view(&self) -> Seq<(u64, Seq<Seq<u8>>)> {
        self.order@.map_values(|k: u64| (k, path_view(self.paths@[k]@)))
    }
}

impl DedupRegistry {
    /// The map and the order hold the same keys, each once.
    pub closed spec fn consistent(&self) -> bool {
        &&& self.order@.no_duplicates()
        &&& forall|k: u64| self.paths@.contains_key(k) <==> self.order@.contains(k)
    }

    #[verifier::type_invariant]
    pub open spec fn keys_are_unique(&self) -> bool {
        self.wf() && self.consistent()
    }

    /// No two entries share a key; every registry satisfies this.
    pub open spec fn wf(&self) -> bool {
        keys_unique(self@)
    }

    /// An empty table.
    pub fn new() -> (r: DedupRegistry)
        ensures
            r@ == Seq::<(u64, Seq<Seq<u8>>)>::empty(),
    {
        let r = DedupRegistry { paths: HashMap::new(), order: Vec::new() };
        assert(r@ =~= Seq::<(u64, Seq<Seq<u8>>)>::empty());
        r
    }

    /// The number of entries.
    pub fn len(&self) -> (r: usize)
        ensures
            r == self@.len(),
    {
        self.order.len()
    }

    /// The destination of entry `i`.
    pub fn path_at(&self, i: usize) -> (r: &Vec<Vec<u8>>)
        requires
            i < self@.len(),
        ensures
            path_view(r@) == self@[i as int].1,
    {
        proof {
            use_type_invariant(self);
        }
        let key = self.order[i];
        assert(self.order@.contains(key));
        match self.paths.get(&key) {
            Some(p) => p,
            None => vstd::pervasive::unreached(),
        }
    }

    /// The destination recorded for the key, if any.
    pub fn get(&self, key: u64) -> (r: Option<&Vec<Vec<u8>>>)
        ensures
            self.wf(),
            r is None <==> !has_key(self@, key),
            r matches Some(p) ==> exists|i: int|
                0 <= i < self@.len() && self@[i].0 == key && self@[i].1 == path_view(p@),
    {
        proof {
            use_type_invariant(self);
        }
        let r = self.paths.get(&key);
        proof {
            assert(self@.len() == self.order@.len());
            if has_key(self@, key) {
                let i = choose|i: int| 0 <= i < self@.len() && (#[trigger] self@[i]).0 == key;
                assert(self.order@[i] == key);
                assert(self.order@.contains(key));
                assert(self.paths@.contains_key(key));
            }
            match r {
                Some(p) => {
                    assert(self.paths@.contains_key(key) && self.paths@[key] == *p);
                    assert(self.order@.contains(key));
                    let i = choose|i: int| 0 <= i < self.order@.len() && self.order@[i] == key;
                    assert(self@[i] == (key, path_view(self.paths@[key]@)));
                    assert(has_key(self@, key));
                },
                None => {
                    assert(!self.paths@.contains_key(key));
                },
            }
        }
        r
    }

    /// Checks for the key and, where it is new, records `path` for it, in one step.
    /// Returns whether this call recorded it, and so whether its caller is the one
    /// writer of that file.
    pub fn claim(&mut self, key: u64, path: Vec<Vec<u8>>) -> (r: bool)
        ensures
            old(self).wf(),
            final(self).wf(),
            r == !has_key(old(self)@, key),
            final(self)@ == after_claim(old(self)@, key, path_view(path@)),
    {
        proof {
            use_type_invariant(&*self);
        }
        let ghost pre = self@;
        let known = self.paths.contains_key(&key);
        proof {
            if has_key(pre, key) {
                let i = choose|i: int| 0 <= i < pre.len() && (#[trigger] pre[i]).0 == key;
                assert(self.order@[i] == key);
                assert(self.order@.contains(key));
            }
            if self.order@.contains(key) {
                let i = choose|i: int| 0 <= i < self.order@.len() && self.order@[i] == key;
                assert(pre[i].0 == key);
            }
        }
        if known {
            return false;
        }
        let mut taken = DedupRegistry { paths: HashMap::new(), order: Vec::new() };
        proof {
            assert(taken@ =~= Seq::<(u64, Seq<Seq<u8>>)>::empty());
        }
        std::mem::swap(self, &mut taken);
        let DedupRegistry { mut paths, mut order } = taken;
        let ghost old_paths = paths@;
        let ghost old_order = order@;
        let ghost pv = path_view(path@);
        paths.insert(key, path);
        order.push(key);
        proof {
            let grown = order@.map_values(|k: u64| (k, path_view(paths@[k]@)));
            assert forall|i: int| 0 <= i < old_order.len() implies old_order[i] != key by {
                assert(old_order.contains(old_order[i]));
            }
            assert(grown =~= pre.push((key, pv)));
            assert(order@.no_duplicates()) by {
                assert(order@ == old_order.push(key));
            }
            assert forall|k: u64| paths@.contains_key(k) <==> order@.contains(k) by {
                if order@.contains(k) && k != key {
                    let i = choose|i: int| 0 <= i < order@.len() && order@[i] == k;
                    assert(old_order[i] == k);
                    assert(old_order.contains(k));
                }
                if old_order.contains(k) {
                    let i = choose|i: int| 0 <= i < old_order.len() && old_order[i] == k;
                    assert(order@[i] == k);
                }
                if k == key {
                    assert(order@[old_order.len() as int] == key);
                }
            }
            assert(keys_unique(grown)) by {
                assert forall|i: int, j: int| 0 <= i < j < grown.len() implies (#[trigger] grown[i]).0
                    != (#[trigger] grown[j]).0 by {
                    assert(order@[i] != order@[j]);
                }
            }
        }
        *self = DedupRegistry { paths, order };
        true
    }
}

/// A claim keeps every key that was there and adds its own.
pub proof fn lemma_claim_keeps_keys(s: Seq<(u64, Seq<Seq<u8>>)>, key: u64, path: Seq<Seq<u8>>)
    ensures
        forall|k: u64| has_key(s, k) ==> has_key(after_claim(s, key, path), k),
        has_key(after_claim(s, key, path), key),
{
    let t = after_claim(s, key, path);
    assert forall|k: u64| has_key(s, k) implies has_key(t, k) by {
        let i = choose|i: int| 0 <= i < s.len() && (#[trigger] s[i]).0 == k;
        assert(t[i] == s[i]);
    }
    if !has_key(s, key) {
        assert(t[s.len() as int].0 == key);
    }
}

/// A key is recorded once, by its first claim: a later claim of it, with any path,
/// changes nothing, and the table holds exactly one entry for it.
pub proof fn lemma_first_claim_wins(
    s: Seq<(u64, Seq<Seq<u8>>)>,
    key: u64,
    first: Seq<Seq<u8>>,
    later: Seq<Seq<u8>>,
)
    requires
        keys_unique(s),
    ensures
        keys_unique(after_claim(s, key, first)),
        has_key(after_claim(s, key, first), key),
        after_claim(after_claim(s, key, first), key, later) == after_claim(s, key, first),
        key_count(after_claim(s, key, first), key) == 1,
{
    let s1 = after_claim(s, key, first);
    if has_key(s, key) {
        let i = choose|i: int| 0 <= i < s.len() && (#[trigger] s[i]).0 == key;
        lemma_single_key_count(s, key, i);
    } else {
        assert(s1[s.len() as int].0 == key);
        lemma_single_key_count(s1, key, s.len() as int);
    }
}

proof fn lemma_single_key_count(s: Seq<(u64, Seq<Seq<u8>>)>, key: u64, i: int)
    requires
        keys_unique(s),
        0 <= i < s.len(),
        s[i].0 == key,
    ensures
        key_count(s, key) == 1,
    decreases s.len(),
{
    let f = |e: (u64, Seq<Seq<u8>>)| e.0 == key;
    reveal(Seq::filter);
    let t = s.drop_last();
    assert(keys_unique(t));
    if i == s.len() - 1 {
        assert forall|j: int| 0 <= j < t.len() implies (#[trigger] t[j]).0 != key by {
            assert(s[j].0 != s[i].0);
        }
        lemma_no_key_count(t, key);
        assert(s.filter(f) == t.filter(f).push(s.last()));
    } else {
        assert(t[i] == s[i]);
        lemma_single_key_count(t, key, i);
        assert(s.last().0 != key) by {
            assert(s[i].0 != s[s.len() - 1].0);
        }
        assert(s.filter(f) == t.filter(f));
    }
}

proof fn lemma_no_key_count(s: Seq<(u64, Seq<Seq<u8>>)>, key: u64)
    requires
        forall|j: int| 0 <= j < s.len() ==> (#[trigger] s[j]).0 != key,
    ensures
        key_count(s, key) == 0,
    decreases s.len(),
{
    reveal(Seq::filter);
    if s.len() > 0 {
        let t = s.drop_last();
        assert forall|j: int| 0 <= j < t.len() implies (#[trigger] t[j]).0 != key by {
            assert(t[j] == s[j]);
        }
        lemma_no_key_count(t, key);
    }
}

} // verus!

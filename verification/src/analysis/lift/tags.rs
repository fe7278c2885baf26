//! Sparse provenance of memory bytes.
use vstd::prelude::*;
use std::collections::BTreeMap;
use std::rc::Rc;
use crate::analysis::lift::sym::{share, ByteProv, SymBytes};
use crate::plan::BytesTerm;

verus! {

/// What a [`ByteProv`] is.
pub struct Prov {
    pub src: BytesTerm,
    pub index: u32,
    pub stamp: (u64, u32),
}

impl ByteProv {
    pub open spec fn prov(self) -> Prov {
        Prov { src: self.src.term(), index: self.index, stamp: self.stamp }
    }

    fn copy(&self) -> (r: ByteProv)
        ensures
            r.prov() == self.prov(),
    {
        ByteProv { src: share(&self.src), index: self.index, stamp: self.stamp }
    }
}

impl Clone for ByteProv {
    fn clone(&self) -> (r: Self)
        ensures
            r.prov() == self.prov(),
    {
        self.copy()
    }
}

/// The provenance of those memory bytes that have one, by address.
pub struct Tags {
    map: BTreeMap<usize, ByteProv>,
}

impl Tags {
    pub closed spec fn raw(self) -> Map<usize, ByteProv> {
        self.map@
    }

    /// The tagged addresses with their provenance.
    pub open spec fn view(self) -> Map<int, Prov> {
        tag_map(self.raw())
    }

    pub fn new() -> (r: Tags)
        ensures
            r@ == Map::<int, Prov>::empty(),
    {
        let r = Tags { map: BTreeMap::new() };
        assert(r@ =~= Map::<int, Prov>::empty());
        r
    }

    fn raw_get(&self, at: &usize) -> (r: Option<&ByteProv>)
        ensures
            match r {
                Some(p) => self.raw().contains_key(*at) && *p == self.raw()[*at],
                None => !self.raw().contains_key(*at),
            },
    {
        broadcast use vstd::laws_cmp::group_laws_cmp;

        self.map.get(at)
    }

    fn raw_insert(&mut self, at: usize, p: ByteProv)
        ensures
            final(self).raw() == old(self).raw().insert(at, p),
    {
        broadcast use vstd::laws_cmp::group_laws_cmp;

        let _ = self.map.insert(at, p);
    }

    fn raw_remove(&mut self, at: &usize)
        ensures
            final(self).raw() == old(self).raw().remove(*at),
    {
        broadcast use vstd::laws_cmp::group_laws_cmp;

        let _ = self.map.remove(at);
    }

    /// The provenance of the byte at an address.
    pub fn get(&self, at: usize) -> (r: Option<&ByteProv>)
        ensures
            match r {
                Some(p) => self@.contains_key(at as int) && p.prov() == self@[at as int],
                None => !self@.contains_key(at as int),
            },
    {
        self.raw_get(&at)
    }

    /// Gives the byte at an address a provenance.
    pub fn insert(&mut self, at: usize, p: ByteProv)
        ensures
            final(self)@ == old(self)@.insert(at as int, p.prov()),
    {
        let ghost before = self.raw();
        self.raw_insert(at, p);
        proof {
            lemma_tag_insert(before, at, p);
        }
    }

    /// Takes the provenance from the byte at an address.
    pub fn remove(&mut self, at: usize)
        ensures
            final(self)@ == old(self)@.remove(at as int),
    {
        let ghost before = self.raw();
        self.raw_remove(&at);
        proof {
            lemma_tag_remove(before, at);
        }
    }

    /// Takes the provenance from `n` bytes.
    pub fn clear(&mut self, at: usize, n: usize)
        requires
            at + n <= usize::MAX,
        ensures
            final(self)@ == cleared(old(self)@, at as int, n as int),
    {
        let ghost before = self@;
        assert(cleared(before, at as int, 0) =~= before);
        for i in 0..n
            invariant
                at + n <= usize::MAX,
                self@ == cleared(before, at as int, i as int),
        {
            self.remove(at + i);
            assert(self@ =~= cleared(before, at as int, i + 1));
        }
    }

    /// Tags `n` bytes as the value of one source.
    pub fn tag(&mut self, at: usize, n: usize, src: &Rc<SymBytes>, stamp: (u64, u32))
        requires
            at + n <= usize::MAX,
        ensures
            final(self)@ == tagged(old(self)@, at as int, n as int, src.term(), stamp),
    {
        let ghost before = self@;
        assert(tagged(before, at as int, 0, src.term(), stamp) =~= before);
        for i in 0..n
            invariant
                at + n <= usize::MAX,
                self@ == tagged(before, at as int, i as int, src.term(), stamp),
        {
            self.insert(at + i, ByteProv { src: share(src), index: i as u32, stamp });
            assert(self@ =~= tagged(before, at as int, i + 1, src.term(), stamp));
        }
    }

    /// Gives `n` bytes from `dst` on the provenance of those from `src` on.
    pub fn carry(&mut self, src: usize, dst: usize, n: usize)
        requires
            src + n <= usize::MAX,
            dst + n <= usize::MAX,
        ensures
            final(self)@ == carried(old(self)@, src as int, dst as int, n as int),
    {
        let ghost before = self@;
        let mut moved: Vec<Option<ByteProv>> = Vec::new();
        for i in 0..n
            invariant
                src + n <= usize::MAX,
                self@ == before,
                moved@.len() == i,
                forall|j: int| 0 <= j < i ==> match #[trigger] moved@[j] {
                    Some(p) => before.contains_key(src + j) && before[src + j] == p.prov(),
                    None => !before.contains_key(src + j),
                },
        {
            let p = match self.get(src + i) {
                Some(p) => Some(p.copy()),
                None => None,
            };
            moved.push(p);
        }
        self.clear(dst, n);
        let ghost base = self@;
        let mut i: usize = n;
        assert(moved@.take(n as int) =~= moved@);
        let ghost all = moved@;
        while i > 0
            invariant
                i <= n,
                dst + n <= usize::MAX,
                moved@ == all.take(i as int),
                all.len() == n,
                base == cleared(before, dst as int, n as int),
                forall|j: int| 0 <= j < n ==> match #[trigger] all[j] {
                    Some(p) => before.contains_key(src + j) && before[src + j] == p.prov(),
                    None => !before.contains_key(src + j),
                },
                forall|k: int| #[trigger] self@.contains_key(k) <==> base.contains_key(k)
                    || (dst + i <= k < dst + n && before.contains_key(src + (k - dst))),
                forall|k: int| #[trigger] self@.contains_key(k) ==> self@[k] == (if dst + i <= k < dst + n {
                    before[src + (k - dst)]
                } else {
                    base[k]
                }),
            decreases i,
        {
            i = i - 1;
            let ghost was = self@;
            match moved.pop() {
                Some(Some(p)) => {
                    assert(all[i as int] == Some(p));
                    self.insert(dst + i, p);
                }
                _ => {
                    assert(all[i as int] is None);
                }
            }
            assert(moved@ =~= all.take(i as int));
            assert(!base.contains_key(dst + i));
        }
        assert(self@ =~= carried(before, src as int, dst as int, n as int));
    }
}

/// The tags, by mathematical address.
pub open spec fn tag_map(raw: Map<usize, ByteProv>) -> Map<int, Prov> {
    Map::new(
        |k: int| 0 <= k <= usize::MAX && raw.contains_key(k as usize),
        |k: int| raw[k as usize].prov(),
    )
}

proof fn lemma_tag_insert(raw: Map<usize, ByteProv>, at: usize, p: ByteProv)
    ensures
        tag_map(raw.insert(at, p)) == tag_map(raw).insert(at as int, p.prov()),
{
    assert(tag_map(raw.insert(at, p)) =~= tag_map(raw).insert(at as int, p.prov()));
}

proof fn lemma_tag_remove(raw: Map<usize, ByteProv>, at: usize)
    ensures
        tag_map(raw.remove(at)) == tag_map(raw).remove(at as int),
{
    assert(tag_map(raw.remove(at)) =~= tag_map(raw).remove(at as int));
}

/// The tags without those of `n` bytes from `at` on.
pub open spec fn cleared(tags: Map<int, Prov>, at: int, n: int) -> Map<int, Prov> {
    Map::new(|k: int| tags.contains_key(k) && !(at <= k < at + n), |k: int| tags[k])
}

/// The tags, with `n` bytes from `at` on tagged as the value of one source.
pub open spec fn tagged(tags: Map<int, Prov>, at: int, n: int, src: BytesTerm, stamp: (u64, u32)) -> Map<int, Prov> {
    Map::new(
        |k: int| tags.contains_key(k) || at <= k < at + n,
        |k: int| if at <= k < at + n { Prov { src, index: (k - at) as u32, stamp } } else { tags[k] },
    )
}

/// The tags, with those of `n` bytes from `dst` on replaced by those from `src` on.
pub open spec fn carried(tags: Map<int, Prov>, src: int, dst: int, n: int) -> Map<int, Prov> {
    Map::new(
        |k: int| if dst <= k < dst + n { tags.contains_key(src + (k - dst)) } else { tags.contains_key(k) },
        |k: int| if dst <= k < dst + n { tags[src + (k - dst)] } else { tags[k] },
    )
}

} // verus!

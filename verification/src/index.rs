//! A secondary index from an address to the set of offer ids filed under it.
//!
//! The index is an association list: one entry per address, each holding the
//! ids in insertion order. Removal swaps the last id of the entry into the
//! freed slot, so a removal touches only the one entry it names. The spec
//! view of an index is the function [`OfferIndex::ids_of`], the id sequence
//! filed under each address.

use vstd::prelude::*;
use crate::asset::bytes_eq;
use crate::asset::copy_bytes;

verus! {

/// The ids filed under one address.
pub struct IndexEntry {
    pub address: Vec<u8>,
    pub ids: Vec<u32>,
}

/// An index from addresses to id sequences.
pub struct OfferIndex {
    pub entries: Vec<IndexEntry>,
}

/// No value occurs at two positions of `s`.
pub open spec fn no_dup(s: Seq<u32>) -> bool {
    forall|p: int, q: int| 0 <= p < s.len() && 0 <= q < s.len() && s[p] == s[q] ==> p == q
}

/// Appending `v` adds exactly `v` to the members of `s`.
pub proof fn lemma_push_contains(s: Seq<u32>, v: u32, w: u32)
    ensures
        s.push(v).contains(w) <==> (s.contains(w) || w == v),
{
    if s.contains(w) {
        let i = choose|i: int| 0 <= i < s.len() && s[i] == w;
        assert(s.push(v)[i] == w);
    }
    if w == v {
        assert(s.push(v)[s.len() as int] == w);
    }
    if s.push(v).contains(w) {
        let i = choose|i: int| 0 <= i < s.push(v).len() && s.push(v)[i] == w;
        if i < s.len() {
            assert(s[i] == w);
        }
    }
}

/// The sequence `s` with its (unique) occurrence of `v` removed by swapping
/// the last element into its place.
pub open spec fn swap_removed(s: Seq<u32>, v: u32) -> Seq<u32>
    recommends
        s.contains(v),
{
    s.update(s.index_of(v), s.last()).drop_last()
}

impl OfferIndex {
    /// No two entries carry the same address.
    pub open spec fn keys_distinct(self) -> bool {
        forall|j: int, k: int|
            0 <= j < self.entries@.len() && 0 <= k < self.entries@.len() && j != k
                ==> self.entries@[j].address@ != self.entries@[k].address@
    }

    /// Well-formed: addresses are distinct and no entry lists an id twice.
    pub open spec fn wf(self) -> bool {
        &&& self.keys_distinct()
        &&& forall|k: int|
            0 <= k < self.entries@.len() ==> no_dup(#[trigger] self.entries@[k].ids@)
    }

    /// Some entry carries `addr`.
    pub open spec fn has_address(self, addr: Seq<u8>) -> bool {
        exists|k: int| 0 <= k < self.entries@.len() && self.entries@[k].address@ == addr
    }

    /// The ids filed under `addr`, in order; empty when no entry carries it.
    pub open spec fn ids_of(self, addr: Seq<u8>) -> Seq<u32> {
        if self.has_address(addr) {
            self.entries@[choose|k: int|
                0 <= k < self.entries@.len() && self.entries@[k].address@ == addr].ids@
        } else {
            Seq::<u32>::empty()
        }
    }

    /// With distinct keys, the entry at `k` is the one `ids_of` reads.
    pub proof fn lemma_ids_of_at(self, k: int)
        requires
            self.keys_distinct(),
            0 <= k < self.entries@.len(),
        ensures
            self.ids_of(self.entries@[k].address@) == self.entries@[k].ids@,
    {
        let addr = self.entries@[k].address@;
        assert(self.has_address(addr));
        let k2 = choose|k2: int|
            0 <= k2 < self.entries@.len() && self.entries@[k2].address@ == addr;
        assert(k2 == k);
    }

    /// Every list the index hands out is duplicate-free.
    pub proof fn lemma_ids_of_no_dup(self, addr: Seq<u8>)
        requires
            self.wf(),
        ensures
            no_dup(self.ids_of(addr)),
    {
        if self.has_address(addr) {
            let k = choose|k: int|
                0 <= k < self.entries@.len() && self.entries@[k].address@ == addr;
            assert(no_dup(self.entries@[k].ids@));
        }
    }

    /// Replacing the list of one entry leaves every other address untouched.
    proof fn lemma_ids_of_update_entry(pre: OfferIndex, post: OfferIndex, k: int)
        requires
            pre.keys_distinct(),
            0 <= k < pre.entries@.len(),
            post.entries@.len() == pre.entries@.len(),
            post.entries@[k].address@ == pre.entries@[k].address@,
            forall|j: int|
                0 <= j < pre.entries@.len() && j != k ==> post.entries@[j] == pre.entries@[j],
        ensures
            post.keys_distinct(),
            forall|a: Seq<u8>|
                a != pre.entries@[k].address@ ==> post.ids_of(a) == pre.ids_of(a),
    {
        assert forall|j: int| 0 <= j < pre.entries@.len() implies post.entries@[j].address@
            == pre.entries@[j].address@ by {}
        assert forall|a: Seq<u8>| a != pre.entries@[k].address@ implies post.ids_of(a)
            == pre.ids_of(a) by {
            if post.has_address(a) {
                let j = choose|j: int|
                    0 <= j < post.entries@.len() && post.entries@[j].address@ == a;
                assert(pre.has_address(a));
                pre.lemma_ids_of_at(j);
                post.lemma_ids_of_at(j);
                assert(j != k);
            } else {
                assert(!pre.has_address(a));
            }
        }
    }

    /// Appending an entry with a fresh address leaves every other address untouched.
    proof fn lemma_ids_of_push_entry(pre: OfferIndex, post: OfferIndex, e: IndexEntry)
        requires
            pre.keys_distinct(),
            !pre.has_address(e.address@),
            post.entries@ == pre.entries@.push(e),
        ensures
            post.keys_distinct(),
            post.ids_of(e.address@) == e.ids@,
            forall|a: Seq<u8>| a != e.address@ ==> post.ids_of(a) == pre.ids_of(a),
    {
        let n = pre.entries@.len() as int;
        assert forall|j: int, k: int|
            0 <= j < post.entries@.len() && 0 <= k < post.entries@.len() && j != k implies
            post.entries@[j].address@ != post.entries@[k].address@ by {
            if j < n && k < n {
            } else if j == n {
                assert(post.entries@[k].address@ == pre.entries@[k].address@);
            } else {
                assert(post.entries@[j].address@ == pre.entries@[j].address@);
            }
        }
        assert(post.entries@[n].address@ == e.address@);
        post.lemma_ids_of_at(n);
        assert forall|a: Seq<u8>| a != e.address@ implies post.ids_of(a) == pre.ids_of(a) by {
            if post.has_address(a) {
                let j = choose|j: int|
                    0 <= j < post.entries@.len() && post.entries@[j].address@ == a;
                assert(j != n);
                assert(pre.entries@[j].address@ == a);
                assert(pre.has_address(a));
                pre.lemma_ids_of_at(j);
                post.lemma_ids_of_at(j);
            } else {
                if pre.has_address(a) {
                    let j = choose|j: int|
                        0 <= j < pre.entries@.len() && pre.entries@[j].address@ == a;
                    assert(post.entries@[j].address@ == a);
                }
            }
        }
    }

    /// An empty index: nothing is filed under any address.
    pub fn empty() -> (r: OfferIndex)
        ensures
            r.wf(),
            forall|a: Seq<u8>| r.ids_of(a) == Seq::<u32>::empty(),
    {
        OfferIndex { entries: Vec::new() }
    }

    /// Files `id` under `address`, at the end of its list.
    pub fn insert(&mut self, address: &Vec<u8>, id: u32)
        requires
            old(self).wf(),
            forall|a: Seq<u8>| !(#[trigger] old(self).ids_of(a)).contains(id),
        ensures
            final(self).wf(),
            final(self).ids_of(address@) == old(self).ids_of(address@).push(id),
            forall|a: Seq<u8>|
                a != address@ ==> final(self).ids_of(a) == old(self).ids_of(a),
    {
        let ghost pre = *self;
        let n = self.entries.len();
        let mut k: usize = 0;
        while k < n
            invariant
                pre == *old(self),
                *self == pre,
                pre.wf(),
                forall|a: Seq<u8>| !(#[trigger] pre.ids_of(a)).contains(id),
                n == self.entries@.len(),
                k <= n,
                forall|j: int| 0 <= j < k ==> self.entries@[j].address@ != address@,
            decreases n - k,
        {
            if bytes_eq(&self.entries[k].address, address) {
                proof {
                    pre.lemma_ids_of_at(k as int);
                    assert(!pre.entries@[k as int].ids@.contains(id));
                }
                self.entries[k].ids.push(id);
                proof {
                    OfferIndex::lemma_ids_of_update_entry(pre, *self, k as int);
                    self.lemma_ids_of_at(k as int);
                    let s0 = pre.entries@[k as int].ids@;
                    let s1 = self.entries@[k as int].ids@;
                    assert(s1 == s0.push(id));
                    assert forall|p: int, q: int|
                        0 <= p < s1.len() && 0 <= q < s1.len() && s1[p] == s1[q] implies p == q by {
                        if p < s0.len() && q < s0.len() {
                        } else if p == s0.len() && q < s0.len() {
                            assert(s0[q] == id);
                            assert(s0.contains(id));
                        } else if q == s0.len() && p < s0.len() {
                            assert(s0[p] == id);
                            assert(s0.contains(id));
                        }
                    }
                    assert forall|j: int|
                        0 <= j < self.entries@.len() implies no_dup(
                        #[trigger] self.entries@[j].ids@) by {
                        if j != k as int {
                            assert(self.entries@[j] == pre.entries@[j]);
                        }
                    }
                }
                return ;
            }
            k += 1;
        }
        proof {
            assert(!pre.has_address(address@));
            assert(pre.ids_of(address@) == Seq::<u32>::empty());
        }
        let mut ids: Vec<u32> = Vec::new();
        ids.push(id);
        let entry = IndexEntry { address: copy_bytes(address), ids };
        self.entries.push(entry);
        proof {
            OfferIndex::lemma_ids_of_push_entry(pre, *self, self.entries@.last());
            assert(self.ids_of(address@) =~= pre.ids_of(address@).push(id));
            assert forall|j: int|
                0 <= j < self.entries@.len() implies no_dup(#[trigger] self.entries@[j].ids@) by {
                if j < pre.entries@.len() {
                    assert(self.entries@[j] == pre.entries@[j]);
                }
            }
        }
    }
    /// Takes `id` out of the list filed under `address`, swapping the list's
    /// last id into its place.
    pub fn remove(&mut self, address: &Vec<u8>, id: u32)
        requires
            old(self).wf(),
            old(self).ids_of(address@).contains(id),
        ensures
            final(self).wf(),
            final(self).ids_of(address@) == swap_removed(old(self).ids_of(address@), id),
            final(self).ids_of(address@).len() == old(self).ids_of(address@).len() - 1,
            !final(self).ids_of(address@).contains(id),
            forall|w: u32|
                w != id ==> final(self).ids_of(address@).contains(w) == old(self).ids_of(
                    address@,
                ).contains(w),
            forall|a: Seq<u8>|
                a != address@ ==> final(self).ids_of(a) == old(self).ids_of(a),
    {
        let ghost pre = *self;
        let n = self.entries.len();
        let mut k: usize = 0;
        while k < n
            invariant
                pre == *old(self),
                *self == pre,
                pre.wf(),
                pre.ids_of(address@).contains(id),
                n == self.entries@.len(),
                k <= n,
                forall|j: int| 0 <= j < k ==> self.entries@[j].address@ != address@,
            decreases n - k,
        {
            if bytes_eq(&self.entries[k].address, address) {
                proof {
                    pre.lemma_ids_of_at(k as int);
                }
                let ghost s0 = self.entries@[k as int].ids@;
                let m = self.entries[k].ids.len();
                let mut j: usize = 0;
                while j < m
                    invariant
                        pre == *old(self),
                        *self == pre,
                        pre.wf(),
                        0 <= k < self.entries@.len(),
                        s0 == self.entries@[k as int].ids@,
                        self.entries@[k as int].address@ == address@,
                        pre.ids_of(address@) == s0,
                        s0.contains(id),
                        no_dup(s0),
                        m == s0.len(),
                        j <= m,
                        forall|p: int| 0 <= p < j ==> s0[p] != id,
                    decreases m - j,
                {
                    if self.entries[k].ids[j] == id {
                        self.entries[k].ids.swap_remove(j);
                        proof {
                            let s1 = self.entries@[k as int].ids@;
                            assert(s1 == s0.update(j as int, s0.last()).drop_last());
                            assert(s0.index_of(id) == j as int) by {
                                let i0 = s0.index_of(id);
                                assert(s0[i0] == id && 0 <= i0 < s0.len());
                            }
                            assert(s1 == swap_removed(s0, id));
                            assert forall|q: int| 0 <= q < s1.len() implies s1[q] != id by {
                                if q != j as int {
                                    assert(s1[q] == s0[q]);
                                } else {
                                    assert(s1[q] == s0[s0.len() - 1]);
                                }
                            }
                            assert(!s1.contains(id));
                            assert forall|w: u32| w != id implies s1.contains(w) == s0.contains(
                                w,
                            ) by {
                                if s0.contains(w) {
                                    let p = choose|p: int| 0 <= p < s0.len() && s0[p] == w;
                                    if p < s0.len() - 1 {
                                        if p == j as int {
                                            assert(false);
                                        }
                                        assert(s1[p] == w);
                                        assert(s1.contains(w));
                                    } else {
                                        assert((j as int) < s0.len() - 1);
                                        assert(s1[j as int] == s0.last());
                                        assert(s1.contains(w));
                                    }
                                }
                                if s1.contains(w) {
                                    let q = choose|q: int| 0 <= q < s1.len() && s1[q] == w;
                                    if q == j as int {
                                        assert(s0[s0.len() - 1] == w);
                                    } else {
                                        assert(s0[q] == w);
                                    }
                                    assert(s0.contains(w));
                                }
                            }
                            assert(no_dup(s1)) by {
                                assert forall|p: int, q: int|
                                    0 <= p < s1.len() && 0 <= q < s1.len() && s1[p] == s1[q]
                                    implies p == q by {
                                    if p != j as int && q != j as int {
                                        assert(s1[p] == s0[p] && s1[q] == s0[q]);
                                    } else if p == j as int && q != j as int {
                                        assert(s1[p] == s0[s0.len() - 1] && s1[q] == s0[q]);
                                    } else if q == j as int && p != j as int {
                                        assert(s1[q] == s0[s0.len() - 1] && s1[p] == s0[p]);
                                    }
                                }
                            }
                            OfferIndex::lemma_ids_of_update_entry(pre, *self, k as int);
                            self.lemma_ids_of_at(k as int);
                            assert forall|jj: int|
                                0 <= jj < self.entries@.len() implies no_dup(
                                #[trigger] self.entries@[jj].ids@) by {
                                if jj != k as int {
                                    assert(self.entries@[jj] == pre.entries@[jj]);
                                }
                            }
                        }
                        return ;
                    }
                    j += 1;
                }
                proof {
                    let p = choose|p: int| 0 <= p < s0.len() && s0[p] == id;
                    assert(false);
                }
                return ;
            }
            k += 1;
        }
        proof {
            assert(pre.has_address(address@));
            let kk = choose|kk: int|
                0 <= kk < pre.entries@.len() && pre.entries@[kk].address@ == address@;
            assert(false);
        }
    }

    /// The ids filed under `address`, as a fresh vector.
    pub fn get_ids(&self, address: &Vec<u8>) -> (r: Vec<u32>)
        requires
            self.keys_distinct(),
        ensures
            r@ == self.ids_of(address@),
    {
        let n = self.entries.len();
        let mut k: usize = 0;
        while k < n
            invariant
                self.keys_distinct(),
                n == self.entries@.len(),
                k <= n,
                forall|j: int| 0 <= j < k ==> self.entries@[j].address@ != address@,
            decreases n - k,
        {
            if bytes_eq(&self.entries[k].address, address) {
                proof {
                    self.lemma_ids_of_at(k as int);
                }
                let m = self.entries[k].ids.len();
                let mut r: Vec<u32> = Vec::new();
                let mut i: usize = 0;
                while i < m
                    invariant
                        0 <= k < self.entries@.len(),
                        m == self.entries@[k as int].ids@.len(),
                        i <= m,
                        r@ =~= self.entries@[k as int].ids@.subrange(0, i as int),
                    decreases m - i,
                {
                    let v = self.entries[k].ids[i];
                    r.push(v);
                    i += 1;
                }
                proof {
                    assert(r@ =~= self.entries@[k as int].ids@);
                }
                return r;
            }
            k += 1;
        }
        proof {
            assert(!self.has_address(address@));
        }
        Vec::new()
    }
}

} // verus!

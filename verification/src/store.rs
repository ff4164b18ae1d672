use vstd::prelude::*;

verus! {

/// One secondary-index entry: the ids recorded for one owner principal, in
/// insertion order.
pub struct IndexEntry<T> {
    pub owner: u64,
    pub ids: Vec<T>,
}

/// A secondary index from an owner principal to the append-only list of
/// record ids created for it, in creation order. Owners appear at most once;
/// an owner without an entry owns no ids. Both engines maintain their
/// per-principal indices with this type.
pub struct IdIndex<T> {
    pub entries: Vec<IndexEntry<T>>,
}

/// The ids recorded for `owner`: the first matching entry's list, or empty
/// if the owner has no entry. A well-formed index holds at most one entry
/// per owner, so the first match is the only one.
pub open spec fn ids_of_entries<T>(entries: Seq<IndexEntry<T>>, owner: u64) -> Seq<T>
    decreases entries.len(),
{
    if entries.len() == 0 {
        Seq::empty()
    } else if entries[0].owner == owner {
        entries[0].ids@
    } else {
        ids_of_entries(entries.drop_first(), owner)
    }
}

/// Skipping a prefix with no entry for `owner` does not change the lookup.
proof fn lemma_ids_of_skip<T>(entries: Seq<IndexEntry<T>>, owner: u64, i: int)
    requires
        0 <= i <= entries.len(),
        forall|j: int| 0 <= j < i ==> entries[j].owner != owner,
    ensures
        ids_of_entries(entries, owner) == ids_of_entries(entries.skip(i), owner),
    decreases i,
{
    if i > 0 {
        lemma_ids_of_skip(entries.drop_first(), owner, i - 1);
        assert(entries.drop_first().skip(i - 1) =~= entries.skip(i));
    } else {
        assert(entries.skip(0) =~= entries);
    }
}

/// Lookups for other owners ignore a newly pushed entry.
proof fn lemma_ids_of_push_other<T>(entries: Seq<IndexEntry<T>>, e: IndexEntry<T>, owner: u64)
    requires
        owner != e.owner,
    ensures
        ids_of_entries(entries.push(e), owner) == ids_of_entries(entries, owner),
    decreases entries.len(),
{
    if entries.len() == 0 {
        assert(entries.push(e)[0] == e);
        assert(entries.push(e).drop_first() =~= Seq::<IndexEntry<T>>::empty());
        assert(ids_of_entries(Seq::<IndexEntry<T>>::empty(), owner) == Seq::<T>::empty());
        assert(ids_of_entries(entries.push(e), owner) == Seq::<T>::empty());
        assert(ids_of_entries(entries, owner) == Seq::<T>::empty());
    } else if entries[0].owner != owner {
        assert(entries.push(e)[0] == entries[0]);
        assert(entries.push(e).drop_first() =~= entries.drop_first().push(e));
        lemma_ids_of_push_other(entries.drop_first(), e, owner);
    } else {
        assert(entries.push(e)[0] == entries[0]);
    }
}

/// Pushing the first entry for an owner makes its list visible.
proof fn lemma_ids_of_push_new<T>(entries: Seq<IndexEntry<T>>, e: IndexEntry<T>)
    requires
        forall|j: int| 0 <= j < entries.len() ==> entries[j].owner != e.owner,
    ensures
        ids_of_entries(entries.push(e), e.owner) == e.ids@,
    decreases entries.len(),
{
    if entries.len() == 0 {
    } else {
        assert(entries.push(e).drop_first() =~= entries.drop_first().push(e));
        lemma_ids_of_push_new(entries.drop_first(), e);
    }
}

/// Replacing an entry by one with the same owner leaves every other owner's
/// lookup unchanged.
proof fn lemma_ids_of_update_other<T>(
    entries: Seq<IndexEntry<T>>,
    i: int,
    e: IndexEntry<T>,
    owner: u64,
)
    requires
        0 <= i < entries.len(),
        e.owner == entries[i].owner,
        owner != e.owner,
    ensures
        ids_of_entries(entries.update(i, e), owner) == ids_of_entries(entries, owner),
    decreases entries.len(),
{
    if i == 0 {
        assert(entries.update(0, e).drop_first() =~= entries.drop_first());
    } else if entries[0].owner == owner {
        assert(entries.update(i, e)[0] == entries[0]);
    } else {
        assert(entries.update(i, e).drop_first() =~= entries.drop_first().update(i - 1, e));
        lemma_ids_of_update_other(entries.drop_first(), i - 1, e, owner);
    }
}

/// Copies a list of plain ids.
pub fn copy_list<T: Copy>(v: &Vec<T>) -> (r: Vec<T>)
    ensures
        r@ == v@,
{
    let n = v.len();
    let mut r: Vec<T> = Vec::new();
    let mut i: usize = 0;
    #[verifier::loop_isolation(false)]
    while i < n
        invariant
            i <= n,
            r@ == v@.take(i as int),
        decreases n - i,
    {
        r.push(v[i]);
        proof {
            assert(v@.take(i + 1) =~= v@.take(i as int).push(v@[i as int]));
        }
        i += 1;
    }
    proof {
        assert(v@.take(n as int) =~= v@);
    }
    r
}

/// Whether a list of principals contains `x`.
pub fn contains_principal(v: &Vec<u64>, x: u64) -> (r: bool)
    ensures
        r == v@.contains(x),
{
    let n = v.len();
    let mut i: usize = 0;
    #[verifier::loop_isolation(false)]
    while i < n
        invariant
            i <= n,
            forall|j: int| 0 <= j < i ==> v@[j] != x,
        decreases n - i,
    {
        if v[i] == x {
            return true;
        }
        i += 1;
    }
    false
}

impl<T: Copy> IdIndex<T> {
    /// The ids recorded for `owner`, in insertion order.
    pub open spec fn ids_of(self, owner: u64) -> Seq<T> {
        ids_of_entries(self.entries@, owner)
    }

    /// At most one entry per owner.
    pub open spec fn wf(self) -> bool {
        forall|i: int, j: int|
            0 <= i < j < self.entries@.len() ==> self.entries@[i].owner
                != self.entries@[j].owner
    }

    /// An empty index: every owner's list is empty.
    pub fn new() -> (s: Self)
        ensures
            s.wf(),
            forall|o: u64| s.ids_of(o) == Seq::<T>::empty(),
    {
        IdIndex { entries: Vec::new() }
    }

    /// Returns a copy of the id list recorded for `owner` (empty if none).
    pub fn get_ids(&self, owner: u64) -> (r: Vec<T>)
        ensures
            r@ == self.ids_of(owner),
    {
        let n = self.entries.len();
        let mut i: usize = 0;
        #[verifier::loop_isolation(false)]
        while i < n
            invariant
                i <= n,
                forall|j: int| 0 <= j < i ==> self.entries@[j].owner != owner,
            decreases n - i,
        {
            if self.entries[i].owner == owner {
                proof {
                    lemma_ids_of_skip(self.entries@, owner, i as int);
                    assert(self.entries@.skip(i as int)[0] == self.entries@[i as int]);
                }
                return copy_list(&self.entries[i].ids);
            }
            i += 1;
        }
        proof {
            lemma_ids_of_skip(self.entries@, owner, n as int);
            assert(self.entries@.skip(n as int) =~= Seq::<IndexEntry<T>>::empty());
        }
        Vec::new()
    }

    /// Appends `id` to `owner`'s list, creating the entry on the owner's
    /// first id. No other owner's list changes.
    pub fn push_id(&mut self, owner: u64, id: T)
        requires
            old(self).wf(),
        ensures
            final(self).wf(),
            final(self).ids_of(owner) == old(self).ids_of(owner).push(id),
            forall|o: u64| o != owner ==> final(self).ids_of(o) == old(self).ids_of(o),
    {
        let n = self.entries.len();
        let mut i: usize = 0;
        #[verifier::loop_isolation(false)]
        while i < n
            invariant
                i <= n,
                *self == *old(self),
                forall|j: int| 0 <= j < i ==> self.entries@[j].owner != owner,
            decreases n - i,
        {
            if self.entries[i].owner == owner {
                self.entries[i].ids.push(id);
                proof {
                    let oe = old(self).entries@;
                    let ne = self.entries@;
                    assert(ne =~= oe.update(
                        i as int,
                        IndexEntry { owner, ids: ne[i as int].ids },
                    ));
                    lemma_ids_of_skip(oe, owner, i as int);
                    assert(oe.skip(i as int)[0] == oe[i as int]);
                    lemma_ids_of_skip(ne, owner, i as int);
                    assert(ne.skip(i as int)[0] == ne[i as int]);
                    assert(ne[i as int].ids@ =~= oe[i as int].ids@.push(id));
                    assert forall|o: u64| o != owner implies ids_of_entries(ne, o)
                        == ids_of_entries(oe, o) by {
                        lemma_ids_of_update_other(oe, i as int, ne[i as int], o);
                    }
                }
                return ;
            }
            i += 1;
        }
        let mut ids: Vec<T> = Vec::new();
        ids.push(id);
        let entry = IndexEntry { owner, ids };
        self.entries.push(entry);
        proof {
            let oe = old(self).entries@;
            lemma_ids_of_skip(oe, owner, n as int);
            assert(oe.skip(n as int) =~= Seq::<IndexEntry<T>>::empty());
            lemma_ids_of_push_new(oe, self.entries@.last());
            assert(self.entries@.last().ids@ =~= old(self).ids_of(owner).push(id));
            assert forall|o: u64| o != owner implies ids_of_entries(self.entries@, o)
                == ids_of_entries(oe, o) by {
                lemma_ids_of_push_other(oe, self.entries@.last(), o);
            }
        }
    }
}

} // verus!

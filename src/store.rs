use slab::Slab;
use vstd::prelude::*;

verus! {

/// A product record. It carries no fields yet: what the service observes of
/// a record is whether it exists.
#[derive(Clone, Copy, Debug, PartialEq, Eq, Structural)]
pub struct ProductData;

/// The text a record is shown as.
pub open spec fn product_text() -> Seq<u8> {
    seq![123u8, 125u8]
}

impl ProductData {
    /// The record's textual form, `{}`.
    pub fn text(&self) -> (r: Vec<u8>)
        ensures
            r@ == product_text(),
    {
        vec![123u8, 125u8]
    }
}

/// Beyond this many slots a slab whose free list is empty may not grow:
/// its entry vector could then pass `isize::MAX` bytes.
pub const SLOT_LIMIT: usize = usize::MAX / 128;

#[verifier::external_type_specification]
#[verifier::external_body]
#[verifier::reject_recursive_types(T)]
pub struct ExSlab<T>(Slab<T>);

/// The records a slab holds, by key.
pub uninterp spec fn slab_items(s: Slab<ProductData>) -> Map<usize, ProductData>;

/// The slab's chain of vacant slots, the most recently freed last: the next
/// insertion takes the last one.
pub uninterp spec fn slab_vacant(s: Slab<ProductData>) -> Seq<usize>;

/// The number of slots the slab has, occupied or vacant.
pub uninterp spec fn slab_slots(s: Slab<ProductData>) -> nat;

/// Relies on `Slab::new`: no slots, so no records and no vacant chain.
#[verifier::external_body]
fn slab_new() -> (r: Slab<ProductData>)
    ensures
        slab_items(r).dom() == Set::<usize>::empty(),
        slab_vacant(r) == Seq::<usize>::empty(),
        slab_slots(r) == 0,
{
    Slab::new()
}

/// Relies on `Slab::insert`: the value goes to the slot at the head of the
/// vacant chain (`next`), or to a new slot pushed at the end when the chain
/// is empty; the key of that slot is returned.
#[verifier::external_body]
fn slab_insert(s: &mut Slab<ProductData>, v: ProductData) -> (k: usize)
    requires
        slab_vacant(*old(s)).len() > 0 || slab_slots(*old(s)) < SLOT_LIMIT,
    ensures
        slab_vacant(*old(s)).len() == 0 ==> k == slab_slots(*old(s)),
        slab_vacant(*old(s)).len() == 0 ==> slab_slots(*final(s)) == slab_slots(*old(s)) + 1,
        slab_vacant(*old(s)).len() == 0 ==> slab_vacant(*final(s)) == slab_vacant(*old(s)),
        slab_vacant(*old(s)).len() > 0 ==> k == slab_vacant(*old(s)).last(),
        slab_vacant(*old(s)).len() > 0 ==> slab_slots(*final(s)) == slab_slots(*old(s)),
        slab_vacant(*old(s)).len() > 0 ==> slab_vacant(*final(s)) == slab_vacant(
            *old(s),
        ).drop_last(),
        slab_items(*final(s)) == slab_items(*old(s)).insert(k, v),
{
    s.insert(v)
}

/// Relies on `Slab::contains`: whether the key holds a record.
#[verifier::external_body]
fn slab_contains(s: &Slab<ProductData>, k: usize) -> (r: bool)
    ensures
        r == slab_items(*s).contains_key(k),
{
    s.contains(k)
}

/// Relies on `Slab::get`: the record under the key, if there is one.
#[verifier::external_body]
fn slab_get(s: &Slab<ProductData>, k: usize) -> (r: Option<&ProductData>)
    ensures
        r is None <==> !slab_items(*s).contains_key(k),
        r matches Some(v) ==> *v == slab_items(*s)[k],
{
    s.get(k)
}

/// Relies on `Slab`'s `IndexMut`: overwrites the record of an occupied slot
/// (it panics on a vacant one).
#[verifier::external_body]
fn slab_set(s: &mut Slab<ProductData>, k: usize, v: ProductData)
    requires
        slab_items(*old(s)).contains_key(k),
    ensures
        slab_items(*final(s)) == slab_items(*old(s)).insert(k, v),
        slab_vacant(*final(s)) == slab_vacant(*old(s)),
        slab_slots(*final(s)) == slab_slots(*old(s)),
{
    s[k] = v;
}

/// Relies on `Slab::remove`: takes the record out of an occupied slot (it
/// panics on a vacant one) and puts the slot at the head of the vacant chain.
#[verifier::external_body]
fn slab_remove(s: &mut Slab<ProductData>, k: usize) -> (v: ProductData)
    requires
        slab_items(*old(s)).contains_key(k),
    ensures
        v == slab_items(*old(s))[k],
        slab_items(*final(s)) == slab_items(*old(s)).remove(k),
        slab_vacant(*final(s)) == slab_vacant(*old(s)).push(k),
        slab_slots(*final(s)) == slab_slots(*old(s)),
{
    s.remove(k)
}

/// Whether a sequence of ids is strictly increasing.
pub open spec fn ascending(ids: Seq<usize>) -> bool {
    forall|i: int, j: int| 0 <= i < j < ids.len() ==> ids[i] < ids[j]
}

/// Relies on `Slab::iter`: it walks the slots in key order and yields the
/// occupied ones, so the keys come out increasing, each live key once.
#[verifier::external_body]
fn slab_keys(s: &Slab<ProductData>) -> (r: Vec<usize>)
    ensures
        ascending(r@),
        r@.to_set() == slab_items(*s).dom(),
{
    s.iter().map(|(k, _)| k).collect()
}


/// What a store is, seen from outside: the live records by id, the stack
/// of freed ids (the most recently freed last), and the number of ids ever
/// handed out.
pub ghost struct StoreView {
    pub items: Map<usize, ProductData>,
    pub vacant: Seq<usize>,
    pub slots: nat,
}

impl StoreView {
    /// Every id below `slots` is either live or free, never both; a free id
    /// is on the stack once.
    pub open spec fn wf(self) -> bool {
        &&& self.slots <= usize::MAX
        &&& self.items.dom().finite()
        &&& self.items.dom().len() + self.vacant.len() == self.slots
        &&& forall|k: usize| self.items.contains_key(k) ==> k < self.slots
        &&& forall|i: int|
            0 <= i < self.vacant.len() ==> self.vacant[i] < self.slots
                && !self.items.contains_key(#[trigger] self.vacant[i])
        &&& self.vacant.no_duplicates()
        &&& forall|k: usize| k < self.slots ==> self.items.contains_key(k) || self.vacant.contains(k)
    }

    /// The empty store.
    pub open spec fn empty() -> StoreView {
        StoreView { items: Map::empty(), vacant: Seq::empty(), slots: 0 }
    }

    /// Whether an insertion has room: a freed id to reuse, or a new slot
    /// below the limit.
    pub open spec fn can_insert(self) -> bool {
        self.vacant.len() > 0 || self.slots < SLOT_LIMIT
    }

    /// The id the next insertion assigns: the most recently freed one, or a
    /// new one past all slots.
    pub open spec fn next_id(self) -> usize {
        if self.vacant.len() == 0 {
            self.slots as usize
        } else {
            self.vacant.last()
        }
    }

    /// The store after inserting `r`.
    pub open spec fn inserted(self, r: ProductData) -> StoreView {
        if self.vacant.len() == 0 {
            StoreView { items: self.items.insert(self.next_id(), r), vacant: self.vacant, slots: self.slots + 1 }
        } else {
            StoreView {
                items: self.items.insert(self.next_id(), r),
                vacant: self.vacant.drop_last(),
                slots: self.slots,
            }
        }
    }

    /// The store after replacing the record of `id`, if it is live.
    pub open spec fn replaced(self, id: usize, r: ProductData) -> StoreView {
        if self.items.contains_key(id) {
            StoreView { items: self.items.insert(id, r), ..self }
        } else {
            self
        }
    }

    /// The store after removing the record of `id`, if it is live.
    pub open spec fn removed(self, id: usize) -> StoreView {
        if self.items.contains_key(id) {
            StoreView { items: self.items.remove(id), vacant: self.vacant.push(id), slots: self.slots }
        } else {
            self
        }
    }
}

/// An insertion with room keeps the view well formed, and the id it assigns
/// is not live.
pub proof fn lemma_inserted_wf(v: StoreView, r: ProductData)
    requires
        v.wf(),
        v.can_insert(),
    ensures
        !v.items.contains_key(v.next_id()),
        v.inserted(r).wf(),
{
    let id = v.next_id();
    let after = v.inserted(r);
    if v.vacant.len() > 0 {
        assert(v.vacant[v.vacant.len() - 1] == v.vacant.last());
    }
    assert(after.items.dom() =~= v.items.dom().insert(id));
    assert forall|i: int| 0 <= i < after.vacant.len() implies after.vacant[i] < after.slots
        && !after.items.contains_key(#[trigger] after.vacant[i]) by {
        assert(after.vacant[i] == v.vacant[i]);
    }
    assert forall|k: usize| k < after.slots implies after.items.contains_key(k)
        || after.vacant.contains(k) by {
        if k != id && !v.items.contains_key(k) {
            assert(v.vacant.contains(k));
            let j = choose|j: int| 0 <= j < v.vacant.len() && v.vacant[j] == k;
            assert(j != v.vacant.len() - 1);
            assert(after.vacant[j] == k);
        }
    }
}

/// A replacement keeps the view well formed.
pub proof fn lemma_replaced_wf(v: StoreView, id: usize, r: ProductData)
    requires
        v.wf(),
    ensures
        v.replaced(id, r).wf(),
{
    if v.items.contains_key(id) {
        assert(v.replaced(id, r).items.dom() =~= v.items.dom());
    }
}

/// A removal keeps the view well formed.
pub proof fn lemma_removed_wf(v: StoreView, id: usize)
    requires
        v.wf(),
    ensures
        v.removed(id).wf(),
{
    if v.items.contains_key(id) {
        let after = v.removed(id);
        assert(after.items.dom() =~= v.items.dom().remove(id));
        assert(after.vacant.no_duplicates()) by {
            assert forall|i: int, j: int|
                0 <= i < after.vacant.len() && 0 <= j < after.vacant.len() && i != j
                implies after.vacant[i] != after.vacant[j] by {
                if i < v.vacant.len() && j < v.vacant.len() {
                    assert(after.vacant[i] == v.vacant[i]);
                    assert(after.vacant[j] == v.vacant[j]);
                } else if i < v.vacant.len() {
                    assert(after.vacant[i] == v.vacant[i]);
                    assert(!v.items.contains_key(v.vacant[i]));
                } else {
                    assert(after.vacant[j] == v.vacant[j]);
                    assert(!v.items.contains_key(v.vacant[j]));
                }
            }
        }
        assert forall|i: int| 0 <= i < after.vacant.len() implies after.vacant[i] < after.slots
            && !after.items.contains_key(#[trigger] after.vacant[i]) by {
            if i < v.vacant.len() {
                assert(after.vacant[i] == v.vacant[i]);
            } else {
                assert(after.vacant[i] == id);
            }
        }
        assert forall|k: usize| k < after.slots implies after.items.contains_key(k)
            || after.vacant.contains(k) by {
            if k == id {
                assert(after.vacant[v.vacant.len() as int] == k);
            } else if !v.items.contains_key(k) {
                assert(v.vacant.contains(k));
                let j = choose|j: int| 0 <= j < v.vacant.len() && v.vacant[j] == k;
                assert(after.vacant[j] == k);
            }
        }
    }
}

/// The product store: records kept in slab slots, whose ids are reused after
/// removal. It does no locking of its own; a caller that shares it wraps it
/// in a lock and holds the lock for each whole operation.
pub struct Store {
    slab: Slab<ProductData>,
    /// The slab's slot count.
    slots: usize,
    /// The length of the slab's vacant chain.
    free: usize,
}

impl View for Store {
    type V = StoreView;

    closed spec fn view(&self) -> StoreView {
        StoreView {
            items: slab_items(self.slab),
            vacant: slab_vacant(self.slab),
            slots: slab_slots(self.slab),
        }
    }
}

impl Store {
    /// The store's invariant: its view is well formed and the counters
    /// agree with the slab.
    pub closed spec fn wf(&self) -> bool {
        &&& self@.wf()
        &&& self.slots == self@.slots
        &&& self.free == self@.vacant.len()
    }

    /// An empty store.
    pub fn new() -> (r: Store)
        ensures
            r.wf(),
            r@ == StoreView::empty(),
    {
        let r = Store { slab: slab_new(), slots: 0, free: 0 };
        assert(r@.items =~= Map::<usize, ProductData>::empty());
        r
    }

    /// Whether an insertion would find no room (see `StoreView::can_insert`).
    pub fn is_full(&self) -> (r: bool)
        requires
            self.wf(),
        ensures
            r == !self@.can_insert(),
    {
        self.free == 0 && self.slots >= SLOT_LIMIT
    }

    /// Stores `r` under the id that `next_id` gives and returns that id,
    /// which no live record had.
    pub fn insert(&mut self, r: ProductData) -> (id: usize)
        requires
            old(self).wf(),
            old(self)@.can_insert(),
        ensures
            final(self).wf(),
            id == old(self)@.next_id(),
            !old(self)@.items.contains_key(id),
            final(self)@ == old(self)@.inserted(r),
    {
        proof {
            lemma_inserted_wf(self@, r);
        }
        let id = slab_insert(&mut self.slab, r);
        if self.free == 0 {
            self.slots = self.slots + 1;
        } else {
            self.free = self.free - 1;
        }
        id
    }

    /// The record under `id`, if `id` is live.
    pub fn get(&self, id: usize) -> (r: Option<&ProductData>)
        requires
            self.wf(),
        ensures
            r is None <==> !self@.items.contains_key(id),
            r matches Some(v) ==> *v == self@.items[id],
    {
        slab_get(&self.slab, id)
    }

    /// Whether `id` is live.
    pub fn contains(&self, id: usize) -> (r: bool)
        requires
            self.wf(),
        ensures
            r == self@.items.contains_key(id),
    {
        slab_contains(&self.slab, id)
    }

    /// Replaces the record of a live `id` by `r` and returns true; returns
    /// false and changes nothing when `id` is not live.
    pub fn replace(&mut self, id: usize, r: ProductData) -> (ok: bool)
        requires
            old(self).wf(),
        ensures
            final(self).wf(),
            ok == old(self)@.items.contains_key(id),
            final(self)@ == old(self)@.replaced(id, r),
    {
        if slab_contains(&self.slab, id) {
            proof {
                lemma_replaced_wf(self@, id, r);
            }
            slab_set(&mut self.slab, id, r);
            true
        } else {
            false
        }
    }

    /// Removes the record of a live `id`, whose id goes on the free stack,
    /// and returns true; returns false and changes nothing when `id` is not
    /// live.
    pub fn remove(&mut self, id: usize) -> (ok: bool)
        requires
            old(self).wf(),
        ensures
            final(self).wf(),
            ok == old(self)@.items.contains_key(id),
            final(self)@ == old(self)@.removed(id),
    {
        if slab_contains(&self.slab, id) {
            proof {
                lemma_removed_wf(self@, id);
                assert(self@.items.dom().remove(id).len() == self@.items.dom().len() - 1);
            }
            let _ = slab_remove(&mut self.slab, id);
            self.free = self.free + 1;
            true
        } else {
            false
        }
    }

    /// The live ids, in increasing order, each once.
    pub fn list_ids(&self) -> (r: Vec<usize>)
        requires
            self.wf(),
        ensures
            ascending(r@),
            r@.no_duplicates(),
            r@.to_set() == self@.items.dom(),
            r@.len() == self@.items.dom().len(),
    {
        let r = slab_keys(&self.slab);
        proof {
            assert(r@.no_duplicates()) by {
                assert forall|i: int, j: int| 0 <= i < r@.len() && 0 <= j < r@.len() && i != j
                    implies r@[i] != r@[j] by {
                    if i < j {
                        assert(r@[i] < r@[j]);
                    } else {
                        assert(r@[j] < r@[i]);
                    }
                }
            }
            r@.unique_seq_to_set();
        }
        r
    }
}

} // verus!

use vstd::prelude::*;

use crate::store::{
    lemma_inserted_wf, lemma_removed_wf, lemma_replaced_wf, ProductData, StoreView, SLOT_LIMIT,
};

verus! {

/// A store operation that changes the store.
pub ghost enum StoreOp {
    Insert(ProductData),
    Replace(usize, ProductData),
    Remove(usize),
}

/// The store after one operation.
pub open spec fn step(v: StoreView, op: StoreOp) -> StoreView {
    match op {
        StoreOp::Insert(r) => v.inserted(r),
        StoreOp::Replace(id, r) => v.replaced(id, r),
        StoreOp::Remove(id) => v.removed(id),
    }
}

/// The store after a run of operations, one after another.
pub open spec fn replay(v: StoreView, ops: Seq<StoreOp>) -> StoreView
    decreases ops.len(),
{
    if ops.len() == 0 {
        v
    } else {
        step(replay(v, ops.drop_last()), ops.last())
    }
}

/// Whether every insertion of the run finds room.
pub open spec fn fits(v: StoreView, ops: Seq<StoreOp>) -> bool {
    forall|i: int|
        0 <= i < ops.len() && (#[trigger] ops[i] is Insert) ==> replay(v, ops.take(i)).can_insert()
}

/// Whether some insertion of the run assigns `id`.
pub open spec fn assigns(v: StoreView, ops: Seq<StoreOp>, id: usize) -> bool {
    exists|i: int|
        0 <= i < ops.len() && (#[trigger] ops[i] is Insert) && replay(v, ops.take(i)).next_id() == id
}

proof fn lemma_take_drop_last(ops: Seq<StoreOp>, i: int)
    requires
        0 <= i < ops.len(),
    ensures
        ops.drop_last().take(i) == ops.take(i),
        ops.take(i + 1).drop_last() == ops.take(i),
{
    assert(ops.drop_last().take(i) =~= ops.take(i));
    assert(ops.take(i + 1).drop_last() =~= ops.take(i));
}

/// A run of operations in which every insertion finds room keeps a store
/// well formed, so no id is ever live twice or both live and free.
pub proof fn lemma_replay_wf(v: StoreView, ops: Seq<StoreOp>)
    requires
        v.wf(),
        fits(v, ops),
    ensures
        replay(v, ops).wf(),
    decreases ops.len(),
{
    if ops.len() > 0 {
        let n = ops.len() - 1;
        assert forall|i: int|
            0 <= i < ops.drop_last().len() && (#[trigger] ops.drop_last()[i] is Insert) implies replay(
            v,
            ops.drop_last().take(i),
        ).can_insert() by {
            lemma_take_drop_last(ops, i);
            assert(ops[i] is Insert);
        }
        lemma_replay_wf(v, ops.drop_last());
        let w = replay(v, ops.drop_last());
        match ops.last() {
            StoreOp::Insert(r) => {
                assert(ops.take(n) =~= ops.drop_last());
                assert(ops[n] is Insert);
                lemma_inserted_wf(w, r);
            },
            StoreOp::Replace(id, r) => lemma_replaced_wf(w, id, r),
            StoreOp::Remove(id) => lemma_removed_wf(w, id),
        }
    }
}

/// Ids stay unique while live: after any run of operations in which every
/// insertion finds room, the next insertion assigns an id that no live
/// record holds.
pub proof fn lemma_fresh_ids(v: StoreView, ops: Seq<StoreOp>)
    requires
        v.wf(),
        fits(v, ops),
        replay(v, ops).can_insert(),
    ensures
        !replay(v, ops).items.contains_key(replay(v, ops).next_id()),
{
    lemma_replay_wf(v, ops);
    lemma_inserted_wf(replay(v, ops), ProductData);
}

/// Once an id is removed, it stays absent through any later run of
/// operations until an insertion of that run assigns it again.
pub proof fn lemma_removed_stays_absent(v: StoreView, id: usize, ops: Seq<StoreOp>)
    requires
        v.items.contains_key(id),
        !assigns(v.removed(id), ops, id),
    ensures
        !replay(v.removed(id), ops).items.contains_key(id),
    decreases ops.len(),
{
    let w = v.removed(id);
    if ops.len() > 0 {
        let n = ops.len() - 1;
        if assigns(w, ops.drop_last(), id) {
            let i = choose|i: int|
                0 <= i < ops.drop_last().len() && (#[trigger] ops.drop_last()[i] is Insert)
                    && replay(w, ops.drop_last().take(i)).next_id() == id;
            lemma_take_drop_last(ops, i);
            assert(ops[i] is Insert);
        }
        lemma_removed_stays_absent(v, id, ops.drop_last());
        if ops.last() is Insert {
            assert(ops.take(n) =~= ops.drop_last());
            assert(ops[n] is Insert);
        }
    }
}

/// The run of `n` insertions.
pub open spec fn inserts(rs: Seq<ProductData>) -> Seq<StoreOp> {
    Seq::new(rs.len(), |i: int| StoreOp::Insert(rs[i]))
}

/// From an empty store, `n` insertions and no removals leave exactly the ids
/// `0` to `n - 1` live: `n` distinct ids, which is what `list_ids` lists.
pub proof fn lemma_inserts_from_empty(rs: Seq<ProductData>)
    requires
        rs.len() <= SLOT_LIMIT,
    ensures
        replay(StoreView::empty(), inserts(rs)).items.dom() == Set::new(|k: usize| k < rs.len()),
        replay(StoreView::empty(), inserts(rs)).items.dom().len() == rs.len(),
{
    lemma_inserts_state(rs);
}

proof fn lemma_inserts_state(rs: Seq<ProductData>)
    requires
        rs.len() <= SLOT_LIMIT,
    ensures
        replay(StoreView::empty(), inserts(rs)).wf(),
        replay(StoreView::empty(), inserts(rs)).vacant.len() == 0,
        replay(StoreView::empty(), inserts(rs)).slots == rs.len(),
        replay(StoreView::empty(), inserts(rs)).items.dom() == Set::new(|k: usize| k < rs.len()),
        replay(StoreView::empty(), inserts(rs)).items.dom().len() == rs.len(),
    decreases rs.len(),
{
    let e = StoreView::empty();
    if rs.len() == 0 {
        assert(e.items.dom() =~= Set::new(|k: usize| k < rs.len()));
    } else {
        let ops = inserts(rs);
        let prev = rs.drop_last();
        assert(ops.drop_last() =~= inserts(prev));
        lemma_inserts_state(prev);
        let w = replay(e, inserts(prev));
        lemma_inserted_wf(w, rs.last());
        let u = replay(e, ops);
        assert(u == w.inserted(rs.last()));
        assert(u.items.dom() =~= Set::new(|k: usize| k < rs.len()));
    }
}

/// An inserted record can be read back under the id it was given, and after
/// a replacement under that id the record read back is the new one.
pub proof fn lemma_round_trip(v: StoreView, r: ProductData, r2: ProductData)
    requires
        v.wf(),
        v.can_insert(),
    ensures
        v.inserted(r).items.contains_key(v.next_id()),
        v.inserted(r).items[v.next_id()] == r,
        v.inserted(r).replaced(v.next_id(), r2).items[v.next_id()] == r2,
{
}

} // verus!

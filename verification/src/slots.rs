//! The slot list that holds the renderer's bricks.
//!
//! A brick is added under the index it keeps for its whole life; hiding a
//! destroyed brick empties its slot but keeps the slot, so the indices of
//! the other bricks never move. Drawing skips the empty slots.
use vstd::prelude::*;

verus! {

/// The list after the slot at `i` is emptied; an index past the end
/// changes nothing.
pub open spec fn vacated<T>(s: Seq<Option<T>>, i: int) -> Seq<Option<T>> {
    if 0 <= i < s.len() {
        s.update(i, None)
    } else {
        s
    }
}

/// The indices of the slots that hold an item.
pub open spec fn live_set<T>(s: Seq<Option<T>>) -> Set<int> {
    Set::new(|i: int| 0 <= i < s.len() && s[i] is Some)
}

/// A list of slots, each holding an item or empty.
pub struct SlotList<T> {
    items: Vec<Option<T>>,
}

impl<T> View for SlotList<T> {
    type V = Seq<Option<T>>;

    closed spec fn view(&self) -> Seq<Option<T>> {
        self.items@
    }
}

impl<T> SlotList<T> {
    /// An empty list.
    pub fn new() -> (s: Self)
        ensures
            s@ == Seq::<Option<T>>::empty(),
    {
        SlotList { items: Vec::new() }
    }

    /// The number of slots, empty ones included.
    pub fn len(&self) -> (n: usize)
        ensures
            n == self@.len(),
    {
        self.items.len()
    }

    /// Removes every slot.
    pub fn clear(&mut self)
        ensures
            final(self)@ == Seq::<Option<T>>::empty(),
            final(self)@ == apply_op(old(self)@, SlotOp::Clear),
    {
        self.items.clear();
    }

    /// Adds `item` in a new slot at the end and returns that slot's index.
    pub fn add(&mut self, item: T) -> (index: usize)
        requires
            old(self)@.len() < usize::MAX,
        ensures
            index == old(self)@.len(),
            final(self)@ == old(self)@.push(Some(item)),
            final(self)@ == apply_op(old(self)@, SlotOp::Add(item)),
    {
        self.items.push(Some(item));
        self.items.len() - 1
    }

    /// Empties the slot at `index`; an index past the end changes nothing.
    pub fn vacate(&mut self, index: usize)
        ensures
            final(self)@ == vacated(old(self)@, index as int),
            final(self)@ == apply_op(old(self)@, SlotOp::Vacate(index)),
    {
        if index < self.items.len() {
            self.items.set(index, None);
        }
    }

    /// The item at `index`, or `None` where the slot is empty or past the end.
    pub fn get(&self, index: usize) -> (r: Option<&T>)
        ensures
            match r {
                Some(item) => index < self@.len() && self@[index as int] == Some(*item),
                None => !live_set(self@).contains(index as int),
            },
    {
        if index < self.items.len() {
            self.items[index].as_ref()
        } else {
            None
        }
    }

    /// A handle to change the item at `index` in place, or `None` where the
    /// slot is empty or past the end (and then nothing changes).
    pub fn live_mut(&mut self, index: usize) -> (r: Option<&mut T>)
        ensures
            match r {
                Some(item) => {
                    &&& index < old(self)@.len()
                    &&& old(self)@[index as int] == Some(*item)
                    &&& final(self)@ == old(self)@.update(index as int, Some(*final(item)))
                    &&& final(self)@ == apply_op(old(self)@, SlotOp::Update(index, *final(item)))
                },
                None => {
                    &&& !live_set(old(self)@).contains(index as int)
                    &&& final(self)@ == old(self)@
                },
            },
    {
        if index < self.items.len() {
            self.items[index].as_mut()
        } else {
            None
        }
    }

    /// The indices of the slots that hold an item, in increasing order.
    pub fn live_indices(&self) -> (r: Vec<usize>)
        ensures
            forall|k: int, l: int| 0 <= k < l < r@.len() ==> r@[k] < r@[l],
            forall|i: usize| r@.contains(i) <==> live_set(self@).contains(i as int),
    {
        let mut r: Vec<usize> = Vec::new();
        let mut n: usize = 0;
        while n < self.items.len()
            invariant
                n <= self@.len(),
                self@ == self.items@,
                forall|k: int| 0 <= k < r@.len() ==> r@[k] < n,
                forall|k: int, l: int| 0 <= k < l < r@.len() ==> r@[k] < r@[l],
                forall|i: usize| r@.contains(i) <==> (i < n && live_set(self@).contains(i as int)),
            decreases self@.len() - n,
        {
            let ghost before = r@;
            if self.items[n].is_some() {
                r.push(n);
                proof {
                    assert forall|i: usize| r@.contains(i) <==> (i < n + 1 && live_set(
                        self@,
                    ).contains(i as int)) by {
                        if i == n {
                            assert(r@[r@.len() - 1] == i);
                            assert(self@[n as int] is Some);
                            assert(live_set(self@).contains(i as int));
                        }
                        if r@.contains(i) && i != n {
                            let k = choose|k: int| 0 <= k < r@.len() && r@[k] == i;
                            assert(before[k] == i);
                            assert(before.contains(i));
                        }
                        if i < n && live_set(self@).contains(i as int) {
                            assert(before.contains(i));
                            let k = choose|k: int| 0 <= k < before.len() && before[k] == i;
                            assert(r@[k] == i);
                        }
                    }
                }
            } else {
                proof {
                    assert(!live_set(self@).contains(n as int));
                }
            }
            n = n + 1;
        }
        r
    }
}

/// Adding an item makes exactly the new index live.
pub proof fn lemma_add_makes_new_index_live<T>(s: Seq<Option<T>>, item: T)
    ensures
        live_set(s.push(Some(item))) == live_set(s).insert(s.len() as int),
{
    assert(live_set(s.push(Some(item))) =~= live_set(s).insert(s.len() as int));
}

/// Vacating a slot removes exactly that index from the live ones.
pub proof fn lemma_vacate_removes_index<T>(s: Seq<Option<T>>, i: int)
    ensures
        live_set(vacated(s, i)) == live_set(s).remove(i),
        vacated(s, i).len() == s.len(),
{
    assert(live_set(vacated(s, i)) =~= live_set(s).remove(i));
}

/// Vacating a slot twice is vacating it once.
pub proof fn lemma_vacate_idempotent<T>(s: Seq<Option<T>>, i: int)
    ensures
        vacated(vacated(s, i), i) == vacated(s, i),
{
    assert(vacated(vacated(s, i), i) =~= vacated(s, i));
}

/// Vacating two slots gives the same list in either order.
pub proof fn lemma_vacate_commutes<T>(s: Seq<Option<T>>, i: int, j: int)
    ensures
        vacated(vacated(s, i), j) == vacated(vacated(s, j), i),
{
    assert(vacated(vacated(s, i), j) =~= vacated(vacated(s, j), i));
}

/// Vacating a slot leaves every other slot as it was, so the indices that
/// other bricks were added under keep naming them.
pub proof fn lemma_vacate_keeps_other_slots<T>(s: Seq<Option<T>>, i: int, j: int)
    requires
        0 <= j < s.len(),
        i != j,
    ensures
        vacated(s, i)[j] == s[j],
{
}

/// An operation on the slot list, as the methods of `SlotList` perform it:
/// `add` (which returns the list's length before it), `vacate`, a change
/// through `live_mut`, and `clear`.
pub enum SlotOp<T> {
    Add(T),
    Vacate(usize),
    Update(usize, T),
    Clear,
}

/// The list after the item at `i` is replaced by `item` through `live_mut`;
/// an empty slot or an index past the end changes nothing.
pub open spec fn updated_live<T>(s: Seq<Option<T>>, i: int, item: T) -> Seq<Option<T>> {
    if live_set(s).contains(i) {
        s.update(i, Some(item))
    } else {
        s
    }
}

/// The list after one operation.
pub open spec fn apply_op<T>(s: Seq<Option<T>>, op: SlotOp<T>) -> Seq<Option<T>> {
    match op {
        SlotOp::Add(item) => s.push(Some(item)),
        SlotOp::Vacate(i) => vacated(s, i as int),
        SlotOp::Update(i, item) => updated_live(s, i as int, item),
        SlotOp::Clear => Seq::empty(),
    }
}

/// The list after a sequence of operations, first to last.
pub open spec fn apply_ops<T>(s: Seq<Option<T>>, ops: Seq<SlotOp<T>>) -> Seq<Option<T>>
    decreases ops.len(),
{
    if ops.len() == 0 {
        s
    } else {
        apply_op(apply_ops(s, ops.drop_last()), ops.last())
    }
}

/// Whether no operation of `ops` clears the list.
pub open spec fn no_clear<T>(ops: Seq<SlotOp<T>>) -> bool {
    forall|k: int| 0 <= k < ops.len() ==> !(#[trigger] ops[k] is Clear)
}

/// Whether `op` vacates or changes the slot at `i`.
pub open spec fn names_slot<T>(op: SlotOp<T>, i: int) -> bool {
    match op {
        SlotOp::Vacate(j) => j == i,
        SlotOp::Update(j, _) => j == i,
        _ => false,
    }
}

/// The operations that add `items`, in order.
pub open spec fn adds<T>(items: Seq<T>) -> Seq<SlotOp<T>> {
    items.map_values(|item: T| SlotOp::Add(item))
}

/// Without a clear, the list never gets shorter, and an empty slot stays
/// empty: a vacated brick is never drawn again until the list is cleared.
pub proof fn lemma_empty_slot_stays_empty<T>(s: Seq<Option<T>>, i: int, ops: Seq<SlotOp<T>>)
    requires
        0 <= i < s.len(),
        s[i] is None,
        no_clear(ops),
    ensures
        s.len() <= apply_ops(s, ops).len(),
        apply_ops(s, ops)[i] is None,
        !live_set(apply_ops(s, ops)).contains(i),
    decreases ops.len(),
{
    if ops.len() > 0 {
        assert(no_clear(ops.drop_last()));
        lemma_empty_slot_stays_empty(s, i, ops.drop_last());
        assert(!(ops[ops.len() - 1] is Clear));
    }
}

/// Once a slot is vacated it stays empty, and out of the live slots, under
/// any later operations but a clear.
pub proof fn lemma_vacated_stays_empty<T>(s: Seq<Option<T>>, i: int, ops: Seq<SlotOp<T>>)
    requires
        0 <= i < s.len(),
        no_clear(ops),
    ensures
        i < apply_ops(vacated(s, i), ops).len(),
        apply_ops(vacated(s, i), ops)[i] is None,
        !live_set(apply_ops(vacated(s, i), ops)).contains(i),
{
    lemma_empty_slot_stays_empty(vacated(s, i), i, ops);
}

/// An index keeps naming its slot: while no operation clears the list or
/// names slot `i`, the slot keeps its item, whatever the other operations.
pub proof fn lemma_index_keeps_item<T>(s: Seq<Option<T>>, i: int, ops: Seq<SlotOp<T>>)
    requires
        0 <= i < s.len(),
        no_clear(ops),
        forall|k: int| 0 <= k < ops.len() ==> !names_slot(#[trigger] ops[k], i),
    ensures
        s.len() <= apply_ops(s, ops).len(),
        apply_ops(s, ops)[i] == s[i],
    decreases ops.len(),
{
    if ops.len() > 0 {
        let init = ops.drop_last();
        assert(no_clear(init));
        assert forall|k: int| 0 <= k < init.len() implies !names_slot(#[trigger] init[k], i) by {
            assert(init[k] == ops[k]);
        }
        lemma_index_keeps_item(s, i, init);
        let last = ops[ops.len() - 1];
        assert(!(last is Clear));
        assert(!names_slot(last, i));
    }
}

/// The index `add` returns keeps holding the added item under any later
/// operations that neither clear the list nor name that index.
pub proof fn lemma_added_item_stays<T>(s: Seq<Option<T>>, item: T, ops: Seq<SlotOp<T>>)
    requires
        no_clear(ops),
        forall|k: int| 0 <= k < ops.len() ==> !names_slot(#[trigger] ops[k], s.len() as int),
    ensures
        s.len() < apply_ops(s.push(Some(item)), ops).len(),
        apply_ops(s.push(Some(item)), ops)[s.len() as int] == Some(item),
{
    lemma_index_keeps_item(s.push(Some(item)), s.len() as int, ops);
}

/// Adding items to an empty list fills slots 0, 1, 2, ... in order.
proof fn lemma_adds_fill_in_order<T>(items: Seq<T>)
    ensures
        apply_ops(Seq::<Option<T>>::empty(), adds(items)) == items.map_values(
            |item: T| Some(item),
        ),
    decreases items.len(),
{
    if items.len() > 0 {
        let init = items.drop_last();
        lemma_adds_fill_in_order(init);
        assert(adds(items).drop_last() =~= adds(init));
        assert(apply_ops(Seq::<Option<T>>::empty(), adds(items)) =~= items.map_values(
            |item: T| Some(item),
        ));
    } else {
        assert(adds(items) =~= Seq::<SlotOp<T>>::empty());
        assert(items.map_values(|item: T| Some(item)) =~= Seq::<Option<T>>::empty());
    }
}

/// After a clear no slot is live, so nothing is drawn; the adds that follow
/// fill slots 0, 1, 2, ... in order, and the `k`-th of them (counting from
/// 0) returns `k`, the list's length before it.
pub proof fn lemma_adds_after_clear<T>(s: Seq<Option<T>>, items: Seq<T>)
    ensures
        apply_op(s, SlotOp::Clear) == Seq::<Option<T>>::empty(),
        live_set(apply_op(s, SlotOp::Clear)) == Set::<int>::empty(),
        apply_ops(apply_op(s, SlotOp::Clear), adds(items)) == items.map_values(
            |item: T| Some(item),
        ),
        forall|k: int|
            0 <= k < items.len() ==> #[trigger] apply_ops(
                apply_op(s, SlotOp::Clear),
                adds(items).take(k),
            ).len() == k,
{
    assert(live_set(Seq::<Option<T>>::empty()) =~= Set::<int>::empty());
    lemma_adds_fill_in_order(items);
    assert forall|k: int| 0 <= k < items.len() implies #[trigger] apply_ops(
        apply_op(s, SlotOp::Clear),
        adds(items).take(k),
    ).len() == k by {
        assert(adds(items).take(k) =~= adds(items.take(k)));
        lemma_adds_fill_in_order(items.take(k));
    }
}

/// What slot `i` holds after `ops`, starting from `x`, following only the
/// operations that name it: a vacate empties it, a change through
/// `live_mut` replaces its item if it has one.
pub open spec fn slot_after<T>(x: Option<T>, i: int, ops: Seq<SlotOp<T>>) -> Option<T>
    decreases ops.len(),
{
    if ops.len() == 0 {
        x
    } else {
        let before = slot_after(x, i, ops.drop_last());
        match ops.last() {
            SlotOp::Vacate(j) => if j == i {
                None
            } else {
                before
            },
            SlotOp::Update(j, item) => if j == i && before is Some {
                Some(item)
            } else {
                before
            },
            _ => before,
        }
    }
}

/// Without a clear, whatever the operations: the list never gets shorter,
/// and each existing index keeps designating its own slot, which changes
/// only by the operations that name that index (so bricks are never
/// reordered or removed, and vacating or moving index `i` acts on exactly
/// the brick added under `i`).
pub proof fn lemma_indices_stable<T>(s: Seq<Option<T>>, ops: Seq<SlotOp<T>>)
    requires
        no_clear(ops),
    ensures
        s.len() <= apply_ops(s, ops).len(),
        forall|i: int|
            0 <= i < s.len() ==> #[trigger] apply_ops(s, ops)[i] == slot_after(s[i], i, ops),
    decreases ops.len(),
{
    if ops.len() > 0 {
        let init = ops.drop_last();
        assert(no_clear(init));
        lemma_indices_stable(s, init);
        let last = ops[ops.len() - 1];
        assert(!(last is Clear));
        let mid = apply_ops(s, init);
        assert forall|i: int| 0 <= i < s.len() implies #[trigger] apply_ops(s, ops)[i]
            == slot_after(s[i], i, ops) by {
            assert(mid[i] == slot_after(s[i], i, init));
        }
    }
}

/// The index `add` returned keeps designating the added brick under any
/// later operations but a clear: it stays within the list, and its slot is
/// the added item changed only by the operations that name that index.
pub proof fn lemma_added_index_stable<T>(s: Seq<Option<T>>, item: T, ops: Seq<SlotOp<T>>)
    requires
        no_clear(ops),
    ensures
        s.len() < apply_ops(s.push(Some(item)), ops).len(),
        apply_ops(s.push(Some(item)), ops)[s.len() as int] == slot_after(
            Some(item),
            s.len() as int,
            ops,
        ),
{
    lemma_indices_stable(s.push(Some(item)), ops);
    assert(s.push(Some(item))[s.len() as int] == Some(item));
}

} // verus!

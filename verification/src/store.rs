//! The item store: an id-keyed collection of shopping-list items with
//! server-assigned, never-reused identifiers. Identifiers are assigned
//! monotonically, starting at 0, so the record with id `i` sits at
//! position `i`; the store never updates or removes a record.
//!
//! The host serializes all access through one exclusive lock, so each
//! operation here is atomic with respect to the others; the contracts
//! below describe one such atomic step.

use vstd::prelude::*;

use crate::models::{ItemModel, ItemPayload, ShoppingListItem};

verus! {

/// The stored records, in id order: the record with id `i` is at index `i`.
pub open spec fn wf_items(items: Seq<ItemModel>) -> bool {
    forall|i: int| 0 <= i < items.len() ==> (#[trigger] items[i].id) == i
}

/// What a lookup by id returns: the record whose id is `id`, if one
/// was ever inserted. Under `wf_items` the record with id `i` is at
/// index `i`, so the lookup is positional.
pub open spec fn spec_get(items: Seq<ItemModel>, id: nat) -> Option<ItemModel> {
    if id < items.len() {
        Some(items[id as int])
    } else {
        None
    }
}

/// The in-memory keeper of all items for the process lifetime.
pub struct ItemStore {
    items: Vec<ShoppingListItem>,
}

impl View for ItemStore {
    type V = Seq<ItemModel>;

    closed spec fn view(&self) -> Seq<ItemModel> {
        Seq::new(self.items@.len(), |i: int| self.items@[i]@)
    }
}

impl ItemStore {
    /// The store's invariant: ids are exactly the positions 0..len.
    pub open spec fn wf(&self) -> bool {
        wf_items(self@)
    }

    /// A new store is empty.
    pub fn new() -> (s: Self)
        ensures
            s.wf(),
            s@ == Seq::<ItemModel>::empty(),
    {
        let s = ItemStore { items: Vec::new() };
        proof {
            assert(s@ =~= Seq::<ItemModel>::empty());
        }
        s
    }

    /// Allocates the next identifier (the current item count), stores
    /// the record combining it with `payload`, and returns the stored
    /// record. Always succeeds.
    pub fn insert(&mut self, payload: ItemPayload) -> (item: ShoppingListItem)
        requires
            old(self).wf(),
        ensures
            final(self).wf(),
            item@.id == old(self)@.len(),
            item@.name == payload@,
            final(self)@ == old(self)@.push(item@),
    {
        let id = self.items.len();
        let name = payload.name;
        let returned = ShoppingListItem { id, name: name.clone() };
        let ghost pre = self@;
        self.items.push(ShoppingListItem { id, name });
        proof {
            assert(returned@.name =~= payload@);
            assert(self@ =~= pre.push(returned@));
        }
        returned
    }

    /// Looks up one record by id: `Some` of the stored record when an
    /// item with that id exists, `None` otherwise.
    pub fn get_by_id(&self, id: usize) -> (r: Option<ShoppingListItem>)
        requires
            self.wf(),
        ensures
            match r {
                Some(item) => spec_get(self@, id as nat) == Some(item@),
                None => spec_get(self@, id as nat) is None,
            },
    {
        if id < self.items.len() {
            let stored = &self.items[id];
            let item = ShoppingListItem { id: stored.id, name: stored.name.clone() };
            proof {
                assert(item@.name =~= stored@.name);
            }
            Some(item)
        } else {
            None
        }
    }

    /// Returns every currently stored record, in id order.
    pub fn get_all(&self) -> (r: Vec<ShoppingListItem>)
        requires
            self.wf(),
        ensures
            r@.len() == self@.len(),
            forall|i: int| 0 <= i < r@.len() ==> (#[trigger] r@[i])@ == self@[i],
    {
        let mut out: Vec<ShoppingListItem> = Vec::new();
        let mut i: usize = 0;
        while i < self.items.len()
            invariant
                i <= self.items.len(),
                out@.len() == i,
                forall|j: int| 0 <= j < i ==> (#[trigger] out@[j])@ == self@[j],
            decreases self.items.len() - i,
        {
            let stored = &self.items[i];
            let item = ShoppingListItem { id: stored.id, name: stored.name.clone() };
            proof {
                assert(item@.name =~= stored@.name);
            }
            out.push(item);
            i = i + 1;
        }
        out
    }
}

/// Id uniqueness: any two distinct records in a well-formed store have
/// distinct ids, however many insertions produced them.
pub proof fn lemma_ids_pairwise_distinct(items: Seq<ItemModel>)
    requires
        wf_items(items),
    ensures
        forall|i: int, j: int|
            0 <= i < items.len() && 0 <= j < items.len() && i != j ==> items[i].id != items[j].id,
{
}

/// Id uniqueness at the moment of insertion: the id a new record gets
/// (the current count) differs from the id of every record already
/// stored, and the store stays well-formed.
pub proof fn lemma_insert_fresh_id(items: Seq<ItemModel>, m: ItemModel)
    requires
        wf_items(items),
        m.id == items.len(),
    ensures
        wf_items(items.push(m)),
        forall|i: int| 0 <= i < items.len() ==> (#[trigger] items[i].id) != m.id,
{
    assert forall|i: int| 0 <= i < items.push(m).len() implies (#[trigger] items.push(m)[i].id)
        == i by {
        if i < items.len() {
            assert(items.push(m)[i] == items[i]);
        }
    }
}

/// Read-after-write: once `insert` has stored the record `m`, a lookup
/// of `m.id` returns exactly `m`.
pub proof fn lemma_read_after_write(items: Seq<ItemModel>, m: ItemModel)
    requires
        wf_items(items),
        m.id == items.len(),
    ensures
        spec_get(items.push(m), m.id) == Some(m),
{
}

/// Not-found contract: a lookup returns `None` exactly when no stored
/// record carries the requested id; it never invents a record.
pub proof fn lemma_not_found_iff(items: Seq<ItemModel>, k: nat)
    requires
        wf_items(items),
    ensures
        spec_get(items, k) is None <==> (forall|i: int|
            0 <= i < items.len() ==> (#[trigger] items[i].id) != k),
{
    if k < items.len() {
        assert(items[k as int].id == k);
    }
}

/// Some stored record carries the id `k`.
pub open spec fn has_id(items: Seq<ItemModel>, k: nat) -> bool {
    exists|i: int| 0 <= i < items.len() && (#[trigger] items[i].id) == k
}

/// List completeness: enumerating a well-formed store yields a record
/// for exactly the ids ever inserted — the ids 0 up to the item count —
/// with no duplicates and no omissions.
pub proof fn lemma_list_complete(items: Seq<ItemModel>)
    requires
        wf_items(items),
    ensures
        forall|k: nat| #[trigger] has_id(items, k) <==> k < items.len(),
        forall|i: int, j: int|
            0 <= i < items.len() && 0 <= j < items.len() && i != j ==> items[i].id != items[j].id,
{
    assert forall|k: nat| k < items.len() implies #[trigger] has_id(items, k) by {
        assert(items[k as int].id == k);
    }
}

/// Idempotent reads: a lookup is a function of the store contents
/// alone, so two lookups of the same id against the same contents give
/// the same answer. Read operations take the store by shared reference
/// and cannot change the contents in between.
pub proof fn lemma_reads_idempotent(
    items: Seq<ItemModel>,
    again: Seq<ItemModel>,
    k: nat,
)
    requires
        items == again,
    ensures
        spec_get(items, k) == spec_get(again, k),
{
}

} // verus!

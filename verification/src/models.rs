//! The data model: a shopping-list item and the payload a client
//! supplies to create one, together with their mathematical views.

use vstd::prelude::*;

verus! {

/// One shopping-list record: a server-assigned identifier and the
/// client-supplied payload. The payload is the `name` field of the
/// creation request, kept verbatim as its UTF-8 bytes.
pub struct ShoppingListItem {
    pub id: usize,
    pub name: Vec<u8>,
}

/// The client-supplied part of an item: the bytes of its `name`.
pub struct ItemPayload {
    pub name: Vec<u8>,
}

/// Mathematical model of one stored item.
pub ghost struct ItemModel {
    pub id: nat,
    pub name: Seq<u8>,
}

impl View for ShoppingListItem {
    type V = ItemModel;

    open spec fn view(&self) -> ItemModel {
        ItemModel { id: self.id as nat, name: self.name@ }
    }
}

impl View for ItemPayload {
    type V = Seq<u8>;

    open spec fn view(&self) -> Seq<u8> {
        self.name@
    }
}

/// The models of a sequence of records, element for element.
pub open spec fn models_of(items: Seq<ShoppingListItem>) -> Seq<ItemModel> {
    Seq::new(items.len(), |i: int| items[i]@)
}

} // verus!

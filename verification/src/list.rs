//! The item store: every item by its identifier, and the ordered membership
//! of the top level.

use crate::list_item::{ItemView, ListItem};
use crate::model::{insertion_point, of_entries, with_children, StoreView};
use crate::text::{
    all_distinct, copy_ids, first_at, ids_of, name_of, position_of, remove_id, same_text, without,
};
use vstd::prelude::*;

verus! {

broadcast use ListItem::view_of_fields;

/// Why a question about an item's place, or an attachment, failed.
#[derive(Clone, Copy, Debug, PartialEq, Eq, Structural)]
pub enum ListItemTaskError {
    ParentAlreadyHasItem,
    ParentIdDoesNotExist,
    ChildIdDoesNotExist,
}

/// Why a removal failed.
#[derive(Clone, Copy, Debug, PartialEq, Eq, Structural)]
pub enum ListItemDeletionError {
    ItemNotExist,
    ChildDoesNotExist,
    ParentDoesNotExist,
}

/// One item together with the identifier it is kept under.
#[derive(Debug)]
struct Slot {
    key: String,
    item: ListItem,
}

/// The store. Items are kept in the order in which their identifiers were
/// first added; that order is never observed through the store's view.
#[derive(Debug)]
pub struct List {
    slots: Vec<Slot>,
    top_level_items: Vec<String>,
}

/// What a list of borrowed items holds.
pub open spec fn items_of(items: Seq<&ListItem>) -> Seq<ItemView> {
    Seq::new(items.len(), |i: int| items[i]@)
}

/// The identifiers that the items are kept under, slot by slot.
spec fn keys_of(slots: Seq<Slot>) -> Seq<Seq<char>> {
    Seq::new(slots.len(), |i: int| slots[i].key@)
}

/// The items of the slots, each under its slot's identifier.
spec fn items_in(slots: Seq<Slot>) -> Map<Seq<char>, ItemView> {
    Map::new(
        |k: Seq<char>| keys_of(slots).contains(k),
        |k: Seq<char>| slots[keys_of(slots).index_of(k)].item@,
    )
}

/// The items of the slots, read slot by slot.
proof fn items_by_slot(slots: Seq<Slot>)
    requires
        keys_of(slots).no_duplicates(),
    ensures
        forall|k: Seq<char>| items_in(slots).contains_key(k) <==> keys_of(slots).contains(k),
        forall|i: int|
            0 <= i < slots.len() ==> items_in(slots).contains_key(#[trigger] keys_of(slots)[i])
                && items_in(slots)[keys_of(slots)[i]] == slots[i].item@,
{
    assert forall|i: int| 0 <= i < slots.len() implies items_in(slots).contains_key(
        #[trigger] keys_of(slots)[i],
    ) && items_in(slots)[keys_of(slots)[i]] == slots[i].item@ by {
        let k = keys_of(slots)[i];
        assert(keys_of(slots).contains(k));
        let j = keys_of(slots).index_of(k);
        assert(keys_of(slots)[j] == keys_of(slots)[i]);
    }
}

/// Slots that differ in the item of one slot only keep the same identifiers,
/// and hold the new item under that slot's identifier.
proof fn items_after_update(slots: Seq<Slot>, i: int, slot: Slot)
    requires
        keys_of(slots).no_duplicates(),
        0 <= i < slots.len(),
        slot.key == slots[i].key,
    ensures
        keys_of(slots.update(i, slot)) == keys_of(slots),
        items_in(slots.update(i, slot)) == items_in(slots).insert(keys_of(slots)[i], slot.item@),
{
    let after = slots.update(i, slot);
    assert(keys_of(after) =~= keys_of(slots));
    items_by_slot(slots);
    items_by_slot(after);
    let expected = items_in(slots).insert(keys_of(slots)[i], slot.item@);
    assert forall|k: Seq<char>| items_in(after).contains_key(k) implies #[trigger] items_in(
        after,
    )[k] == expected[k] by {
        let j = keys_of(slots).index_of(k);
        assert(keys_of(slots)[j] == k);
        assert(keys_of(after)[j] == k);
    }
    assert(items_in(after) =~= expected);
}

/// A slot added under an identifier that no slot keeps adds its item under
/// that identifier, and nothing else.
proof fn items_after_push(slots: Seq<Slot>, slot: Slot)
    requires
        keys_of(slots).no_duplicates(),
        !keys_of(slots).contains(slot.key@),
    ensures
        keys_of(slots.push(slot)).no_duplicates(),
        items_in(slots.push(slot)) == items_in(slots).insert(slot.key@, slot.item@),
{
    let after = slots.push(slot);
    let keys = keys_of(slots);
    assert(keys_of(after) =~= keys.push(slot.key@));
    assert forall|a: int, b: int|
        0 <= a < keys_of(after).len() && 0 <= b < keys_of(after).len() && a != b implies keys_of(
        after,
    )[a] != keys_of(after)[b] by {
        if a < keys.len() {
            assert(keys.contains(keys[a]));
        }
        if b < keys.len() {
            assert(keys.contains(keys[b]));
        }
    }
    items_by_slot(slots);
    items_by_slot(after);
    let expected = items_in(slots).insert(slot.key@, slot.item@);
    assert forall|k: Seq<char>| items_in(after).contains_key(k) <==> expected.contains_key(k) by {
        if keys_of(after).contains(k) {
            let j = keys_of(after).index_of(k);
            assert(keys_of(after)[j] == k);
            if j < keys.len() {
                assert(keys[j] == k);
            }
        }
        if keys.contains(k) {
            let j = keys.index_of(k);
            assert(keys_of(after)[j] == k);
        }
        if k == slot.key@ {
            assert(keys_of(after)[keys.len() as int] == k);
        }
    }
    assert forall|k: Seq<char>| items_in(after).contains_key(k) implies #[trigger] items_in(
        after,
    )[k] == expected[k] by {
        let j = keys_of(after).index_of(k);
        assert(keys_of(after)[j] == k);
        if j < keys.len() {
            assert(keys[j] == k);
        }
    }
    assert(items_in(after) =~= expected);
}

/// Taking one slot out takes its identifier and its item out, and nothing
/// else.
proof fn items_after_remove(slots: Seq<Slot>, i: int)
    requires
        keys_of(slots).no_duplicates(),
        0 <= i < slots.len(),
    ensures
        keys_of(slots.remove(i)).no_duplicates(),
        forall|k: Seq<char>|
            keys_of(slots.remove(i)).contains(k) <==> (keys_of(slots).contains(k) && k != keys_of(
                slots,
            )[i]),
        forall|k: Seq<char>|
            keys_of(slots.remove(i)).contains(k) ==> #[trigger] items_in(slots.remove(i))[k]
                == items_in(slots)[k],
{
    let after = slots.remove(i);
    let keys = keys_of(slots);
    assert(keys_of(after) =~= keys.remove(i));
    assert forall|a: int, b: int|
        0 <= a < keys_of(after).len() && 0 <= b < keys_of(after).len() && a != b implies keys_of(
        after,
    )[a] != keys_of(after)[b] by {
        let a0 = if a < i {
            a
        } else {
            a + 1
        };
        let b0 = if b < i {
            b
        } else {
            b + 1
        };
        assert(keys_of(after)[a] == keys[a0]);
        assert(keys_of(after)[b] == keys[b0]);
    }
    assert forall|k: Seq<char>| keys_of(after).contains(k) <==> (keys.contains(k) && k
        != keys[i]) by {
        if keys_of(after).contains(k) {
            let a = choose|a: int| 0 <= a < keys_of(after).len() && keys_of(after)[a] == k;
            let a0 = if a < i {
                a
            } else {
                a + 1
            };
            assert(keys[a0] == k);
        }
        if keys.contains(k) && k != keys[i] {
            let a0 = choose|a0: int| 0 <= a0 < keys.len() && keys[a0] == k;
            let a = if a0 < i {
                a0
            } else {
                a0 - 1
            };
            assert(keys_of(after)[a] == k);
        }
    }
    items_by_slot(slots);
    items_by_slot(after);
    assert forall|k: Seq<char>| keys_of(after).contains(k) implies #[trigger] items_in(after)[k]
        == items_in(slots)[k] by {
        let a = choose|a: int| 0 <= a < keys_of(after).len() && keys_of(after)[a] == k;
        let a0 = if a < i {
            a
        } else {
            a + 1
        };
        assert(keys_of(after)[a] == k);
        assert(keys[a0] == k);
        assert(after[a] == slots[a0]);
    }
}

/// What a list of entries holds: each identifier with its item.
pub open spec fn entries_of(entries: Seq<(String, ListItem)>) -> Seq<(Seq<char>, ItemView)> {
    Seq::new(entries.len(), |i: int| (entries[i].0@, entries[i].1@))
}

impl View for List {
    type V = StoreView;

    closed spec fn view(&self) -> StoreView {
        StoreView { items: items_in(self.slots@), top_level: ids_of(self.top_level_items@) }
    }
}

impl List {
    /// The identifiers that the items are kept under, slot by slot.
    spec fn keys(&self) -> Seq<Seq<char>> {
        keys_of(self.slots@)
    }

    /// The representation invariant: no identifier is kept twice. Every
    /// function of the store establishes or preserves it.
    pub closed spec fn wf(&self) -> bool {
        self.keys().no_duplicates()
    }

    /// The view, read slot by slot.
    proof fn view_by_slot(&self)
        requires
            self.wf(),
        ensures
            forall|k: Seq<char>| self@.items.contains_key(k) <==> self.keys().contains(k),
            forall|i: int|
                0 <= i < self.slots@.len() ==> self@.items.contains_key(#[trigger] self.keys()[i])
                    && self@.items[self.keys()[i]] == self.slots@[i].item@,
            self@.top_level == ids_of(self.top_level_items@),
    {
        items_by_slot(self.slots@);
    }

    /// A store that differs from `self` in one slot's item only has the view
    /// of `self` with that item put under the slot's identifier.
    proof fn view_after_update(&self, after: &List, i: int, item: ListItem)
        requires
            self.wf(),
            0 <= i < self.slots@.len(),
            after.slots@ == self.slots@.update(i, Slot { key: self.slots@[i].key, item }),
            after.top_level_items@ == self.top_level_items@,
        ensures
            after.wf(),
            after@ == self@.put(self.keys()[i], item@),
    {
        items_after_update(self.slots@, i, Slot { key: self.slots@[i].key, item });
    }

    /// An empty store.
    pub fn new() -> (list: List)
        ensures
            list.wf(),
            list@ == StoreView::empty(),
    {
        let list = List { slots: Vec::new(), top_level_items: Vec::new() };
        assert(list@.items =~= StoreView::empty().items);
        assert(list@.top_level =~= StoreView::empty().top_level);
        list
    }

    /// The slot that keeps `id`, if one does.
    fn find(&self, id: &str) -> (found: Option<usize>)
        requires
            self.wf(),
        ensures
            match found {
                Some(i) => i < self.slots@.len() && self.keys()[i as int] == id@,
                None => !self@.contains(id@),
            },
    {
        let mut i: usize = 0;
        while i < self.slots.len()
            invariant
                i <= self.slots@.len(),
                forall|j: int| 0 <= j < i ==> self.keys()[j] != id@,
            decreases self.slots@.len() - i,
        {
            if same_text(self.slots[i].key.as_str(), id) {
                return Some(i);
            }
            i += 1;
        }
        proof {
            if self.keys().contains(id@) {
                let k = self.keys().index_of(id@);
                assert(self.keys()[k] == id@);
            }
        }
        None
    }

    /// Keeps `item` under `key`, in place of what was kept there.
    fn store(&mut self, key: String, item: ListItem)
        requires
            old(self).wf(),
        ensures
            final(self).wf(),
            final(self)@ == old(self)@.put(key@, item@),
    {
        let ghost before = *self;
        match self.find(key.as_str()) {
            Some(i) => {
                let ghost stored = item;
                self.slots[i].item = item;
                proof {
                    before.view_after_update(&*self, i as int, stored);
                }
            },
            None => {
                proof {
                    before.view_by_slot();
                    items_after_push(before.slots@, Slot { key, item });
                }
                self.slots.push(Slot { key, item });
            },
        }
    }

    /// Adds `item` to the store, in place of any item with the same
    /// identifier, and makes it a root: at `index`, or last when no index is
    /// given.
    pub fn add_list_item(&mut self, item: ListItem, index: Option<usize>)
        requires
            old(self).wf(),
            index matches Some(i) ==> i <= old(self)@.top_level.len(),
        ensures
            final(self).wf(),
            final(self)@ == old(self)@.add_top(
                item@,
                insertion_point(index, old(self)@.top_level.len()),
            ),
            old(self)@.valid() && !old(self)@.top_level.contains(item@.id)
                && item@.children.no_duplicates() && old(self)@.put(item@.id, item@).holds_all(
                item@.children,
            ) ==> final(self)@.valid(),
    {
        let ghost before = *self;
        proof {
            before.view_by_slot();
            let at = insertion_point(index, before@.top_level.len());
            if before@.valid() && !before@.top_level.contains(item@.id)
                && item@.children.no_duplicates() && before@.put(item@.id, item@).holds_all(
                item@.children,
            ) {
                before@.add_top_keeps_valid(item@, at);
            }
        }
        let id = item.id.clone();
        let key = item.id.clone();
        self.store(key, item);
        proof {
            self.view_by_slot();
        }
        let at = match index {
            Some(i) => i,
            None => self.top_level_items.len(),
        };
        self.top_level_items.insert(at, id);
        proof {
            assert(ids_of(self.top_level_items@) =~= ids_of(before.top_level_items@).insert(
                at as int,
                id@,
            ));
        }
    }

    /// The item kept under `id`.
    pub fn get_list_item(&self, id: &str) -> (found: Option<&ListItem>)
        requires
            self.wf(),
        ensures
            match found {
                Some(item) => self@.contains(id@) && item@ == self@.items[id@],
                None => !self@.contains(id@),
            },
    {
        match self.find(id) {
            Some(i) => {
                proof {
                    self.view_by_slot();
                }
                Some(&self.slots[i].item)
            },
            None => None,
        }
    }

    /// Makes the item `item_id`, which the store already holds, a child of
    /// `parent_id`: at `index`, or last when no index is given.
    pub fn add_existing_child_list_item(
        &mut self,
        item_id: &String,
        parent_id: &String,
        index: Option<usize>,
    ) -> (done: Result<(), ListItemTaskError>)
        requires
            old(self).wf(),
            old(self)@.contains(item_id@),
            index matches Some(i) ==> (old(self)@.contains(parent_id@) && !old(self)@.children_of(
                parent_id@,
            ).contains(item_id@) ==> i <= old(self)@.children_of(parent_id@).len()),
        ensures
            final(self).wf(),
            match done {
                Ok(_) => {
                    &&& old(self)@.contains(parent_id@)
                    &&& !old(self)@.children_of(parent_id@).contains(item_id@)
                    &&& final(self)@ == old(self)@.attach(
                        item_id@,
                        parent_id@,
                        insertion_point(index, old(self)@.children_of(parent_id@).len()),
                    )
                },
                Err(e) => {
                    &&& final(self)@ == old(self)@
                    &&& e == if old(self)@.contains(parent_id@) {
                        ListItemTaskError::ParentAlreadyHasItem
                    } else {
                        ListItemTaskError::ParentIdDoesNotExist
                    }
                    &&& old(self)@.contains(parent_id@) ==> old(self)@.children_of(
                        parent_id@,
                    ).contains(item_id@)
                },
            },
            old(self)@.valid() ==> final(self)@.valid(),
    {
        let ghost before = *self;
        proof {
            before.view_by_slot();
        }
        let p = match self.find(parent_id.as_str()) {
            Some(p) => p,
            None => {
                return Err(ListItemTaskError::ParentIdDoesNotExist);
            },
        };
        if let Some(k) = position_of(&self.slots[p].item.children, item_id.as_str()) {
            assert(ids_of(before.slots@[p as int].item.children@)[k as int] == item_id@);
            return Err(ListItemTaskError::ParentAlreadyHasItem);
        }
        let at = match index {
            Some(i) => i,
            None => self.slots[p].item.children.len(),
        };
        self.slots[p].item.children.insert(at, item_id.clone());
        proof {
            let item = self.slots@[p as int].item;
            assert(self.slots@ =~= before.slots@.update(
                p as int,
                Slot { key: before.slots@[p as int].key, item },
            ));
            before.view_after_update(&*self, p as int, item);
            assert(ids_of(item.children@) =~= ids_of(before.slots@[p as int].item.children@).insert(
                at as int,
                item_id@,
            ));
            if before@.valid() {
                before@.attach_keeps_valid(item_id@, parent_id@, at as int);
            }
        }
        Ok(())
    }

    /// Adds `item` to the store unless an item with its identifier is there
    /// already, then makes that identifier a child of `parent_id`: at
    /// `index`, or last when no index is given. The item stays in the store
    /// when the attachment fails.
    pub fn add_child_list_item(
        &mut self,
        item: ListItem,
        parent_id: &String,
        index: Option<usize>,
    ) -> (done: Result<(), ListItemTaskError>)
        requires
            old(self).wf(),
            index matches Some(i) ==> ({
                let base = old(self)@.put_if_absent(item@);
                base.contains(parent_id@) && !base.children_of(parent_id@).contains(item@.id) ==> i
                    <= base.children_of(parent_id@).len()
            }),
        ensures
            final(self).wf(),
            ({
                let base = old(self)@.put_if_absent(item@);
                match done {
                    Ok(_) => {
                        &&& base.contains(parent_id@)
                        &&& !base.children_of(parent_id@).contains(item@.id)
                        &&& final(self)@ == base.attach(
                            item@.id,
                            parent_id@,
                            insertion_point(index, base.children_of(parent_id@).len()),
                        )
                    },
                    Err(e) => {
                        &&& final(self)@ == base
                        &&& e == if base.contains(parent_id@) {
                            ListItemTaskError::ParentAlreadyHasItem
                        } else {
                            ListItemTaskError::ParentIdDoesNotExist
                        }
                        &&& base.contains(parent_id@) ==> base.children_of(parent_id@).contains(
                            item@.id,
                        )
                    },
                }
            }),
            old(self)@.valid() && item@.children.no_duplicates() && old(self)@.put_if_absent(
                item@,
            ).holds_all(item@.children) ==> final(self)@.valid(),
    {
        let item_id = item.id.clone();
        proof {
            if old(self)@.valid() && item@.children.no_duplicates() && old(self)@.put_if_absent(
                item@,
            ).holds_all(item@.children) && !old(self)@.contains(item@.id) {
                old(self)@.put_keeps_valid(item@);
            }
        }
        if self.find(item_id.as_str()).is_none() {
            let key = item.id.clone();
            self.store(key, item);
        }
        self.add_existing_child_list_item(&item_id, parent_id, index)
    }

    /// The items that `ids` name, in the order of `ids`.
    fn lookup_all(&self, ids: &Vec<String>) -> (items: Vec<&ListItem>)
        requires
            self.wf(),
            self@.holds_all(ids_of(ids@)),
        ensures
            items_of(items@) == self@.resolve(ids_of(ids@)),
    {
        let mut items: Vec<&ListItem> = Vec::new();
        let mut i: usize = 0;
        while i < ids.len()
            invariant
                self.wf(),
                self@.holds_all(ids_of(ids@)),
                i <= ids@.len(),
                items@.len() == i,
                forall|j: int| 0 <= j < i ==> (#[trigger] items@[j])@ == self@.items[ids@[j]@],
            decreases ids@.len() - i,
        {
            assert(self@.contains(ids_of(ids@)[i as int]));
            match self.get_list_item(ids[i].as_str()) {
                Some(item) => {
                    items.push(item);
                },
                None => {
                    assert(false);
                },
            }
            i += 1;
        }
        assert(items_of(items@) =~= self@.resolve(ids_of(ids@)));
        items
    }

    /// The root-level items, in order.
    pub fn get_top_level_list_items(&self) -> (items: Vec<&ListItem>)
        requires
            self.wf(),
            self@.holds_all(self@.top_level),
        ensures
            items_of(items@) == self@.resolve(self@.top_level),
    {
        proof {
            self.view_by_slot();
        }
        self.lookup_all(&self.top_level_items)
    }

    /// The children of `item`, in order, each looked up in the store.
    pub fn get_children(&self, item: &ListItem) -> (items: Vec<&ListItem>)
        requires
            self.wf(),
            self@.holds_all(item@.children),
        ensures
            items_of(items@) == self@.resolve(item@.children),
    {
        self.lookup_all(&item.children)
    }

    /// The item kept under `id`, for changing in place. The store afterwards
    /// keeps under `id` whatever the caller has left in the item.
    pub fn get_mut_list_item(&mut self, id: &str) -> (found: Option<&mut ListItem>)
        requires
            old(self).wf(),
        ensures
            match found {
                Some(item) => {
                    &&& old(self)@.contains(id@)
                    &&& item@ == old(self)@.items[id@]
                    &&& final(self).wf()
                    &&& final(self)@ == old(self)@.put(id@, final(item)@)
                },
                None => !old(self)@.contains(id@) && *final(self) == *old(self),
            },
    {
        let ghost before = *self;
        proof {
            before.view_by_slot();
        }
        match self.find(id) {
            Some(i) => {
                proof {
                    assert forall|slot: Slot| slot.key == before.slots@[i as int].key implies keys_of(
                        #[trigger] before.slots@.update(i as int, slot),
                    ) == keys_of(before.slots@) && items_in(before.slots@.update(i as int, slot))
                        == items_in(before.slots@).insert(id@, slot.item@) by {
                        items_after_update(before.slots@, i as int, slot);
                    }
                }
                Some(&mut self.slots[i].item)
            },
            None => None,
        }
    }

    /// Deletes the item kept under `id` and takes `id` out of every list of
    /// children and of the top level.
    pub fn remove_list_item(&mut self, id: &str) -> (done: Result<(), ListItemDeletionError>)
        requires
            old(self).wf(),
        ensures
            final(self).wf(),
            match done {
                Ok(_) => old(self)@.contains(id@) && final(self)@ == old(self)@.remove(id@),
                Err(e) => e == ListItemDeletionError::ItemNotExist && !old(self)@.contains(id@)
                    && final(self)@ == old(self)@,
            },
            old(self)@.valid() ==> final(self)@.valid(),
    {
        let ghost before = *self;
        let at = match self.find(id) {
            Some(at) => at,
            None => {
                return Err(ListItemDeletionError::ItemNotExist);
            },
        };
        self.slots.remove(at);
        let ghost kept = self.slots@;
        proof {
            items_after_remove(before.slots@, at as int);
        }
        let mut j: usize = 0;
        while j < self.slots.len()
            invariant
                j <= self.slots@.len(),
                self.slots@.len() == kept.len(),
                self.top_level_items == before.top_level_items,
                forall|k: int|
                    0 <= k < kept.len() ==> (#[trigger] self.slots@[k]).key == kept[k].key
                        && self.slots@[k].item@ == with_children(
                        kept[k].item@,
                        if k < j {
                            without(kept[k].item@.children, id@)
                        } else {
                            kept[k].item@.children
                        },
                    ),
            decreases self.slots@.len() - j,
        {
            remove_id(&mut self.slots[j].item.children, id);
            j += 1;
        }
        remove_id(&mut self.top_level_items, id);
        proof {
            let expected = before@.remove(id@);
            assert(keys_of(self.slots@) =~= keys_of(kept));
            items_by_slot(before.slots@);
            items_by_slot(kept);
            items_by_slot(self.slots@);
            assert forall|k: Seq<char>| self@.items.contains_key(k) implies #[trigger] self@.items[k]
                == expected.items[k] by {
                let a = choose|a: int| 0 <= a < keys_of(kept).len() && keys_of(kept)[a] == k;
                assert(keys_of(self.slots@)[a] == k);
                assert(items_in(kept)[k] == kept[a].item@);
            }
            assert(self@.items =~= expected.items);
            if before@.valid() {
                before@.remove_keeps_valid(id@);
            }
        }
        Ok(())
    }

    /// Takes `child_id` out of one membership list: the children of
    /// `parent_id`, or the top level when no parent is named. The item itself
    /// stays in the store.
    pub fn remove_child_list_item(&mut self, child_id: &String, parent_id: Option<&String>) -> (done:
        Result<(), ListItemDeletionError>)
        requires
            old(self).wf(),
        ensures
            final(self).wf(),
            match done {
                Ok(_) => {
                    &&& old(self)@.contains(child_id@)
                    &&& parent_id matches Some(p) ==> old(self)@.contains(p@)
                    &&& final(self)@ == old(self)@.detach(child_id@, name_of(parent_id))
                },
                Err(e) => {
                    &&& final(self)@ == old(self)@
                    &&& e == if old(self)@.contains(child_id@) {
                        ListItemDeletionError::ParentDoesNotExist
                    } else {
                        ListItemDeletionError::ChildDoesNotExist
                    }
                    &&& old(self)@.contains(child_id@) ==> (parent_id matches Some(p)
                        && !old(self)@.contains(p@))
                },
            },
            old(self)@.valid() ==> final(self)@.valid(),
    {
        let ghost before = *self;
        proof {
            before.view_by_slot();
        }
        if self.find(child_id.as_str()).is_none() {
            return Err(ListItemDeletionError::ChildDoesNotExist);
        }
        match parent_id {
            Some(parent_id) => {
                let p = match self.find(parent_id.as_str()) {
                    Some(p) => p,
                    None => {
                        return Err(ListItemDeletionError::ParentDoesNotExist);
                    },
                };
                remove_id(&mut self.slots[p].item.children, child_id.as_str());
                proof {
                    let item = self.slots@[p as int].item;
                    assert(self.slots@ =~= before.slots@.update(
                        p as int,
                        Slot { key: before.slots@[p as int].key, item },
                    ));
                    before.view_after_update(&*self, p as int, item);
                }
            },
            None => {
                remove_id(&mut self.top_level_items, child_id.as_str());
            },
        }
        proof {
            if before@.valid() {
                before@.detach_keeps_valid(child_id@, name_of(parent_id));
            }
        }
        Ok(())
    }

    /// The position of `child_id` among the children of `parent_id`.
    pub fn get_index_of_child(&self, child_id: &String, parent_id: &String) -> (found: Result<
        usize,
        ListItemTaskError,
    >)
        requires
            self.wf(),
        ensures
            match found {
                Ok(i) => self@.contains(parent_id@) && first_at(
                    self@.children_of(parent_id@),
                    child_id@,
                    i as int,
                ),
                Err(e) => {
                    &&& e == if self@.contains(parent_id@) {
                        ListItemTaskError::ChildIdDoesNotExist
                    } else {
                        ListItemTaskError::ParentIdDoesNotExist
                    }
                    &&& self@.contains(parent_id@) ==> !self@.children_of(parent_id@).contains(
                        child_id@,
                    )
                },
            },
    {
        proof {
            self.view_by_slot();
        }
        match self.find(parent_id.as_str()) {
            Some(p) => match position_of(&self.slots[p].item.children, child_id.as_str()) {
                Some(i) => Ok(i),
                None => Err(ListItemTaskError::ChildIdDoesNotExist),
            },
            None => Err(ListItemTaskError::ParentIdDoesNotExist),
        }
    }

    /// The position of `child_id` in the top level.
    pub fn get_index_of_top_level_item(&self, child_id: &String) -> (found: Result<
        usize,
        ListItemTaskError,
    >)
        requires
            self.wf(),
        ensures
            match found {
                Ok(i) => first_at(self@.top_level, child_id@, i as int),
                Err(e) => e == ListItemTaskError::ChildIdDoesNotExist && !self@.top_level.contains(
                    child_id@,
                ),
            },
    {
        match position_of(&self.top_level_items, child_id.as_str()) {
            Some(i) => Ok(i),
            None => Err(ListItemTaskError::ChildIdDoesNotExist),
        }
    }

    /// Whether every identifier of `ids` names an item of the store.
    fn holds_every(&self, ids: &Vec<String>) -> (all: bool)
        requires
            self.wf(),
        ensures
            all == self@.holds_all(ids_of(ids@)),
    {
        let mut i: usize = 0;
        while i < ids.len()
            invariant
                self.wf(),
                i <= ids@.len(),
                forall|j: int| 0 <= j < i ==> self@.contains(#[trigger] ids_of(ids@)[j]),
            decreases ids@.len() - i,
        {
            if self.find(ids[i].as_str()).is_none() {
                assert(!self@.contains(ids_of(ids@)[i as int]));
                return false;
            }
            i += 1;
        }
        true
    }

    /// Whether the store meets its invariant: every identifier in a
    /// membership list names an item, no list names one twice, and each item
    /// is kept under its own identifier.
    pub fn is_valid(&self) -> (valid: bool)
        requires
            self.wf(),
        ensures
            valid == self@.valid(),
    {
        proof {
            self.view_by_slot();
        }
        if !all_distinct(&self.top_level_items) || !self.holds_every(&self.top_level_items) {
            return false;
        }
        let mut i: usize = 0;
        while i < self.slots.len()
            invariant
                self.wf(),
                i <= self.slots@.len(),
                forall|j: int| 0 <= j < i ==> self@.item_valid(#[trigger] self.keys()[j]),
            decreases self.slots@.len() - i,
        {
            proof {
                self.view_by_slot();
            }
            let slot = &self.slots[i];
            if !same_text(slot.key.as_str(), slot.item.id.as_str()) || !all_distinct(
                &slot.item.children,
            ) || !self.holds_every(&slot.item.children) {
                assert(self@.contains(self.keys()[i as int]));
                assert(!self@.item_valid(self.keys()[i as int]));
                return false;
            }
            i += 1;
        }
        proof {
            assert forall|id: Seq<char>| #[trigger] self@.contains(id) implies self@.item_valid(
                id,
            ) by {
                let k = self.keys().index_of(id);
                assert(self.keys()[k] == id);
            }
        }
        true
    }

    /// The identifiers of the root-level items, in order.
    pub fn top_level_ids(&self) -> (ids: Vec<String>)
        requires
            self.wf(),
        ensures
            ids_of(ids@) == self@.top_level,
    {
        copy_ids(&self.top_level_items)
    }

    /// Every item of the store with the identifier it is kept under, each
    /// once.
    pub fn entries(&self) -> (entries: Vec<(String, ListItem)>)
        requires
            self.wf(),
        ensures
            self@.listed_by(entries_of(entries@)),
            forall|i: int, j: int|
                0 <= i < entries@.len() && 0 <= j < entries@.len() && i != j ==> entries_of(
                    entries@,
                )[i].0 != entries_of(entries@)[j].0,
    {
        let mut entries: Vec<(String, ListItem)> = Vec::new();
        let mut i: usize = 0;
        while i < self.slots.len()
            invariant
                self.wf(),
                i <= self.slots@.len(),
                entries@.len() == i,
                forall|j: int|
                    0 <= j < i ==> (#[trigger] entries@[j]).0@ == self.keys()[j] && entries@[j].1@
                        == self.slots@[j].item@,
            decreases self.slots@.len() - i,
        {
            entries.push((self.slots[i].key.clone(), self.slots[i].item.duplicate()));
            i += 1;
        }
        proof {
            self.view_by_slot();
            let listed = entries_of(entries@);
            assert forall|j: int| 0 <= j < listed.len() implies self@.contains(
                (#[trigger] listed[j]).0,
            ) && self@.items[listed[j].0] == listed[j].1 by {
                assert(entries@[j].0@ == self.keys()[j]);
            }
            assert forall|k: Seq<char>| #[trigger] self@.contains(k) implies exists|j: int|
                0 <= j < listed.len() && (#[trigger] listed[j]).0 == k by {
                let j = self.keys().index_of(k);
                assert(self.keys()[j] == k);
                assert(entries@[j].0@ == self.keys()[j]);
                assert(listed[j].0 == k);
            }
            assert forall|i: int, j: int|
                0 <= i < entries@.len() && 0 <= j < entries@.len() && i != j implies listed[i].0
                != listed[j].0 by {
                assert(entries@[i].0@ == self.keys()[i]);
                assert(entries@[j].0@ == self.keys()[j]);
            }
        }
        entries
    }

    /// The store that holds the given entries, a later entry in place of an
    /// earlier one with the same identifier, and the given top level.
    pub fn from_entries(entries: Vec<(String, ListItem)>, top_level: Vec<String>) -> (list: List)
        ensures
            list.wf(),
            list@ == of_entries(entries_of(entries@), ids_of(top_level@)),
    {
        let ghost all = entries_of(entries@);
        let ghost top = ids_of(top_level@);
        let mut list = List { slots: Vec::new(), top_level_items: top_level };
        assert(list@.items =~= Map::<Seq<char>, ItemView>::empty());
        for entry in it: entries
            invariant
                list.wf(),
                it.seq().len() == all.len(),
                forall|j: int|
                    0 <= j < all.len() ==> (#[trigger] it.seq()[j]).0@ == all[j].0 && it.seq()[j].1@
                        == all[j].1,
                list@ == of_entries(all.take(it.index() as int), top),
        {
            let (key, item) = entry;
            proof {
                let n = it.index() as int;
                assert(all.take(n + 1).drop_last() =~= all.take(n));
                assert(all.take(n + 1).last() == all[n]);
            }
            list.store(key, item);
        }
        assert(all.take(all.len() as int) =~= all);
        list
    }
}

} // verus!

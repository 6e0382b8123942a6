//! The store as mathematics: a map from identifier to item and the ordered
//! identifiers of the top level, with the store's operations as functions on
//! that pair. The contracts of `List` are stated over these.

use crate::list_item::ItemView;
use crate::text::{without, without_contains, without_no_duplicates};
use vstd::prelude::*;

verus! {

/// What a store holds.
pub struct StoreView {
    /// Every item, by the identifier it is kept under.
    pub items: Map<Seq<char>, ItemView>,
    /// The identifiers of the root-level items, in order.
    pub top_level: Seq<Seq<char>>,
}

/// `item` with `children` in place of its own.
pub open spec fn with_children(item: ItemView, children: Seq<Seq<char>>) -> ItemView {
    ItemView { id: item.id, value: item.value, children, state: item.state }
}

/// Where an insertion goes in a list of `len` entries: at the position asked
/// for, or at the end when none is.
pub open spec fn insertion_point(index: Option<usize>, len: nat) -> int {
    match index {
        Some(i) => i as int,
        None => len as int,
    }
}

impl StoreView {
    /// The store without any item.
    pub open spec fn empty() -> StoreView {
        StoreView { items: Map::empty(), top_level: Seq::empty() }
    }

    /// Whether an item is kept under `id`.
    pub open spec fn contains(self, id: Seq<char>) -> bool {
        self.items.contains_key(id)
    }

    /// The child identifiers of the item kept under `id`.
    pub open spec fn children_of(self, id: Seq<char>) -> Seq<Seq<char>> {
        self.items[id].children
    }

    /// Whether every identifier of `ids` names an item of the store.
    pub open spec fn holds_all(self, ids: Seq<Seq<char>>) -> bool {
        forall|i: int| 0 <= i < ids.len() ==> self.contains(#[trigger] ids[i])
    }

    /// The items that `ids` name, in the order of `ids`.
    pub open spec fn resolve(self, ids: Seq<Seq<char>>) -> Seq<ItemView> {
        Seq::new(ids.len(), |i: int| self.items[ids[i]])
    }

    /// Whether the item kept under `id` carries that identifier, names only
    /// items of the store as children, and names none of them twice.
    pub open spec fn item_valid(self, id: Seq<char>) -> bool {
        &&& self.items[id].id == id
        &&& self.items[id].children.no_duplicates()
        &&& self.holds_all(self.items[id].children)
    }

    /// The invariant of a store: every identifier that occurs in a membership
    /// list names an item, no list names one twice, and each item is kept
    /// under its own identifier.
    pub open spec fn valid(self) -> bool {
        &&& self.top_level.no_duplicates()
        &&& self.holds_all(self.top_level)
        &&& forall|id: Seq<char>| #[trigger] self.contains(id) ==> self.item_valid(id)
    }

    /// The store with `item` kept under `key`, in place of what was there.
    pub open spec fn put(self, key: Seq<char>, item: ItemView) -> StoreView {
        StoreView { items: self.items.insert(key, item), top_level: self.top_level }
    }

    /// The store with `item` added under its identifier unless that
    /// identifier is taken.
    pub open spec fn put_if_absent(self, item: ItemView) -> StoreView {
        if self.contains(item.id) {
            self
        } else {
            self.put(item.id, item)
        }
    }

    /// `item` kept under its identifier and made a root at position `at`.
    pub open spec fn add_top(self, item: ItemView, at: int) -> StoreView {
        StoreView {
            items: self.items.insert(item.id, item),
            top_level: self.top_level.insert(at, item.id),
        }
    }

    /// `child` made a child of `parent` at position `at`.
    pub open spec fn attach(self, child: Seq<char>, parent: Seq<char>, at: int) -> StoreView {
        self.put(
            parent,
            with_children(self.items[parent], self.items[parent].children.insert(at, child)),
        )
    }

    /// The item under `id` deleted, and `id` taken out of every list of
    /// children and of the top level.
    pub open spec fn remove(self, id: Seq<char>) -> StoreView {
        StoreView {
            items: Map::new(
                |k: Seq<char>| self.items.contains_key(k) && k != id,
                |k: Seq<char>| with_children(self.items[k], without(self.items[k].children, id)),
            ),
            top_level: without(self.top_level, id),
        }
    }

    /// `child` taken out of one membership list: that of `parent`, or the top
    /// level when no parent is named. The item itself stays.
    pub open spec fn detach(self, child: Seq<char>, parent: Option<Seq<char>>) -> StoreView {
        match parent {
            Some(p) => self.put(
                p,
                with_children(self.items[p], without(self.items[p].children, child)),
            ),
            None => StoreView { items: self.items, top_level: without(self.top_level, child) },
        }
    }
}

/// Inserting an element that a duplicate-free sequence does not hold leaves
/// it duplicate-free, and the result holds what the sequence held and the
/// element.
pub proof fn insert_fresh(s: Seq<Seq<char>>, at: int, x: Seq<char>)
    requires
        0 <= at <= s.len(),
    ensures
        s.no_duplicates() && !s.contains(x) ==> s.insert(at, x).no_duplicates(),
        forall|y: Seq<char>| s.insert(at, y).contains(y),
        forall|y: Seq<char>| #[trigger] s.insert(at, x).contains(y) <==> (y == x || s.contains(y)),
{
    let t = s.insert(at, x);
    assert forall|y: Seq<char>| #[trigger] t.contains(y) <==> (y == x || s.contains(y)) by {
        if t.contains(y) {
            let k = choose|k: int| 0 <= k < t.len() && t[k] == y;
            if k < at {
                assert(s[k] == y);
            } else if k > at {
                assert(s[k - 1] == y);
            }
        }
        if s.contains(y) {
            let k = choose|k: int| 0 <= k < s.len() && s[k] == y;
            if k < at {
                assert(t[k] == y);
            } else {
                assert(t[k + 1] == y);
            }
        }
        if y == x {
            assert(t[at] == y);
        }
    }
    assert forall|y: Seq<char>| s.insert(at, y).contains(y) by {
        assert(s.insert(at, y)[at] == y);
    }
    if s.no_duplicates() && !s.contains(x) {
        assert forall|i: int, j: int| 0 <= i < t.len() && 0 <= j < t.len() && i != j implies t[i]
            != t[j] by {
            let a = if i < at {
                i
            } else {
                i - 1
            };
            let b = if j < at {
                j
            } else {
                j - 1
            };
            if i != at {
                assert(t[i] == s[a]);
                assert(s.contains(s[a]));
            }
            if j != at {
                assert(t[j] == s[b]);
                assert(s.contains(s[b]));
            }
        }
    }
}

impl StoreView {
    /// Putting a valid item under its own identifier keeps a store valid.
    pub proof fn put_keeps_valid(self, item: ItemView)
        requires
            self.valid(),
            item.children.no_duplicates(),
            self.put(item.id, item).holds_all(item.children),
        ensures
            self.put(item.id, item).valid(),
    {
        let after = self.put(item.id, item);
        assert forall|id: Seq<char>| #[trigger] after.contains(id) implies after.item_valid(id) by {
            if id != item.id {
                assert(self.contains(id));
                assert(self.item_valid(id));
                assert forall|i: int| 0 <= i < self.items[id].children.len() implies after.contains(
                    #[trigger] after.items[id].children[i],
                ) by {
                    assert(self.contains(self.items[id].children[i]));
                }
            }
        }
        assert forall|i: int| 0 <= i < after.top_level.len() implies after.contains(
            #[trigger] after.top_level[i],
        ) by {
            assert(self.contains(self.top_level[i]));
        }
    }

    /// Adding a valid item as a root it was not before keeps a store valid.
    pub proof fn add_top_keeps_valid(self, item: ItemView, at: int)
        requires
            self.valid(),
            0 <= at <= self.top_level.len(),
            !self.top_level.contains(item.id),
            item.children.no_duplicates(),
            self.put(item.id, item).holds_all(item.children),
        ensures
            self.add_top(item, at).valid(),
    {
        self.put_keeps_valid(item);
        let mid = self.put(item.id, item);
        let after = self.add_top(item, at);
        insert_fresh(self.top_level, at, item.id);
        assert forall|i: int| 0 <= i < after.top_level.len() implies after.contains(
            #[trigger] after.top_level[i],
        ) by {
            assert(after.top_level.contains(after.top_level[i]));
            if after.top_level[i] != item.id {
                let k = choose|k: int|
                    0 <= k < self.top_level.len() && self.top_level[k] == after.top_level[i];
                assert(mid.contains(mid.top_level[k]));
            }
        }
        assert forall|id: Seq<char>| #[trigger] after.contains(id) implies after.item_valid(id) by {
            assert(mid.contains(id));
            assert(mid.item_valid(id));
        }
    }

    /// Attaching an item of the store under a parent that does not have it
    /// yet keeps a store valid.
    pub proof fn attach_keeps_valid(self, child: Seq<char>, parent: Seq<char>, at: int)
        requires
            self.valid(),
            self.contains(child),
            self.contains(parent),
            !self.children_of(parent).contains(child),
            0 <= at <= self.children_of(parent).len(),
        ensures
            self.attach(child, parent, at).valid(),
    {
        let kids = self.items[parent].children;
        let item = with_children(self.items[parent], kids.insert(at, child));
        assert(self.item_valid(parent));
        insert_fresh(kids, at, child);
        assert forall|i: int| 0 <= i < item.children.len() implies self.put(
            parent,
            item,
        ).contains(#[trigger] item.children[i]) by {
            assert(item.children.contains(item.children[i]));
            if item.children[i] != child {
                let k = choose|k: int| 0 <= k < kids.len() && kids[k] == item.children[i];
                assert(self.contains(kids[k]));
            }
        }
        self.put_keeps_valid(item);
    }

    /// Removing an item keeps a store valid.
    pub proof fn remove_keeps_valid(self, id: Seq<char>)
        requires
            self.valid(),
        ensures
            self.remove(id).valid(),
    {
        let after = self.remove(id);
        without_no_duplicates(self.top_level, id);
        assert forall|i: int| 0 <= i < after.top_level.len() implies after.contains(
            #[trigger] after.top_level[i],
        ) by {
            let x = after.top_level[i];
            assert(after.top_level.contains(x));
            without_contains(self.top_level, id, x);
            let k = choose|k: int| 0 <= k < self.top_level.len() && self.top_level[k] == x;
            assert(self.contains(self.top_level[k]));
        }
        assert forall|key: Seq<char>| #[trigger] after.contains(key) implies after.item_valid(
            key,
        ) by {
            assert(self.contains(key));
            assert(self.item_valid(key));
            let kids = self.items[key].children;
            without_no_duplicates(kids, id);
            assert forall|i: int| 0 <= i < without(kids, id).len() implies after.contains(
                #[trigger] without(kids, id)[i],
            ) by {
                let x = without(kids, id)[i];
                assert(without(kids, id).contains(x));
                without_contains(kids, id, x);
                let k = choose|k: int| 0 <= k < kids.len() && kids[k] == x;
                assert(self.contains(kids[k]));
            }
        }
    }

    /// Detaching an item from a parent of the store, or from the top level,
    /// keeps a store valid.
    pub proof fn detach_keeps_valid(self, child: Seq<char>, parent: Option<Seq<char>>)
        requires
            self.valid(),
            parent matches Some(p) ==> self.contains(p),
        ensures
            self.detach(child, parent).valid(),
    {
        let after = self.detach(child, parent);
        match parent {
            Some(p) => {
                let kids = self.items[p].children;
                let item = with_children(self.items[p], without(kids, child));
                assert(self.item_valid(p));
                without_no_duplicates(kids, child);
                assert forall|i: int| 0 <= i < item.children.len() implies self.put(
                    p,
                    item,
                ).contains(#[trigger] item.children[i]) by {
                    let x = item.children[i];
                    assert(item.children.contains(x));
                    without_contains(kids, child, x);
                    let k = choose|k: int| 0 <= k < kids.len() && kids[k] == x;
                    assert(self.contains(kids[k]));
                }
                self.put_keeps_valid(item);
            },
            None => {
                without_no_duplicates(self.top_level, child);
                assert forall|i: int| 0 <= i < after.top_level.len() implies after.contains(
                    #[trigger] after.top_level[i],
                ) by {
                    let x = after.top_level[i];
                    assert(after.top_level.contains(x));
                    without_contains(self.top_level, child, x);
                    let k = choose|k: int| 0 <= k < self.top_level.len() && self.top_level[k] == x;
                    assert(self.contains(self.top_level[k]));
                }
                assert forall|key: Seq<char>| #[trigger] after.contains(key) implies after.item_valid(
                    key,
                ) by {
                    assert(self.contains(key));
                    assert(self.item_valid(key));
                    assert forall|i: int|
                        0 <= i < self.items[key].children.len() implies after.contains(
                        #[trigger] self.items[key].children[i],
                    ) by {
                        assert(self.contains(self.items[key].children[i]));
                    }
                }
            },
        }
    }
}

/// The store that results from putting the entries, one after the other,
/// into an empty store with the given top level.
pub open spec fn of_entries(
    entries: Seq<(Seq<char>, ItemView)>,
    top_level: Seq<Seq<char>>,
) -> StoreView
    decreases entries.len(),
{
    if entries.len() == 0 {
        StoreView { items: Map::empty(), top_level }
    } else {
        of_entries(entries.drop_last(), top_level).put(entries.last().0, entries.last().1)
    }
}

impl StoreView {
    /// Whether `entries` lists the items of the store: each entry is an item
    /// of the store under its identifier, and every item has an entry.
    pub open spec fn listed_by(self, entries: Seq<(Seq<char>, ItemView)>) -> bool {
        &&& forall|i: int|
            0 <= i < entries.len() ==> self.contains((#[trigger] entries[i]).0)
                && self.items[entries[i].0] == entries[i].1
        &&& forall|k: Seq<char>| #[trigger]
            self.contains(k) ==> exists|i: int| 0 <= i < entries.len() && (#[trigger] entries[i]).0
                == k
    }
}

} // verus!

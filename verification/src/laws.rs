//! What holds of the store's operations taken together, whatever the store
//! and the items. Each law is stated over the same functions on `StoreView`
//! that the contracts of `List` use: a call of `List` that succeeds leaves a
//! store whose view is the function's value.

use crate::display::{collapsed, kid_entries};
use crate::list_item::ItemView;
use crate::model::{insert_fresh, of_entries, StoreView};
use crate::text::without_contains;
use vstd::prelude::*;

verus! {

/// Adding an item as a root and then a second item as its child leaves the
/// second listed among the children of the first exactly once, at the
/// position it was inserted at, and held by the store. The second addition
/// succeeds exactly when the first item did not name the second as a child
/// already, which is what the law asks.
pub proof fn added_child_is_listed_once(
    store: StoreView,
    parent: ItemView,
    child: ItemView,
    at_top: int,
    at: int,
)
    requires
        !parent.children.contains(child.id),
        0 <= at <= parent.children.len(),
    ensures
        ({
            let base = store.add_top(parent, at_top).put_if_absent(child);
            let after = base.attach(child.id, parent.id, at);
            &&& base.contains(parent.id)
            &&& !base.children_of(parent.id).contains(child.id)
            &&& after.contains(child.id)
            &&& after.children_of(parent.id) == parent.children.insert(at, child.id)
            &&& forall|j: int|
                0 <= j < after.children_of(parent.id).len() ==> (after.children_of(parent.id)[j]
                    == child.id <==> j == at)
        }),
{
    let base = store.add_top(parent, at_top).put_if_absent(child);
    let after = base.attach(child.id, parent.id, at);
    assert(base.items[parent.id] == parent);
    let kids = after.children_of(parent.id);
    assert(kids == parent.children.insert(at, child.id));
    assert forall|j: int| 0 <= j < kids.len() implies (kids[j] == child.id <==> j == at) by {
        if j < at {
            assert(kids[j] == parent.children[j]);
            assert(parent.children.contains(parent.children[j]));
        } else if j > at {
            assert(kids[j] == parent.children[j - 1]);
            assert(parent.children.contains(parent.children[j - 1]));
        }
    }
}

/// Removing an item purges every reference to it in one step: the store no
/// longer holds it, no item that is left names it as a child, however many
/// did before, and the top level does not name it.
pub proof fn removed_item_is_gone(store: StoreView, id: Seq<char>)
    ensures
        !store.remove(id).contains(id),
        !store.remove(id).top_level.contains(id),
        forall|parent: Seq<char>| #[trigger]
            store.remove(id).contains(parent) ==> !store.remove(id).children_of(parent).contains(
                id,
            ),
        forall|other: Seq<char>|
            other != id ==> (#[trigger] store.remove(id).contains(other) <==> store.contains(
                other,
            )),
{
    without_contains(store.top_level, id, id);
    assert forall|parent: Seq<char>| #[trigger]
        store.remove(id).contains(parent) implies !store.remove(id).children_of(parent).contains(
        id,
    ) by {
        without_contains(store.items[parent].children, id, id);
    }
}

/// Detaching a child removes the membership edge and nothing else: the list
/// it was taken from no longer names it, every other identifier stays where
/// it was in that list, and the store still holds the child.
pub proof fn detached_item_persists(store: StoreView, child: Seq<char>, parent: Option<Seq<char>>)
    requires
        store.contains(child),
        parent matches Some(p) ==> store.contains(p),
    ensures
        store.detach(child, parent).contains(child),
        forall|id: Seq<char>|
            store.contains(id) <==> #[trigger] store.detach(child, parent).contains(id),
        parent != Some(child) ==> store.detach(child, parent).items[child] == store.items[child],
        match parent {
            Some(p) => !store.detach(child, parent).children_of(p).contains(child)
                && store.detach(child, parent).top_level == store.top_level,
            None => !store.detach(child, parent).top_level.contains(child) && store.detach(
                child,
                parent,
            ).items == store.items,
        },
{
    match parent {
        Some(p) => {
            without_contains(store.items[p].children, child, child);
        },
        None => {
            without_contains(store.top_level, child, child);
        },
    }
}

/// An item copied under a second parent and then detached from its first
/// parent, or from the top level, is still a child of the second and still
/// held by the store, and expanding any row of the second parent shows a row
/// of the item below it.
pub proof fn copy_survives_detach(
    store: StoreView,
    item: Seq<char>,
    new_parent: Seq<char>,
    at: int,
    old_parent: Option<Seq<char>>,
    path: Seq<Seq<char>>,
)
    requires
        store.contains(item),
        store.contains(new_parent),
        0 <= at <= store.children_of(new_parent).len(),
        old_parent != Some(new_parent),
        path.len() > 0,
        path.last() == new_parent,
    ensures
        ({
            let after = store.attach(item, new_parent, at).detach(item, old_parent);
            &&& after.contains(item)
            &&& after.items[item].value == store.items[item].value
            &&& after.contains(new_parent)
            &&& after.children_of(new_parent).contains(item)
            &&& after.children_of(new_parent) == store.children_of(new_parent).insert(at, item)
            &&& kid_entries(after, path).contains(collapsed(path.push(item)))
        }),
{
    insert_fresh(store.children_of(new_parent), at, item);
    let after = store.attach(item, new_parent, at).detach(item, old_parent);
    let kids = after.children_of(new_parent);
    assert(kids[at] == item);
    assert(kid_entries(after, path)[kids.len() - 1 - at] == collapsed(path.push(item)));
}

/// A store rebuilt from a listing of its items and from its top level is the
/// store that was listed: the same identifiers, and under each the same
/// value, status and children in the same order, and the same top level.
pub proof fn rebuilt_store_is_the_same(store: StoreView, entries: Seq<(Seq<char>, ItemView)>)
    requires
        store.listed_by(entries),
    ensures
        of_entries(entries, store.top_level) == store,
{
    rebuilt_prefix(store, entries, entries.len() as int);
    assert(entries.take(entries.len() as int) =~= entries);
    let rebuilt = of_entries(entries, store.top_level);
    assert(rebuilt == of_entries(entries.take(entries.len() as int), store.top_level));
    assert forall|k: Seq<char>| #[trigger]
        store.items.dom().contains(k) implies rebuilt.items.dom().contains(k) by {
        assert(store.contains(k));
        let i = choose|i: int| 0 <= i < entries.len() && (#[trigger] entries[i]).0 == k;
        assert(rebuilt.items.contains_key(entries[i].0));
    }
    assert forall|k: Seq<char>| #[trigger]
        rebuilt.items.dom().contains(k) implies store.items.dom().contains(k) && rebuilt.items[k]
        == store.items[k] by {
        assert(rebuilt.items.contains_key(k));
    }
    assert(rebuilt.items =~= store.items);
}

/// The store rebuilt from the first `n` entries of a listing holds exactly
/// the identifiers of those entries, each with the item the listed store has.
proof fn rebuilt_prefix(store: StoreView, entries: Seq<(Seq<char>, ItemView)>, n: int)
    requires
        store.listed_by(entries),
        0 <= n <= entries.len(),
    ensures
        of_entries(entries.take(n), store.top_level).top_level == store.top_level,
        forall|k: Seq<char>| #[trigger]
            of_entries(entries.take(n), store.top_level).items.contains_key(k) ==> store.contains(
                k,
            ) && of_entries(entries.take(n), store.top_level).items[k] == store.items[k],
        forall|i: int|
            0 <= i < n ==> of_entries(entries.take(n), store.top_level).items.contains_key(
                (#[trigger] entries[i]).0,
            ),
    decreases n,
{
    if n > 0 {
        rebuilt_prefix(store, entries, n - 1);
        assert(entries.take(n).drop_last() =~= entries.take(n - 1));
        assert(entries.take(n).last() == entries[n - 1]);
        let before = of_entries(entries.take(n - 1), store.top_level);
        let now = of_entries(entries.take(n), store.top_level);
        assert(now == before.put(entries[n - 1].0, entries[n - 1].1));
        assert forall|i: int| 0 <= i < n implies now.items.contains_key(
            (#[trigger] entries[i]).0,
        ) by {
            if i < n - 1 {
                assert(before.items.contains_key(entries[i].0));
            }
        }
    }
}

} // verus!

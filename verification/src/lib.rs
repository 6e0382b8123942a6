//! A personal hierarchical task list: an identity-addressed item store and the
//! flattened, selection-stable view that is derived from it.

pub mod app;
pub mod app_model;
pub mod display;
pub mod laws;
pub mod list;
pub mod list_item;
pub mod model;
pub mod text;

use crate::list::List;
use crate::list_item::{drawn, pending, ItemView, ListItem};
use crate::model::StoreView;
use vstd::prelude::*;

verus! {

/// `item` added to `store` as the last child of `parent`, if `parent` is
/// there and does not have it yet; the item is in the store in any case.
pub open spec fn with_last_child(store: StoreView, item: ItemView, parent: Seq<char>) -> StoreView {
    let base = store.put_if_absent(item);
    if base.contains(parent) && !base.children_of(parent).contains(item.id) {
        base.attach(item.id, parent, base.children_of(parent).len() as int)
    } else {
        base
    }
}

/// The sample list made of the four given items: the first two as roots,
/// the third as child of the first and the fourth as child of the second.
pub open spec fn sample_of(
    first: ItemView,
    second: ItemView,
    first_child: ItemView,
    second_child: ItemView,
) -> StoreView {
    let roots = StoreView::empty().add_top(first, 0).add_top(second, 1);
    with_last_child(with_last_child(roots, first_child, first.id), second_child, second.id)
}

/// The sample list made of the four given items.
pub fn sample_list_of(
    first: ListItem,
    second: ListItem,
    first_child: ListItem,
    second_child: ListItem,
) -> (list: List)
    ensures
        list.wf(),
        list@ == sample_of(first@, second@, first_child@, second_child@),
{
    broadcast use ListItem::view_of_fields;

    let mut list = List::new();
    let parent_1_id = first.id.clone();
    let parent_2_id = second.id.clone();
    list.add_list_item(first, None);
    list.add_list_item(second, None);
    let _ = list.add_child_list_item(first_child, &parent_1_id, None);
    let _ = list.add_child_list_item(second_child, &parent_2_id, None);
    list
}

/// A sample list: two roots, "First item" and "Second item", each with one
/// child, "First child item" and "Second child item", under freshly drawn
/// identifiers.
pub fn get_sample_list() -> (list: List)
    ensures
        list.wf(),
        exists|a: Seq<char>, b: Seq<char>, c: Seq<char>, d: Seq<char>|
            #![trigger drawn(a), drawn(b), drawn(c), drawn(d)]
            drawn(a) && drawn(b) && drawn(c) && drawn(d) && list@ == sample_of(
                pending(a, "First item"@),
                pending(b, "Second item"@),
                pending(c, "First child item"@),
                pending(d, "Second child item"@),
            ),
{
    let top_item_1 = ListItem::new("First item".to_string());
    let top_item_2 = ListItem::new("Second item".to_string());
    let child_1 = ListItem::new("First child item".to_string());
    let child_2 = ListItem::new("Second child item".to_string());
    let ghost a = top_item_1@.id;
    let ghost b = top_item_2@.id;
    let ghost c = child_1@.id;
    let ghost d = child_2@.id;
    let list = sample_list_of(top_item_1, top_item_2, child_1, child_2);
    assert(drawn(a) && drawn(b) && drawn(c) && drawn(d));
    list
}

} // verus!

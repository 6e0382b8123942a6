use just_lists::get_sample_list;
use just_lists::list::{List, ListItemDeletionError, ListItemTaskError};
use just_lists::list_item::{ListItem, State};
use just_lists::sample_list_of;

fn item(id: &str, value: &str) -> ListItem {
    ListItem::with_id(id.to_string(), value.to_string())
}

fn ids(items: Vec<&ListItem>) -> Vec<String> {
    items.into_iter().map(|i| i.id.clone()).collect()
}

fn children(list: &List, id: &str) -> Vec<String> {
    list.get_list_item(id).unwrap().child_ids()
}

fn s(id: &str) -> String {
    id.to_string()
}

#[test]
fn can_get_new_list() {
    let _ = List::new();
}

#[test]
fn can_add_item_to_list() {
    let mut list = List::new();
    list.add_list_item(ListItem::new("First list item".to_string()), None);

    let mut list_length = list.get_top_level_list_items().len();
    assert!(
        list_length == 1,
        "List item length was not 1. Actual: {list_length}"
    );

    list.add_list_item(ListItem::new("Second item".to_string()), None);

    list_length = list.get_top_level_list_items().len();
    assert!(
        list_length == 2,
        "List item length was not 2. Actual: {list_length}"
    );
}

#[test]
fn can_remove_list_items() {
    let mut list = get_sample_list();

    let top_level_items = list.get_top_level_list_items();

    let item_1_id = top_level_items.first().unwrap().id.clone();
    let item_2_id = top_level_items.last().unwrap().id.clone();

    match list.remove_list_item(&item_1_id) {
        Ok(_value) => (),
        Err(error) => panic!(
            "Expected to successfully remove top level item. Actual:{:?}",
            error
        ),
    };

    let first_child_of_2_id = list
        .get_list_item(
            list.get_list_item(&item_2_id)
                .unwrap()
                .child_ids()
                .first()
                .unwrap(),
        )
        .unwrap()
        .id
        .clone();

    match list.remove_list_item(&first_child_of_2_id) {
        Ok(_value) => (),
        Err(error) => panic!(
            "Expected to successfully remove child level item. Actual:{:?}",
            error
        ),
    }
}

#[test]
fn new_list_is_empty_and_valid() {
    let list = List::new();
    assert!(list.is_valid());
    assert_eq!(list.get_top_level_list_items().len(), 0);
    assert_eq!(list.entries().len(), 0);
    assert!(list.get_list_item("a").is_none());
}

#[test]
fn top_level_items_keep_insertion_order() {
    let mut list = List::new();
    list.add_list_item(item("a", "A"), None);
    list.add_list_item(item("b", "B"), None);
    list.add_list_item(item("c", "C"), Some(0));
    list.add_list_item(item("d", "D"), Some(2));
    assert_eq!(ids(list.get_top_level_list_items()), vec![s("c"), s("a"), s("d"), s("b")]);
    assert_eq!(list.top_level_ids(), vec![s("c"), s("a"), s("d"), s("b")]);
    assert!(list.is_valid());
}

#[test]
fn adding_a_root_again_replaces_the_item() {
    let mut list = List::new();
    list.add_list_item(item("a", "old"), None);
    list.add_list_item(item("b", "B"), None);
    let _ = list.add_child_list_item(item("k", "K"), &s("a"), None);
    list.remove_child_list_item(&s("a"), None).unwrap();
    list.add_list_item(item("a", "new"), None);
    assert_eq!(list.get_list_item("a").unwrap().value, "new");
    assert_eq!(children(&list, "a"), Vec::<String>::new());
    assert_eq!(list.top_level_ids(), vec![s("b"), s("a")]);
}

#[test]
fn added_child_is_listed_once_at_its_position() {
    let mut list = List::new();
    list.add_list_item(item("a", "A"), None);
    assert!(list.add_child_list_item(item("b", "B"), &s("a"), None).is_ok());
    assert_eq!(children(&list, "a"), vec![s("b")]);
    let parent = list.get_list_item("a").unwrap();
    let kids = list.get_children(parent);
    assert_eq!(kids.len(), 1);
    assert_eq!(kids[0].id, "b");
    assert_eq!(kids[0].value, "B");
    assert!(list.add_child_list_item(item("c", "C"), &s("a"), Some(0)).is_ok());
    assert!(list.add_child_list_item(item("d", "D"), &s("a"), Some(1)).is_ok());
    assert_eq!(children(&list, "a"), vec![s("c"), s("d"), s("b")]);
    assert_eq!(list.get_index_of_child(&s("b"), &s("a")), Ok(2));
    assert_eq!(list.get_index_of_child(&s("c"), &s("a")), Ok(0));
    assert!(list.is_valid());
}

#[test]
fn adding_a_child_fails_without_the_parent_and_keeps_the_item() {
    let mut list = List::new();
    let done = list.add_child_list_item(item("b", "B"), &s("nobody"), None);
    assert_eq!(done, Err(ListItemTaskError::ParentIdDoesNotExist));
    assert_eq!(list.get_list_item("b").unwrap().value, "B");
    assert_eq!(list.top_level_ids(), Vec::<String>::new());
}

#[test]
fn adding_a_child_twice_fails_and_changes_nothing() {
    let mut list = List::new();
    list.add_list_item(item("a", "A"), None);
    list.add_child_list_item(item("b", "B"), &s("a"), None).unwrap();
    let done = list.add_child_list_item(item("b", "other"), &s("a"), None);
    assert_eq!(done, Err(ListItemTaskError::ParentAlreadyHasItem));
    assert_eq!(children(&list, "a"), vec![s("b")]);
    assert_eq!(list.get_list_item("b").unwrap().value, "B");
}

#[test]
fn adding_an_item_that_exists_as_child_keeps_the_stored_item() {
    let mut list = List::new();
    list.add_list_item(item("a", "A"), None);
    list.add_list_item(item("b", "B"), None);
    assert!(list.add_child_list_item(item("b", "other"), &s("a"), None).is_ok());
    assert_eq!(list.get_list_item("b").unwrap().value, "B");
    assert_eq!(children(&list, "a"), vec![s("b")]);
}

#[test]
fn attaching_shares_an_item_between_parents() {
    let mut list = List::new();
    list.add_list_item(item("a", "A"), None);
    list.add_list_item(item("b", "B"), None);
    list.add_child_list_item(item("x", "X"), &s("a"), None).unwrap();
    assert_eq!(list.add_existing_child_list_item(&s("x"), &s("b"), None), Ok(()));
    assert_eq!(children(&list, "a"), vec![s("x")]);
    assert_eq!(children(&list, "b"), vec![s("x")]);
    assert_eq!(
        list.add_existing_child_list_item(&s("x"), &s("b"), None),
        Err(ListItemTaskError::ParentAlreadyHasItem)
    );
    assert_eq!(
        list.add_existing_child_list_item(&s("x"), &s("nobody"), None),
        Err(ListItemTaskError::ParentIdDoesNotExist)
    );
    assert!(list.is_valid());
}

#[test]
fn attaching_at_an_index_inserts_there() {
    let mut list = List::new();
    list.add_list_item(item("a", "A"), None);
    list.add_list_item(item("x", "X"), None);
    list.add_child_list_item(item("k1", "1"), &s("a"), None).unwrap();
    list.add_child_list_item(item("k2", "2"), &s("a"), None).unwrap();
    list.add_existing_child_list_item(&s("x"), &s("a"), Some(1)).unwrap();
    assert_eq!(children(&list, "a"), vec![s("k1"), s("x"), s("k2")]);
}

#[test]
fn remove_purges_every_reference() {
    let mut list = List::new();
    list.add_list_item(item("a", "A"), None);
    list.add_list_item(item("b", "B"), None);
    list.add_list_item(item("c", "C"), None);
    list.add_list_item(item("x", "X"), None);
    list.add_existing_child_list_item(&s("x"), &s("a"), None).unwrap();
    list.add_existing_child_list_item(&s("x"), &s("b"), None).unwrap();
    list.add_existing_child_list_item(&s("x"), &s("c"), None).unwrap();
    list.add_child_list_item(item("y", "Y"), &s("b"), Some(0)).unwrap();
    assert_eq!(list.remove_list_item("x"), Ok(()));
    assert!(list.get_list_item("x").is_none());
    assert_eq!(children(&list, "a"), Vec::<String>::new());
    assert_eq!(children(&list, "b"), vec![s("y")]);
    assert_eq!(children(&list, "c"), Vec::<String>::new());
    assert_eq!(list.top_level_ids(), vec![s("a"), s("b"), s("c")]);
    assert!(list.is_valid());
    assert_eq!(list.remove_list_item("x"), Err(ListItemDeletionError::ItemNotExist));
}

#[test]
fn remove_of_an_unknown_item_fails() {
    let mut list = List::new();
    list.add_list_item(item("a", "A"), None);
    assert_eq!(list.remove_list_item("b"), Err(ListItemDeletionError::ItemNotExist));
    assert_eq!(list.top_level_ids(), vec![s("a")]);
}

#[test]
fn detach_keeps_the_item_in_the_store() {
    let mut list = List::new();
    list.add_list_item(item("a", "A"), None);
    list.add_child_list_item(item("b", "B"), &s("a"), None).unwrap();
    assert_eq!(list.remove_child_list_item(&s("b"), Some(&s("a"))), Ok(()));
    assert_eq!(children(&list, "a"), Vec::<String>::new());
    assert_eq!(list.get_list_item("b").unwrap().value, "B");
    assert_eq!(list.remove_child_list_item(&s("a"), None), Ok(()));
    assert_eq!(list.top_level_ids(), Vec::<String>::new());
    assert_eq!(list.get_list_item("a").unwrap().value, "A");
    assert!(list.is_valid());
}

#[test]
fn detach_of_an_item_that_is_no_child_changes_nothing() {
    let mut list = List::new();
    list.add_list_item(item("a", "A"), None);
    list.add_list_item(item("b", "B"), None);
    assert_eq!(list.remove_child_list_item(&s("b"), Some(&s("a"))), Ok(()));
    assert_eq!(list.top_level_ids(), vec![s("a"), s("b")]);
}

#[test]
fn detach_names_what_is_missing() {
    let mut list = List::new();
    list.add_list_item(item("a", "A"), None);
    assert_eq!(
        list.remove_child_list_item(&s("nobody"), Some(&s("a"))),
        Err(ListItemDeletionError::ChildDoesNotExist)
    );
    assert_eq!(
        list.remove_child_list_item(&s("nobody"), None),
        Err(ListItemDeletionError::ChildDoesNotExist)
    );
    assert_eq!(
        list.remove_child_list_item(&s("a"), Some(&s("nobody"))),
        Err(ListItemDeletionError::ParentDoesNotExist)
    );
}

#[test]
fn copy_then_detach_leaves_the_copy() {
    let mut list = List::new();
    list.add_list_item(item("p", "P"), None);
    list.add_list_item(item("y", "Y"), None);
    list.add_child_list_item(item("x", "X"), &s("p"), None).unwrap();
    list.add_existing_child_list_item(&s("x"), &s("y"), None).unwrap();
    list.remove_child_list_item(&s("x"), Some(&s("p"))).unwrap();
    assert_eq!(children(&list, "y"), vec![s("x")]);
    assert_eq!(children(&list, "p"), Vec::<String>::new());
    let y = list.get_list_item("y").unwrap();
    assert_eq!(list.get_children(y)[0].value, "X");
}

#[test]
fn index_questions_name_what_is_missing() {
    let mut list = List::new();
    list.add_list_item(item("a", "A"), None);
    list.add_list_item(item("b", "B"), None);
    assert_eq!(list.get_index_of_top_level_item(&s("a")), Ok(0));
    assert_eq!(list.get_index_of_top_level_item(&s("b")), Ok(1));
    assert_eq!(
        list.get_index_of_top_level_item(&s("c")),
        Err(ListItemTaskError::ChildIdDoesNotExist)
    );
    assert_eq!(
        list.get_index_of_child(&s("b"), &s("a")),
        Err(ListItemTaskError::ChildIdDoesNotExist)
    );
    assert_eq!(
        list.get_index_of_child(&s("b"), &s("nobody")),
        Err(ListItemTaskError::ParentIdDoesNotExist)
    );
}

#[test]
fn get_mut_changes_the_stored_item() {
    let mut list = List::new();
    list.add_list_item(item("a", "A"), None);
    {
        let a = list.get_mut_list_item("a").unwrap();
        a.value = "changed".to_string();
        a.state = State::Blocked;
    }
    assert_eq!(list.get_list_item("a").unwrap().value, "changed");
    assert_eq!(list.get_list_item("a").unwrap().state, State::Blocked);
    assert!(list.get_mut_list_item("b").is_none());
    assert!(list.is_valid());
}

#[test]
fn an_item_kept_under_another_identifier_makes_the_store_invalid() {
    let mut list = List::new();
    list.add_list_item(item("a", "A"), None);
    list.get_mut_list_item("a").unwrap().id = "z".to_string();
    assert!(!list.is_valid());
    assert_eq!(list.get_list_item("a").unwrap().id, "z");
}

#[test]
fn dangling_and_repeated_references_make_the_store_invalid() {
    let dangling = List::from_entries(
        vec![(
            s("a"),
            ListItem::from_parts(s("a"), s("A"), vec![s("ghost")], State::Pending),
        )],
        vec![s("a")],
    );
    assert!(!dangling.is_valid());
    let repeated = List::from_entries(
        vec![
            (s("a"), ListItem::from_parts(s("a"), s("A"), vec![s("b"), s("b")], State::Pending)),
            (s("b"), item("b", "B")),
        ],
        vec![s("a")],
    );
    assert!(!repeated.is_valid());
    let missing_root = List::from_entries(vec![(s("a"), item("a", "A"))], vec![s("a"), s("b")]);
    assert!(!missing_root.is_valid());
    let twice_root = List::from_entries(vec![(s("a"), item("a", "A"))], vec![s("a"), s("a")]);
    assert!(!twice_root.is_valid());
    let fine = List::from_entries(
        vec![
            (s("a"), ListItem::from_parts(s("a"), s("A"), vec![s("b")], State::Completed)),
            (s("b"), item("b", "B")),
        ],
        vec![s("a")],
    );
    assert!(fine.is_valid());
}

#[test]
fn a_store_rebuilt_from_its_entries_is_the_same() {
    let mut list = List::new();
    list.add_list_item(item("a", "A"), None);
    list.add_list_item(item("b", "B"), None);
    list.add_child_list_item(item("c", "C"), &s("a"), None).unwrap();
    list.add_child_list_item(item("d", "D"), &s("a"), None).unwrap();
    list.add_existing_child_list_item(&s("c"), &s("b"), None).unwrap();
    list.get_mut_list_item("d").unwrap().state = State::Completed;
    list.add_list_item(item("e", "E"), None);
    list.remove_list_item("e").unwrap();
    list.remove_child_list_item(&s("b"), None).unwrap();

    let rebuilt = List::from_entries(list.entries(), list.top_level_ids());

    assert!(rebuilt.is_valid());
    assert_eq!(rebuilt.top_level_ids(), vec![s("a")]);
    assert_eq!(rebuilt.entries().len(), 4);
    for (key, kept) in list.entries() {
        let copy = rebuilt.get_list_item(&key).unwrap();
        assert_eq!(copy.id, kept.id);
        assert_eq!(copy.value, kept.value);
        assert_eq!(copy.state, kept.state);
        assert_eq!(copy.child_ids(), kept.child_ids());
    }
    assert_eq!(children(&rebuilt, "a"), vec![s("c"), s("d")]);
    assert_eq!(children(&rebuilt, "b"), vec![s("c")]);
    assert_eq!(rebuilt.get_list_item("d").unwrap().state, State::Completed);
}

#[test]
fn a_later_entry_replaces_an_earlier_one() {
    let list = List::from_entries(
        vec![(s("a"), item("a", "first")), (s("a"), item("a", "second"))],
        vec![],
    );
    assert_eq!(list.entries().len(), 1);
    assert_eq!(list.get_list_item("a").unwrap().value, "second");
}

#[test]
fn sample_list_has_two_roots_with_one_child_each() {
    let list = get_sample_list();
    assert!(list.is_valid());
    let roots = list.get_top_level_list_items();
    assert_eq!(roots.len(), 2);
    assert_eq!(roots[0].value, "First item");
    assert_eq!(roots[1].value, "Second item");
    let first_kids = list.get_children(roots[0]);
    let second_kids = list.get_children(roots[1]);
    assert_eq!(first_kids.len(), 1);
    assert_eq!(second_kids.len(), 1);
    assert_eq!(first_kids[0].value, "First child item");
    assert_eq!(second_kids[0].value, "Second child item");
    assert_eq!(list.entries().len(), 4);
}

#[test]
fn sample_list_of_given_items() {
    let list = sample_list_of(item("a", "A"), item("b", "B"), item("c", "C"), item("d", "D"));
    assert_eq!(list.top_level_ids(), vec![s("a"), s("b")]);
    assert_eq!(children(&list, "a"), vec![s("c")]);
    assert_eq!(children(&list, "b"), vec![s("d")]);
}

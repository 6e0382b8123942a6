use just_lists::list_item::{ListItem, State, ID_LENGTH};
use just_lists::text::{all_distinct, chars_of, copy_ids, position_of, remove_id, same_ids, string_of};

fn s(id: &str) -> String {
    id.to_string()
}

#[test]
fn new_item_is_pending_without_children() {
    let item = ListItem::new("text".to_string());
    assert_eq!(item.value, "text");
    assert_eq!(item.state, State::Pending);
    assert_eq!(item.child_ids(), Vec::<String>::new());
}

#[test]
fn new_item_has_an_identifier_of_thirty_two_alphabet_characters() {
    assert_eq!(ID_LENGTH, 32);
    for _ in 0..50 {
        let item = ListItem::new(String::new());
        assert_eq!(item.id.chars().count(), 32);
        assert!(item.id.chars().all(|c| c.is_ascii_lowercase() || c.is_ascii_digit()));
    }
}

#[test]
fn identifiers_are_drawn_anew_each_time() {
    let a = ListItem::new(String::new());
    let b = ListItem::new(String::new());
    assert_ne!(a.id, b.id);
}

#[test]
fn random_string_has_the_length_asked_for() {
    assert_eq!(ListItem::random_string_from_chars(0), "");
    assert_eq!(ListItem::random_string_from_chars(1).len(), 1);
    let long = ListItem::random_string_from_chars(200);
    assert_eq!(long.len(), 200);
    assert!(long.chars().all(|c| "abcdefghijklmnopqrstuvwxyz0123456789".contains(c)));
    assert!(long.chars().any(|c| c != long.chars().next().unwrap()));
}

#[test]
fn item_with_a_given_identifier() {
    let item = ListItem::with_id(s("abc"), s("value"));
    assert_eq!(item.id, "abc");
    assert_eq!(item.value, "value");
    assert_eq!(item.state, State::Pending);
    assert!(item.child_ids().is_empty());
}

#[test]
fn item_from_parts_and_its_copy() {
    let item = ListItem::from_parts(s("a"), s("A"), vec![s("x"), s("y")], State::Blocked);
    assert_eq!(item.child_ids(), vec![s("x"), s("y")]);
    let copy = item.duplicate();
    assert_eq!(copy.id, "a");
    assert_eq!(copy.value, "A");
    assert_eq!(copy.state, State::Blocked);
    assert_eq!(copy.child_ids(), vec![s("x"), s("y")]);
}

#[test]
fn default_state_is_pending() {
    assert_eq!(State::default(), State::Pending);
}

#[test]
fn toggle_completes_and_reopens() {
    assert_eq!(State::Pending.toggle(), State::Completed);
    assert_eq!(State::Completed.toggle(), State::Pending);
    assert_eq!(State::Blocked.toggle(), State::Completed);
}

#[test]
fn position_is_the_first_match() {
    let names = vec![s("a"), s("b"), s("a"), s("c")];
    assert_eq!(position_of(&names, "a"), Some(0));
    assert_eq!(position_of(&names, "c"), Some(3));
    assert_eq!(position_of(&names, "d"), None);
    assert_eq!(position_of(&names, "ab"), None);
    assert_eq!(position_of(&Vec::new(), "a"), None);
}

#[test]
fn remove_id_takes_every_match_and_keeps_the_order() {
    let mut names = vec![s("a"), s("b"), s("a"), s("c"), s("a")];
    remove_id(&mut names, "a");
    assert_eq!(names, vec![s("b"), s("c")]);
    remove_id(&mut names, "x");
    assert_eq!(names, vec![s("b"), s("c")]);
    remove_id(&mut names, "c");
    assert_eq!(names, vec![s("b")]);
}

#[test]
fn lists_of_identifiers_compare_by_content() {
    assert!(same_ids(&vec![s("a"), s("b")], &vec![s("a"), s("b")]));
    assert!(!same_ids(&vec![s("a"), s("b")], &vec![s("b"), s("a")]));
    assert!(!same_ids(&vec![s("a")], &vec![s("a"), s("b")]));
    assert!(same_ids(&Vec::new(), &Vec::new()));
    assert_eq!(copy_ids(&vec![s("a"), s("b")]), vec![s("a"), s("b")]);
}

#[test]
fn distinct_means_no_identifier_twice() {
    assert!(all_distinct(&vec![s("a"), s("b"), s("c")]));
    assert!(!all_distinct(&vec![s("a"), s("b"), s("a")]));
    assert!(all_distinct(&Vec::new()));
}

#[test]
fn characters_and_strings_convert_both_ways() {
    assert_eq!(chars_of("héllo"), vec!['h', 'é', 'l', 'l', 'o']);
    assert_eq!(string_of(&vec!['h', 'é', 'y']), "héy");
    assert_eq!(string_of(&chars_of("round trip")), "round trip");
    assert_eq!(chars_of(""), Vec::<char>::new());
}

use just_lists::app::{App, ClipboardAction};
use just_lists::app_model::{Effect, Key, Message, UIState};
use just_lists::list::List;
use just_lists::list_item::{ListItem, State};

fn s(id: &str) -> String {
    id.to_string()
}

fn item(id: &str, value: &str) -> ListItem {
    ListItem::with_id(id.to_string(), value.to_string())
}

fn path(ids: &[&str]) -> Vec<String> {
    ids.iter().map(|i| i.to_string()).collect()
}

fn paths(app: &App) -> Vec<Vec<String>> {
    app.display().iter().map(|e| e.id_path.clone()).collect()
}

fn flags(app: &App) -> Vec<bool> {
    app.display().iter().map(|e| e.expanded).collect()
}

fn children(app: &App, id: &str) -> Vec<String> {
    app.list().get_list_item(id).unwrap().child_ids()
}

/// Two roots, `i1` and `i2`, and `c1` below `i1`.
fn small() -> App {
    let mut list = List::new();
    list.add_list_item(item("i1", "one"), None);
    list.add_list_item(item("i2", "two"), None);
    list.add_child_list_item(item("c1", "child"), &s("i1"), None).unwrap();
    App::start(list, s("unused"))
}

/// Two roots; `i1` has the children `c1` and `c2`, and `c1` has the child `g1`.
fn deep() -> App {
    let mut list = List::new();
    list.add_list_item(item("i1", "one"), None);
    list.add_list_item(item("i2", "two"), None);
    list.add_child_list_item(item("c1", "first child"), &s("i1"), None).unwrap();
    list.add_child_list_item(item("c2", "second child"), &s("i1"), None).unwrap();
    list.add_child_list_item(item("g1", "grandchild"), &s("c1"), None).unwrap();
    App::start(list, s("unused"))
}

#[test]
fn start_shows_the_roots_collapsed() {
    let app = small();
    assert_eq!(paths(&app), vec![path(&["i1"]), path(&["i2"])]);
    assert_eq!(flags(&app), vec![false, false]);
    assert_eq!(app.selected_list_index(), 0);
    assert_eq!(app.state(), UIState::ListView);
    assert!(app.display_parent_item().is_none());
    assert!(app.clipboard().is_none());
    assert!(app.expanded_items().is_empty());
    assert!(!app.debug());
    assert_eq!(app.list().get_list_item("unused").map(|i| i.id.clone()), None);
}

#[test]
fn start_on_a_list_without_roots_adds_a_blank_root_and_edits_it() {
    let app = App::start(List::new(), s("first"));
    assert_eq!(app.state(), UIState::EditView);
    assert_eq!(paths(&app), vec![path(&["first"])]);
    assert_eq!(app.list().top_level_ids(), vec![s("first")]);
    assert_eq!(app.list().get_list_item("first").unwrap().value, "");
    assert_eq!(app.edit_text(), "");
    assert_eq!(app.cursor_index(), 0);
}

#[test]
fn new_draws_the_identifier_of_the_blank_root() {
    let app = App::new(List::new());
    assert_eq!(app.display().len(), 1);
    let id = &app.display()[0].id_path[0];
    assert_eq!(id.len(), 32);
    assert!(app.list().get_list_item(id).is_some());
    let kept = App::new(just_lists::get_sample_list());
    assert_eq!(kept.display().len(), 2);
    assert_eq!(kept.state(), UIState::ListView);
}

#[test]
fn expanding_shows_the_children_below_the_row() {
    let mut app = small();
    app.handle_expand();
    assert_eq!(paths(&app), vec![path(&["i1"]), path(&["i1", "c1"]), path(&["i2"])]);
    assert_eq!(flags(&app), vec![true, false, false]);
    assert_eq!(app.expanded_items(), &vec![path(&["i1"])]);
    assert_eq!(app.selected_list_index(), 0);
}

#[test]
fn expanding_inserts_each_child_directly_below_its_parent() {
    let mut app = deep();
    app.handle_expand();
    assert_eq!(
        paths(&app),
        vec![path(&["i1"]), path(&["i1", "c2"]), path(&["i1", "c1"]), path(&["i2"])]
    );
    assert_eq!(flags(&app), vec![true, false, false, false]);
}

#[test]
fn expand_then_collapse_restores_the_rows() {
    let mut app = deep();
    app.handle_scroll(Message::Down);
    let before_paths = paths(&app);
    let before_flags = flags(&app);
    app.handle_scroll(Message::Up);
    app.handle_expand();
    assert_eq!(app.display().len(), 4);
    app.handle_expand();
    assert_eq!(paths(&app), before_paths);
    assert_eq!(flags(&app), before_flags);
    assert_eq!(app.display().len(), 2);
    assert!(app.expanded_items().is_empty());
}

#[test]
fn collapsing_takes_out_every_row_below() {
    let mut app = deep();
    app.handle_expand();
    app.handle_scroll(Message::Down);
    app.handle_scroll(Message::Down);
    assert_eq!(app.selected_list_index(), 2);
    app.handle_expand();
    assert_eq!(
        paths(&app),
        vec![
            path(&["i1"]),
            path(&["i1", "c2"]),
            path(&["i1", "c1"]),
            path(&["i1", "c1", "g1"]),
            path(&["i2"])
        ]
    );
    app.handle_scroll(Message::Up);
    app.handle_scroll(Message::Up);
    app.handle_expand();
    assert_eq!(paths(&app), vec![path(&["i1"]), path(&["i2"])]);
    assert_eq!(flags(&app), vec![false, false]);
    assert_eq!(app.expanded_items(), &vec![path(&["i1", "c1"])]);
}

#[test]
fn rebuild_expands_again_what_is_kept_expanded() {
    let mut app = deep();
    app.handle_expand();
    app.handle_scroll(Message::Down);
    app.handle_scroll(Message::Down);
    app.handle_expand();
    app.handle_scroll(Message::Up);
    app.handle_scroll(Message::Up);
    app.handle_expand();
    app.handle_expand();
    assert_eq!(
        paths(&app),
        vec![path(&["i1"]), path(&["i1", "c2"]), path(&["i1", "c1"]), path(&["i2"])]
    );
    assert_eq!(flags(&app), vec![true, false, false, false]);
    app.update_display(None);
    assert_eq!(
        paths(&app),
        vec![
            path(&["i1"]),
            path(&["i1", "c2"]),
            path(&["i1", "c1"]),
            path(&["i1", "c1", "g1"]),
            path(&["i2"])
        ]
    );
    assert_eq!(flags(&app), vec![true, false, true, false, false]);
    assert_eq!(app.selected_list_index(), 0);
}

#[test]
fn rebuild_selects_the_wanted_path_or_keeps_the_index() {
    let mut app = deep();
    app.handle_expand();
    app.handle_scroll(Message::Down);
    app.handle_scroll(Message::Down);
    app.handle_scroll(Message::Down);
    assert_eq!(app.selected_list_index(), 3);
    app.update_display(None);
    assert_eq!(app.selected_list_index(), 3);
    app.update_display(Some(path(&["i1", "c1"])));
    assert_eq!(app.selected_list_index(), 2);
    app.update_display(Some(path(&["nowhere"])));
    assert_eq!(app.selected_list_index(), 2);
    app.update_display(Some(path(&["i2"])));
    assert_eq!(app.selected_list_index(), 3);
    app.handle_scroll(Message::Up);
    app.handle_scroll(Message::Up);
    app.handle_scroll(Message::Up);
    app.handle_expand();
    assert_eq!(app.display().len(), 2);
    app.update_display(Some(path(&["i1", "c1"])));
    assert_eq!(app.selected_list_index(), 0);
}

#[test]
fn rebuild_moves_a_selection_past_the_end_to_the_last_row() {
    let mut app = deep();
    app.handle_expand();
    app.handle_scroll(Message::Down);
    app.handle_scroll(Message::Down);
    app.handle_scroll(Message::Down);
    app.focus_on_current();
    assert_eq!(paths(&app), Vec::<Vec<String>>::new());
    assert_eq!(app.selected_list_index(), 3);
    app.focus_on_parent();
    assert_eq!(paths(&app).len(), 4);
    assert_eq!(app.selected_list_index(), 3);
}

#[test]
fn scrolling_wraps_around() {
    let mut app = small();
    app.handle_scroll(Message::Up);
    assert_eq!(app.selected_list_index(), 1);
    app.handle_scroll(Message::Down);
    assert_eq!(app.selected_list_index(), 0);
    app.handle_scroll(Message::Down);
    assert_eq!(app.selected_list_index(), 1);
    app.handle_scroll(Message::Down);
    assert_eq!(app.selected_list_index(), 0);
}

#[test]
fn cut_and_paste_moves_the_child_to_the_other_root() {
    let mut app = small();
    assert_eq!(paths(&app), vec![path(&["i1"]), path(&["i2"])]);
    assert_eq!(flags(&app), vec![false, false]);
    app.handle_expand();
    assert_eq!(paths(&app), vec![path(&["i1"]), path(&["i1", "c1"]), path(&["i2"])]);
    assert_eq!(flags(&app), vec![true, false, false]);
    app.handle_scroll(Message::Down);
    app.cut();
    match app.clipboard() {
        Some(clipboard) => {
            assert_eq!(clipboard.list_item_id, "c1");
            assert!(matches!(&clipboard.action_type, ClipboardAction::Cut(Some(p)) if p == "i1"));
        },
        None => panic!("nothing was cut"),
    }
    app.handle_scroll(Message::Down);
    assert!(app.paste());
    assert_eq!(children(&app, "i2"), vec![s("c1")]);
    assert_eq!(children(&app, "i1"), Vec::<String>::new());
    assert_eq!(paths(&app), vec![path(&["i1"]), path(&["i2"])]);
    assert_eq!(flags(&app), vec![true, false]);
    assert_eq!(app.selected_list_index(), 1);
    app.handle_expand();
    assert_eq!(paths(&app), vec![path(&["i1"]), path(&["i2"]), path(&["i2", "c1"])]);
}

#[test]
fn deleting_an_expanded_row_leaves_no_row_of_its_children() {
    let mut app = deep();
    app.handle_expand();
    assert_eq!(app.display().len(), 4);
    assert!(app.delete_selected_item());
    assert_eq!(paths(&app), vec![path(&["i2"])]);
    assert_eq!(flags(&app), vec![false]);
    assert_eq!(app.selected_list_index(), 0);
    assert_eq!(app.list().top_level_ids(), vec![s("i2")]);
    assert!(app.list().get_list_item("i1").is_some());
    assert_eq!(children(&app, "i1"), vec![s("c1"), s("c2")]);
    assert!(app.expanded_items().is_empty());
}

#[test]
fn deleting_a_child_row_detaches_it_from_its_parent_only() {
    let mut app = deep();
    app.handle_expand();
    app.handle_scroll(Message::Down);
    assert!(app.delete_selected_item());
    assert_eq!(children(&app, "i1"), vec![s("c1")]);
    assert!(app.list().get_list_item("c2").is_some());
    assert_eq!(paths(&app), vec![path(&["i1"]), path(&["i1", "c1"]), path(&["i2"])]);
    assert_eq!(app.selected_list_index(), 1);
}

#[test]
fn deleting_the_last_row_selects_the_new_last_row() {
    let mut app = small();
    app.handle_scroll(Message::Down);
    assert!(app.delete_selected_item());
    assert_eq!(paths(&app), vec![path(&["i1"])]);
    assert_eq!(app.selected_list_index(), 0);
    assert!(app.delete_selected_item());
    assert_eq!(paths(&app), Vec::<Vec<String>>::new());
    assert!(!app.delete_selected_item());
}

#[test]
fn copy_and_paste_shares_the_item() {
    let mut app = small();
    app.handle_expand();
    app.handle_scroll(Message::Down);
    app.copy();
    assert!(matches!(app.clipboard().as_ref().unwrap().action_type, ClipboardAction::Copy));
    app.handle_scroll(Message::Down);
    assert!(app.paste());
    assert_eq!(children(&app, "i1"), vec![s("c1")]);
    assert_eq!(children(&app, "i2"), vec![s("c1")]);
    assert!(!app.paste());
    assert_eq!(children(&app, "i2"), vec![s("c1")]);
}

#[test]
fn a_copy_stays_shown_after_the_first_row_is_deleted() {
    let mut app = small();
    app.handle_expand();
    app.handle_scroll(Message::Down);
    app.copy();
    app.handle_scroll(Message::Down);
    assert!(app.paste());
    app.handle_expand();
    assert_eq!(
        paths(&app),
        vec![path(&["i1"]), path(&["i1", "c1"]), path(&["i2"]), path(&["i2", "c1"])]
    );
    app.handle_scroll(Message::Up);
    assert!(app.delete_selected_item());
    assert_eq!(paths(&app), vec![path(&["i1"]), path(&["i2"]), path(&["i2", "c1"])]);
    assert_eq!(app.list().get_list_item("c1").unwrap().value, "child");
    assert_eq!(app.rows()[2].value, "child");
}

#[test]
fn paste_without_clipboard_or_row_does_nothing() {
    let mut app = small();
    assert!(!app.paste());
    app.cut();
    app.handle_scroll(Message::Down);
    app.focus_on_current();
    assert_eq!(app.display().len(), 0);
    assert!(!app.paste());
    assert_eq!(app.list().top_level_ids(), vec![s("i1"), s("i2")]);
}

#[test]
fn pasting_a_cut_item_where_it_is_already_still_detaches_it() {
    let mut app = small();
    app.handle_expand();
    app.handle_scroll(Message::Down);
    app.copy();
    app.handle_scroll(Message::Down);
    assert!(app.paste());
    app.handle_scroll(Message::Up);
    app.handle_scroll(Message::Up);
    assert_eq!(app.selected_list_index(), 0);
    app.handle_scroll(Message::Down);
    app.cut();
    app.handle_scroll(Message::Down);
    assert_eq!(app.display()[app.selected_list_index()].id_path, path(&["i2"]));
    assert!(app.paste());
    assert_eq!(children(&app, "i1"), Vec::<String>::new());
    assert_eq!(children(&app, "i2"), vec![s("c1")]);
}

#[test]
fn new_item_becomes_the_last_sibling_and_is_edited() {
    let mut app = small();
    assert!(app.add_new_list_item_with(s("n1")));
    assert_eq!(app.list().top_level_ids(), vec![s("i1"), s("i2"), s("n1")]);
    assert_eq!(paths(&app), vec![path(&["i1"]), path(&["i2"]), path(&["n1"])]);
    assert_eq!(app.selected_list_index(), 2);
    assert_eq!(app.state(), UIState::EditView);
    assert_eq!(app.edit_text(), "");
    assert_eq!(app.cursor_index(), 0);
}

#[test]
fn new_item_next_to_a_child_becomes_a_child_of_the_same_parent() {
    let mut app = small();
    app.handle_expand();
    app.handle_scroll(Message::Down);
    assert!(app.add_new_list_item_with(s("n2")));
    assert_eq!(children(&app, "i1"), vec![s("c1"), s("n2")]);
    assert_eq!(
        paths(&app),
        vec![path(&["i1"]), path(&["i1", "n2"]), path(&["i1", "c1"]), path(&["i2"])]
    );
    assert_eq!(app.selected_list_index(), 1);
    assert_eq!(app.state(), UIState::EditView);
}

#[test]
fn new_item_collapses_the_selected_row_first() {
    let mut app = small();
    app.handle_expand();
    assert!(app.add_new_list_item_with(s("n3")));
    assert_eq!(paths(&app), vec![path(&["i1"]), path(&["i2"]), path(&["n3"])]);
    assert_eq!(flags(&app), vec![false, false, false]);
    assert!(app.expanded_items().is_empty());
}

#[test]
fn new_item_under_a_taken_identifier_is_refused() {
    let mut app = small();
    assert!(!app.add_new_list_item_with(s("i2")));
    assert_eq!(app.list().top_level_ids(), vec![s("i1"), s("i2")]);
    assert_eq!(app.state(), UIState::ListView);
    app.handle_expand();
    app.handle_scroll(Message::Down);
    assert!(!app.add_new_list_item_with(s("c1")));
    assert_eq!(children(&app, "i1"), vec![s("c1")]);
    assert_eq!(flags(&app), vec![true, false, false]);
}

#[test]
fn new_item_in_an_empty_view_becomes_a_root() {
    let mut app = small();
    app.handle_scroll(Message::Down);
    app.focus_on_current();
    assert_eq!(app.display().len(), 0);
    assert!(app.add_new_list_item_with(s("n4")));
    assert_eq!(app.list().top_level_ids(), vec![s("i1"), s("i2"), s("n4")]);
    assert_eq!(app.display().len(), 0);
    assert_eq!(app.state(), UIState::ListView);
}

#[test]
fn new_item_draws_its_identifier() {
    let mut app = small();
    assert!(app.add_new_list_item());
    let roots = app.list().top_level_ids();
    assert_eq!(roots.len(), 3);
    assert_eq!(roots[2].len(), 32);
    assert!(app.insert_child_item());
    assert_eq!(children(&app, &roots[2]).len(), 1);
}

#[test]
fn inserted_child_is_shown_selected_and_edited() {
    let mut app = small();
    app.handle_scroll(Message::Down);
    assert!(app.insert_child_item_with(s("k")));
    assert_eq!(children(&app, "i2"), vec![s("k")]);
    assert_eq!(paths(&app), vec![path(&["i1"]), path(&["i2"]), path(&["i2", "k"])]);
    assert_eq!(flags(&app), vec![false, true, false]);
    assert_eq!(app.selected_list_index(), 2);
    assert_eq!(app.state(), UIState::EditView);
}

#[test]
fn inserted_child_below_an_expanded_row_shows_up_among_its_children() {
    let mut app = small();
    app.handle_expand();
    assert!(app.insert_child_item_with(s("k2")));
    assert_eq!(children(&app, "i1"), vec![s("c1"), s("k2")]);
    assert_eq!(
        paths(&app),
        vec![path(&["i1"]), path(&["i1", "k2"]), path(&["i1", "c1"]), path(&["i2"])]
    );
    assert_eq!(app.selected_list_index(), 1);
    assert_eq!(app.expanded_items(), &vec![path(&["i1"])]);
}

#[test]
fn inserted_child_is_refused_when_the_parent_has_it_or_no_row_is_there() {
    let mut app = small();
    assert!(!app.insert_child_item_with(s("c1")));
    assert_eq!(children(&app, "i1"), vec![s("c1")]);
    assert_eq!(flags(&app), vec![false, false]);
    app.handle_scroll(Message::Down);
    app.focus_on_current();
    assert!(!app.insert_child_item_with(s("k3")));
    assert!(app.list().get_list_item("k3").is_none());
}

#[test]
fn completion_toggles_between_pending_and_completed() {
    let mut app = small();
    assert!(app.toggle_item_completion());
    assert_eq!(app.list().get_list_item("i1").unwrap().state, State::Completed);
    assert_eq!(app.list().get_list_item("i2").unwrap().state, State::Pending);
    assert!(app.toggle_item_completion());
    assert_eq!(app.list().get_list_item("i1").unwrap().state, State::Pending);
    app.handle_scroll(Message::Down);
    app.focus_on_current();
    assert!(!app.toggle_item_completion());
}

#[test]
fn editing_changes_the_text_of_the_selected_item() {
    let mut app = small();
    app.toggle_edit_mode();
    assert_eq!(app.state(), UIState::EditView);
    assert_eq!(app.edit_text(), "one");
    assert_eq!(app.cursor_index(), 3);
    app.handle_text_input('s');
    assert_eq!(app.edit_text(), "ones");
    assert_eq!(app.cursor_index(), 4);
    app.handle_cursor_left();
    app.handle_cursor_left();
    app.handle_backspace();
    assert_eq!(app.edit_text(), "oes");
    assert_eq!(app.cursor_index(), 1);
    app.handle_text_input('w');
    assert_eq!(app.edit_text(), "owes");
    assert_eq!(app.cursor_index(), 2);
    app.handle_cursor_right();
    app.handle_cursor_right();
    app.handle_cursor_right();
    assert_eq!(app.cursor_index(), 4);
    assert!(app.save_edited_text());
    assert_eq!(app.state(), UIState::ListView);
    assert_eq!(app.list().get_list_item("i1").unwrap().value, "owes");
    assert_eq!(app.list().get_list_item("i2").unwrap().value, "two");
}

#[test]
fn backspace_at_the_start_deletes_nothing() {
    let mut app = small();
    app.toggle_edit_mode();
    app.handle_cursor_left();
    app.handle_cursor_left();
    app.handle_cursor_left();
    app.handle_cursor_left();
    assert_eq!(app.cursor_index(), 0);
    app.handle_backspace();
    assert_eq!(app.edit_text(), "one");
    assert_eq!(app.cursor_index(), 0);
    app.handle_text_input('é');
    assert_eq!(app.edit_text(), "éone");
    assert_eq!(app.cursor_index(), 1);
}

#[test]
fn leaving_the_editor_keeps_the_item() {
    let mut app = small();
    app.toggle_edit_mode();
    app.handle_text_input('x');
    app.toggle_edit_mode();
    assert_eq!(app.state(), UIState::ListView);
    assert_eq!(app.list().get_list_item("i1").unwrap().value, "one");
}

#[test]
fn focus_moves_the_view_root_down_and_up() {
    let mut app = deep();
    app.focus_on_current();
    assert_eq!(app.display_parent_item(), &Some(path(&["i1"])));
    assert_eq!(paths(&app), vec![path(&["i1", "c1"]), path(&["i1", "c2"])]);
    assert_eq!(app.title(), vec![s("one")]);
    app.focus_on_current();
    assert_eq!(app.display_parent_item(), &Some(path(&["i1", "c1"])));
    assert_eq!(paths(&app), vec![path(&["i1", "c1", "g1"])]);
    assert_eq!(app.title(), vec![s("one"), s("first child")]);
    assert_eq!(app.rows()[0].depth, 0);
    app.focus_on_parent();
    assert_eq!(app.display_parent_item(), &Some(path(&["i1"])));
    app.focus_on_parent();
    assert_eq!(app.display_parent_item(), &None);
    assert_eq!(paths(&app), vec![path(&["i1"]), path(&["i2"])]);
    app.focus_on_parent();
    assert_eq!(app.display_parent_item(), &None);
    assert_eq!(app.title(), Vec::<String>::new());
}

#[test]
fn rows_tell_text_status_depth_and_children() {
    let mut app = deep();
    app.handle_expand();
    app.handle_scroll(Message::Down);
    app.handle_scroll(Message::Down);
    app.toggle_item_completion();
    let rows = app.rows();
    assert_eq!(rows.len(), 4);
    assert_eq!(rows[0].value, "one");
    assert_eq!(rows[0].depth, 0);
    assert_eq!(rows[0].children_count, 2);
    assert!(rows[0].expanded);
    assert!(!rows[0].selected);
    assert_eq!(rows[1].value, "second child");
    assert_eq!(rows[1].depth, 1);
    assert_eq!(rows[1].children_count, 0);
    assert_eq!(rows[2].value, "first child");
    assert_eq!(rows[2].state, State::Completed);
    assert_eq!(rows[2].id_path, path(&["i1", "c1"]));
    assert_eq!(rows[2].children_count, 1);
    assert!(rows[2].selected);
    assert_eq!(rows[3].depth, 0);
    assert_eq!(rows[3].state, State::Pending);
    let one = app.row(1);
    assert_eq!(one.id_path, path(&["i1", "c2"]));
}

#[test]
fn selected_row_and_parent_of_a_path() {
    let mut app = small();
    assert_eq!(app.get_current_display_item().unwrap().id_path, path(&["i1"]));
    app.handle_scroll(Message::Down);
    app.focus_on_current();
    assert!(app.get_current_display_item().is_none());
    assert_eq!(App::get_parent_from_path(&path(&["a", "b", "c"])), Some(&s("b")));
    assert_eq!(App::get_parent_from_path(&path(&["a"])), None);
    assert_eq!(App::get_parent_from_path(&path(&[])), None);
}

#[test]
fn keys_are_commands_in_the_list_and_text_in_the_editor() {
    let mut app = small();
    assert_eq!(app.handle_key(Key::Esc), Some(Message::Esc));
    assert_eq!(app.handle_key(Key::Enter), Some(Message::Enter));
    assert_eq!(app.handle_key(Key::Up), Some(Message::Up));
    assert_eq!(app.handle_key(Key::Down), Some(Message::Down));
    assert_eq!(app.handle_key(Key::Left), Some(Message::Left));
    assert_eq!(app.handle_key(Key::Right), Some(Message::Right));
    assert_eq!(app.handle_key(Key::Backspace), Some(Message::Backspace));
    assert_eq!(app.handle_key(Key::Char(' ')), Some(Message::Space));
    assert_eq!(app.handle_key(Key::Char('e')), Some(Message::Edit));
    assert_eq!(app.handle_key(Key::Char('n')), Some(Message::New));
    assert_eq!(app.handle_key(Key::Char('i')), Some(Message::InsertChild));
    assert_eq!(app.handle_key(Key::Char('d')), Some(Message::Delete));
    assert_eq!(app.handle_key(Key::Char('j')), Some(Message::FocusOnCurrentItem));
    assert_eq!(app.handle_key(Key::Char('u')), Some(Message::FocusOnParentItem));
    assert_eq!(app.handle_key(Key::Char('c')), Some(Message::Copy));
    assert_eq!(app.handle_key(Key::Char('x')), Some(Message::Cut));
    assert_eq!(app.handle_key(Key::Char('v')), Some(Message::Paste));
    assert_eq!(app.handle_key(Key::Char('q')), None);
    assert_eq!(app.handle_key(Key::Other), None);
    app.toggle_edit_mode();
    assert_eq!(app.handle_key(Key::Char('e')), Some(Message::Text('e')));
    assert_eq!(app.handle_key(Key::Char(' ')), Some(Message::Text(' ')));
    assert_eq!(app.handle_key(Key::Esc), Some(Message::Esc));
}

#[test]
fn messages_are_handled_by_screen() {
    let mut app = small();
    assert_eq!(app.handle_message_with(Message::Down, s("x")), Effect::Continue);
    assert_eq!(app.selected_list_index(), 1);
    assert_eq!(app.handle_message_with(Message::Up, s("x")), Effect::Continue);
    assert_eq!(app.handle_message_with(Message::Enter, s("x")), Effect::Continue);
    assert_eq!(app.display().len(), 3);
    assert_eq!(app.handle_message_with(Message::Space, s("x")), Effect::Save);
    assert_eq!(app.list().get_list_item("i1").unwrap().state, State::Completed);
    assert_eq!(app.handle_message_with(Message::Left, s("x")), Effect::Continue);
    assert_eq!(app.handle_message_with(Message::New, s("fresh")), Effect::Save);
    assert_eq!(app.state(), UIState::EditView);
    assert_eq!(app.handle_message_with(Message::Text('h'), s("x")), Effect::Continue);
    assert_eq!(app.handle_message_with(Message::Text('i'), s("x")), Effect::Continue);
    assert_eq!(app.handle_message_with(Message::Down, s("x")), Effect::Continue);
    assert_eq!(app.handle_message_with(Message::Enter, s("x")), Effect::Save);
    assert_eq!(app.list().get_list_item("fresh").unwrap().value, "hi");
    assert_eq!(app.state(), UIState::ListView);
    assert_eq!(app.handle_message_with(Message::New, s("fresh")), Effect::Continue);
    assert_eq!(app.handle_message_with(Message::Edit, s("x")), Effect::Continue);
    assert_eq!(app.state(), UIState::EditView);
    assert_eq!(app.handle_message_with(Message::Esc, s("x")), Effect::Continue);
    assert_eq!(app.state(), UIState::ListView);
    assert_eq!(app.handle_message_with(Message::Delete, s("x")), Effect::Save);
    assert_eq!(app.handle_message_with(Message::Paste, s("x")), Effect::Continue);
    assert_eq!(app.handle_message_with(Message::Cut, s("x")), Effect::Continue);
    assert_eq!(app.handle_message_with(Message::Esc, s("x")), Effect::Quit);
    assert_eq!(app.handle_message(Message::InsertChild), Effect::Save);
}

//! What the session does to the store: deleting, adding, copying, cutting
//! and pasting items, flipping their status, and moving the view root.

use super::{rows_of, App, Clipboard, ClipboardAction, ListEntry};
use crate::app_model::{blank, item_of, parent_of};
use crate::display::collapsed;
use crate::laws::detached_item_persists;
use crate::list_item::{drawn, ListItem, ID_LENGTH};
use crate::text::{copy_ids, ids_of, name_of};
use vstd::prelude::*;

verus! {

broadcast use ListItem::view_of_fields;

impl App {
    /// The identifier before the last of `path`, if `path` has one.
    pub fn get_parent_from_path(path: &Vec<String>) -> (parent: Option<&String>)
        ensures
            name_of(parent) == parent_of(ids_of(path@)),
    {
        if path.len() <= 1 {
            None
        } else {
            Some(&path[path.len() - 2])
        }
    }

    /// Deletes the selected row: collapses it, detaches its item from the
    /// parent that its path names, and rebuilds the view. Returns whether
    /// there was a row to delete, and with that a change to store.
    pub fn delete_selected_item(&mut self) -> (changed: bool)
        requires
            old(self).wf(),
        ensures
            final(self).wf(),
            final(self)@ == old(self)@.deleted(),
            changed == (old(self)@.display.len() > 0),
    {
        if self.display.len() == 0 {
            return false;
        }
        let at = self.selected_list_index;
        let path = copy_ids(&self.display[at].id_path);
        assert(self@.row_ok(self@.display[at as int].id_path));
        if self.display[at].expanded {
            self.handle_expand();
        }
        let ghost folded = self@;
        assert(folded == old(self)@.folded());
        assert(at < self.display.len()) by {
            old(self)@.toggled_keeps_wf();
        }
        self.display.remove(at);
        assert(rows_of(self.display@) =~= folded.display.remove(at as int));
        proof {
            let p = ids_of(path@);
            assert(folded.list.contains(p[p.len() - 1]));
            if p.len() > 1 {
                assert(folded.list.contains(p[p.len() - 2]));
            }
            detached_item_persists(folded.list, item_of(p), parent_of(p));
        }
        let parent = Self::get_parent_from_path(&path);
        let _ = self.list.remove_child_list_item(&path[path.len() - 1], parent);
        if self.display.len() > 0 && self.selected_list_index >= self.display.len() {
            self.selected_list_index = self.display.len() - 1;
        }
        proof {
            let p = ids_of(path@);
            assert(self@.list == folded.list.detach(item_of(p), parent_of(p)));
            Self::grounded_on(folded, self@);
        }
        self.update_display(None);
        true
    }

    /// Flips the completion status of the selected row's item. Returns
    /// whether there was a row, and with that a change to store.
    pub fn toggle_item_completion(&mut self) -> (changed: bool)
        requires
            old(self).wf(),
        ensures
            final(self).wf(),
            final(self)@ == old(self)@.completion_toggled(),
            changed == (old(self)@.display.len() > 0),
    {
        if self.display.len() == 0 {
            return false;
        }
        let ghost before = self@;
        let path = &self.display[self.selected_list_index].id_path;
        assert(before.row_ok(before.display[before.selected as int].id_path));
        assert(before.list.contains(ids_of(path@)[path@.len() - 1]));
        assert(before.list.item_valid(item_of(ids_of(path@))));
        match self.list.get_mut_list_item(path[path.len() - 1].as_str()) {
            Some(item) => {
                item.state = item.state.toggle();
            },
            None => {},
        }
        proof {
            let id = item_of(before.display[before.selected as int].id_path);
            let item = self@.list.items[id];
            assert(self@.list == before.list.put(id, item));
            before.list.put_keeps_valid(item);
            Self::grounded_on(before, self@);
        }
        true
    }

    /// Moves the view root to the selected row and rebuilds the view.
    pub fn focus_on_current(&mut self)
        requires
            old(self).wf(),
        ensures
            final(self).wf(),
            final(self)@ == old(self)@.focused_on_current(),
    {
        if self.selected_list_index < self.display.len() {
            assert(self@.row_ok(self@.display[self@.selected as int].id_path));
            let path = copy_ids(&self.display[self.selected_list_index].id_path);
            self.display_parent_item = Some(path);
        }
        self.update_display(None);
    }

    /// Moves the view root one level up and rebuilds the view. Nothing
    /// happens when there is no view root.
    pub fn focus_on_parent(&mut self)
        requires
            old(self).wf(),
        ensures
            final(self).wf(),
            final(self)@ == old(self)@.focused_on_parent(),
    {
        let mut new_path: Vec<String> = match &self.display_parent_item {
            Some(path) => copy_ids(path),
            None => {
                return;
            },
        };
        let ghost root = ids_of(new_path@);
        new_path.pop();
        assert(ids_of(new_path@) =~= root.drop_last());
        if new_path.len() > 0 {
            proof {
                assert forall|i: int| 0 <= i < root.drop_last().len() implies self@.list.contains(
                    #[trigger] root.drop_last()[i],
                ) by {
                    assert(self@.list.contains(root[i]));
                }
            }
            self.display_parent_item = Some(new_path);
        } else {
            self.display_parent_item = None;
        }
        self.update_display(None);
    }

    /// Puts the selected row's item on the clipboard for copying.
    pub fn copy(&mut self)
        requires
            old(self).wf(),
        ensures
            final(self).wf(),
            final(self)@ == old(self)@.copied(),
    {
        if self.selected_list_index < self.display.len() {
            let path = &self.display[self.selected_list_index].id_path;
            assert(self@.row_ok(self@.display[self@.selected as int].id_path));
            assert(self@.list.contains(ids_of(path@)[path@.len() - 1]));
            self.clipboard = Some(
                Clipboard {
                    action_type: ClipboardAction::Copy,
                    list_item_id: path[path.len() - 1].clone(),
                },
            );
        }
    }

    /// Puts the selected row's item on the clipboard for moving, together
    /// with the parent that its path names.
    pub fn cut(&mut self)
        requires
            old(self).wf(),
        ensures
            final(self).wf(),
            final(self)@ == old(self)@.cut(),
    {
        if self.selected_list_index < self.display.len() {
            let path = &self.display[self.selected_list_index].id_path;
            assert(self@.row_ok(self@.display[self@.selected as int].id_path));
            assert(self@.list.contains(ids_of(path@)[path@.len() - 1]));
            let parent_id: Option<String> = if path.len() <= 1 {
                None
            } else {
                assert(self@.list.contains(ids_of(path@)[path@.len() - 2]));
                Some(path[path.len() - 2].clone())
            };
            self.clipboard = Some(
                Clipboard {
                    action_type: ClipboardAction::Cut(parent_id),
                    list_item_id: path[path.len() - 1].clone(),
                },
            );
        }
    }

    /// Pastes the clipboard's item below the selected row: attaches it as
    /// the last child of the row's item unless it is one already, detaches
    /// it from where it was cut from if it was cut, and rebuilds the view.
    /// Returns whether the paste took effect, and with that a change to
    /// store; without a clipboard item or without a selected row nothing
    /// happens.
    pub fn paste(&mut self) -> (changed: bool)
        requires
            old(self).wf(),
        ensures
            final(self).wf(),
            final(self)@ == old(self)@.pasted(),
            changed == old(self)@.paste_takes_effect(),
    {
        let ghost before = self@;
        if self.selected_list_index >= self.display.len() {
            return false;
        }
        assert(before.row_ok(before.display[before.selected as int].id_path));
        let target_path = &self.display[self.selected_list_index].id_path;
        let ghost target = item_of(ids_of(target_path@));
        assert(before.list.contains(ids_of(target_path@)[target_path@.len() - 1]));
        let mut changed = false;
        match &self.clipboard {
            Some(clipboard) => {
                let attached = self.list.add_existing_child_list_item(
                    &clipboard.list_item_id,
                    &target_path[target_path.len() - 1],
                    None,
                );
                if attached.is_ok() {
                    changed = true;
                }
                let ghost middle = self.list@;
                proof {
                    if before.paste_attaches() {
                        assert forall|id: Seq<char>|
                            before.list.contains(id) implies #[trigger] middle.contains(id) by {}
                    }
                }
                match &clipboard.action_type {
                    ClipboardAction::Cut(previous_parent_id) => {
                        let from: Option<&String> = match previous_parent_id {
                            Some(parent) => Some(parent),
                            None => None,
                        };
                        proof {
                            detached_item_persists(
                                middle,
                                clipboard@.item,
                                name_of(from),
                            );
                        }
                        let _ = self.list.remove_child_list_item(&clipboard.list_item_id, from);
                        changed = true;
                    },
                    ClipboardAction::Copy => {},
                }
            },
            None => {
                return false;
            },
        }
        if !changed {
            return false;
        }
        proof {
            assert(self@.list == before.pasted_list());
            assert forall|id: Seq<char>|
                before.list.contains(id) implies #[trigger] self@.list.contains(id) by {}
            Self::grounded_on(before, self@);
        }
        self.update_display(None);
        true
    }

    /// Adds a blank item under the identifier `id` as the last sibling of
    /// the selected row, selects it and opens it for editing. Returns
    /// whether the item was added, and with that a change to store; it is
    /// not added when the place it would go to names `id` already.
    pub fn add_new_list_item_with(&mut self, id: String) -> (changed: bool)
        requires
            old(self).wf(),
        ensures
            final(self).wf(),
            final(self)@ == old(self)@.with_sibling(blank(id@)),
            changed == old(self)@.sibling_fits(blank(id@)),
    {
        let ghost before = self@;
        let ghost item_view = blank(id@);
        let mut current_item_path: Vec<String> = if self.display.len() == 0 {
            Vec::new()
        } else {
            assert(before.row_ok(before.display[before.selected as int].id_path));
            let mut path = copy_ids(&self.display[self.selected_list_index].id_path);
            path.pop();
            path
        };
        current_item_path.push(id.clone());
        assert(ids_of(current_item_path@) =~= before.sibling_path(id@));
        let ghost path_view = ids_of(current_item_path@);
        proof {
            if before.display.len() > 0 {
                let selected = before.display[before.selected as int].id_path;
                assert forall|j: int| 0 <= j < path_view.len() - 1 implies before.list.contains(
                    #[trigger] path_view[j],
                ) by {
                    assert(path_view[j] == selected[j]);
                    assert(before.list.contains(selected[j]));
                }
            }
        }
        let fits = if current_item_path.len() == 1 {
            self.list.get_index_of_top_level_item(&id).is_err()
        } else {
            assert(before.list.contains(path_view[path_view.len() - 2]));
            let parent = &current_item_path[current_item_path.len() - 2];
            self.list.get_index_of_child(&id, parent).is_err()
        };
        if !fits {
            return false;
        }
        if self.selected_list_index < self.display.len()
            && self.display[self.selected_list_index].expanded {
            self.handle_expand();
        }
        let ghost folded = self@;
        proof {
            before.toggled_keeps_wf();
            assert(folded == before.folded());
        }
        let item = ListItem::with_id(id, String::new());
        assert(item@ == item_view);
        if current_item_path.len() == 1 {
            proof {
                assert(item_view.children.no_duplicates());
                folded.list.add_top_keeps_valid(item_view, folded.list.top_level.len() as int);
            }
            self.list.add_list_item(item, None);
        } else {
            let ghost parent = path_view[path_view.len() - 2];
            proof {
                let base = folded.list.put_if_absent(item_view);
                assert(folded.list.contains(parent));
                assert(folded.list.item_valid(parent));
                if !folded.list.contains(id@) {
                    if folded.list.children_of(parent).contains(id@) {
                        let k = choose|k: int|
                            0 <= k < folded.list.children_of(parent).len()
                                && folded.list.children_of(parent)[k] == id@;
                        assert(folded.list.contains(folded.list.children_of(parent)[k]));
                    }
                }
                assert(base.children_of(parent) == folded.list.children_of(parent));
            }
            let _ = self.list.add_child_list_item(
                item,
                &current_item_path[current_item_path.len() - 2],
                None,
            );
        }
        let at = if self.display.len() == 0 {
            0
        } else {
            self.selected_list_index + 1
        };
        let ghost rows = rows_of(self.display@);
        self.display.insert(at, ListEntry { id_path: copy_ids(&current_item_path), expanded: false });
        assert(rows_of(self.display@) =~= rows.insert(at as int, collapsed(path_view)));
        proof {
            Self::grounded_on(folded, self@);
        }
        self.update_display(Some(current_item_path));
        self.toggle_edit_mode();
        true
    }

    /// Adds a blank item under a freshly drawn identifier as the last
    /// sibling of the selected row, selects it and opens it for editing.
    /// Returns whether the item was added.
    pub fn add_new_list_item(&mut self) -> (changed: bool)
        requires
            old(self).wf(),
        ensures
            final(self).wf(),
            exists|id: Seq<char>| #[trigger] drawn(id) && final(self)@
                    == old(self)@.with_sibling(blank(id)) && changed == old(self)@.sibling_fits(
                    blank(id),
                ),
    {
        let id = ListItem::random_string_from_chars(ID_LENGTH);
        let ghost fresh = id@;
        let changed = self.add_new_list_item_with(id);
        assert(drawn(fresh) && self@
            == old(self)@.with_sibling(blank(fresh)) && changed == old(self)@.sibling_fits(
            blank(fresh),
        ));
        changed
    }

    /// Adds a blank item under the identifier `id` as the last child of the
    /// selected row's item, shows the row's children, selects the new row
    /// and opens it for editing. Returns whether the item was added, and
    /// with that a change to store; it is not added when there is no row or
    /// the row's item names `id` as a child already.
    pub fn insert_child_item_with(&mut self, id: String) -> (changed: bool)
        requires
            old(self).wf(),
        ensures
            final(self).wf(),
            final(self)@ == old(self)@.with_child(blank(id@)),
            changed == old(self)@.child_fits(blank(id@)),
    {
        if self.display.len() == 0 {
            return false;
        }
        let ghost before = self@;
        let ghost item_view = blank(id@);
        assert(before.row_ok(before.display[before.selected as int].id_path));
        let parent_path = copy_ids(&self.display[self.selected_list_index].id_path);
        let ghost parent = item_of(ids_of(parent_path@));
        assert(before.list.contains(ids_of(parent_path@)[parent_path@.len() - 1]));
        let mut child_path = copy_ids(&parent_path);
        child_path.push(id.clone());
        assert(ids_of(child_path@) =~= ids_of(parent_path@).push(id@));
        if self.list.get_index_of_child(&id, &parent_path[parent_path.len() - 1]).is_ok() {
            return false;
        }
        let was_expanded = self.display[self.selected_list_index].expanded;
        let item = ListItem::with_id(id, String::new());
        assert(item@ == item_view);
        proof {
            let base = before.list.put_if_absent(item_view);
            assert(before.list.item_valid(parent));
            if !before.list.contains(id@) {
                if before.list.children_of(parent).contains(id@) {
                    let k = choose|k: int|
                        0 <= k < before.list.children_of(parent).len()
                            && before.list.children_of(parent)[k] == id@;
                    assert(before.list.contains(before.list.children_of(parent)[k]));
                }
            }
            assert(base.children_of(parent) == before.list.children_of(parent));
            assert(item_view.children.no_duplicates());
        }
        let _ = self.list.add_child_list_item(item, &parent_path[parent_path.len() - 1], None);
        proof {
            Self::grounded_on(before, self@);
            assert forall|i: int| 0 <= i < self@.display.len() implies self@.row_ok(
                #[trigger] self@.display[i].id_path,
            ) by {
                let path = before.display[i].id_path;
                assert(before.row_ok(path));
                assert forall|j: int| 0 <= j < path.len() implies self@.list.contains(
                    #[trigger] path[j],
                ) by {
                    assert(before.list.contains(path[j]));
                }
            }
        }
        self.handle_expand();
        if was_expanded {
            self.handle_expand();
        }
        proof {
            self.wf_is_grounded();
        }
        self.update_display(Some(child_path));
        self.toggle_edit_mode();
        true
    }

    /// Adds a blank item under a freshly drawn identifier as the last child
    /// of the selected row's item, selects it and opens it for editing.
    /// Returns whether the item was added.
    pub fn insert_child_item(&mut self) -> (changed: bool)
        requires
            old(self).wf(),
        ensures
            final(self).wf(),
            exists|id: Seq<char>| #[trigger] drawn(id) && final(self)@
                    == old(self)@.with_child(blank(id)) && changed == old(self)@.child_fits(
                    blank(id),
                ),
    {
        let id = ListItem::random_string_from_chars(ID_LENGTH);
        let ghost fresh = id@;
        let changed = self.insert_child_item_with(id);
        assert(drawn(fresh) && self@
            == old(self)@.with_child(blank(fresh)) && changed == old(self)@.child_fits(
            blank(fresh),
        ));
        changed
    }
}

} // verus!

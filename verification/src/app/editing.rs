//! The editor: the text of the selected row's item as a sequence of
//! characters with a cursor in it.

use super::App;
use crate::app_model::{item_of, UIState};
use crate::list_item::ListItem;
use crate::text::{chars_of, ids_of, string_of};
use vstd::prelude::*;

verus! {

broadcast use ListItem::view_of_fields;

impl App {
    /// Switches between the list and the editor: into the editor with the
    /// text of the selected row's item, out of it in any case.
    pub fn toggle_edit_mode(&mut self)
        requires
            old(self).wf(),
        ensures
            final(self).wf(),
            final(self)@ == old(self)@.edit_toggled(),
    {
        match self.state {
            UIState::ListView => {
                if self.display.len() == 0 {
                    return;
                }
                let path = &self.display[self.selected_list_index].id_path;
                assert(self@.row_ok(self@.display[self@.selected as int].id_path));
                assert(self@.list.contains(ids_of(path@)[path@.len() - 1]));
                match self.list.get_list_item(path[path.len() - 1].as_str()) {
                    Some(item) => {
                        self.edit_text = chars_of(item.value.as_str());
                        self.cursor_index = self.edit_text.len();
                        self.state = UIState::EditView;
                    },
                    None => {},
                }
            },
            UIState::EditView => {
                self.state = UIState::ListView;
            },
        }
    }

    /// Makes the edited text the text of the selected row's item and leaves
    /// the editor. Returns whether there was a row, and with that a change
    /// to store.
    pub fn save_edited_text(&mut self) -> (changed: bool)
        requires
            old(self).wf(),
        ensures
            final(self).wf(),
            final(self)@ == old(self)@.text_saved(),
            changed == (old(self)@.display.len() > 0),
    {
        self.state = UIState::ListView;
        if self.display.len() == 0 {
            return false;
        }
        let ghost before = old(self)@;
        let path = &self.display[self.selected_list_index].id_path;
        assert(before.row_ok(before.display[before.selected as int].id_path));
        assert(before.list.contains(ids_of(path@)[path@.len() - 1]));
        assert(before.list.item_valid(item_of(ids_of(path@))));
        match self.list.get_mut_list_item(path[path.len() - 1].as_str()) {
            Some(item) => {
                item.value = string_of(&self.edit_text);
            },
            None => {},
        }
        proof {
            let id = item_of(before.display[before.selected as int].id_path);
            let item = self@.list.items[id];
            assert(self@.list == before.list.put(id, item));
            before.list.put_keeps_valid(item);
            Self::grounded_on(before, self@);
        }
        true
    }

    /// Types `c`: inserts it at the cursor and moves the cursor behind it.
    pub fn handle_text_input(&mut self, c: char)
        requires
            old(self).wf(),
        ensures
            final(self).wf(),
            final(self)@ == old(self)@.typed(c),
    {
        if self.cursor_index < usize::MAX {
            self.edit_text.insert(self.cursor_index, c);
            self.cursor_index += 1;
        }
    }

    /// Deletes the character before the cursor and moves the cursor one
    /// place back.
    pub fn handle_backspace(&mut self)
        requires
            old(self).wf(),
        ensures
            final(self).wf(),
            final(self)@ == old(self)@.backspaced(),
    {
        if self.cursor_index > 0 {
            self.edit_text.remove(self.cursor_index - 1);
            self.cursor_index -= 1;
        }
    }

    /// Moves the cursor one place back, if it is not at the start.
    pub fn handle_cursor_left(&mut self)
        requires
            old(self).wf(),
        ensures
            final(self).wf(),
            final(self)@ == old(self)@.cursor_moved(false),
    {
        if self.cursor_index > 0 {
            self.cursor_index -= 1;
        }
    }

    /// Moves the cursor one place forth, if it is not behind the text.
    pub fn handle_cursor_right(&mut self)
        requires
            old(self).wf(),
        ensures
            final(self).wf(),
            final(self)@ == old(self)@.cursor_moved(true),
    {
        if self.cursor_index < self.edit_text.len() {
            self.cursor_index += 1;
        }
    }
}

} // verus!

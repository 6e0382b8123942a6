//! The session as mathematics: the store, the flattened view over it, the
//! selection, the clipboard and the text being edited, and each operation of
//! the session as a function from one such state to the next. The contracts
//! of `App` are stated over these.

use crate::display::{
    chained, clamp_index, collapse_at, collapse_keeps_chained, collapse_keeps_tidy,
    collapse_takes_out_rows_below, collapsed, expand_at, expand_keeps_chained,
    expand_keeps_tidy, expand_then_collapse_restores, follows_edges, kid_entries, projection,
    reselect, root_prefix, rows_follow_edges, run_end, run_end_bounds, source_ids, tidy,
    EntryView,
};
use crate::list_item::{pending, ItemView, State};
use crate::model::StoreView;
use crate::text::{without, without_contains};
use vstd::prelude::*;

verus! {

/// Which of the two screens the session shows.
#[derive(Clone, Copy, Debug, PartialEq, Eq, Structural)]
pub enum UIState {
    ListView,
    EditView,
}

/// What the user asks for.
#[derive(Clone, Copy, Debug, PartialEq, Eq, Structural)]
pub enum Message {
    Up,
    Down,
    Esc,
    Edit,
    Enter,
    Space,
    Left,
    Right,
    Backspace,
    New,
    InsertChild,
    Delete,
    FocusOnCurrentItem,
    FocusOnParentItem,
    Copy,
    Cut,
    Paste,
    Text(char),
}

/// A key of the keyboard, as far as the session tells keys apart.
#[derive(Clone, Copy, Debug, PartialEq, Eq, Structural)]
pub enum Key {
    Esc,
    Enter,
    Up,
    Down,
    Left,
    Right,
    Backspace,
    Char(char),
    Other,
}

/// What the caller has to do after a message has been handled.
#[derive(Clone, Copy, Debug, PartialEq, Eq, Structural)]
pub enum Effect {
    /// Nothing: go on with the next message.
    Continue,
    /// Write the store out: it has changed.
    Save,
    /// End the session.
    Quit,
}

/// `Save` if something changed, `Continue` if not.
pub open spec fn save_if(changed: bool) -> Effect {
    if changed {
        Effect::Save
    } else {
        Effect::Continue
    }
}

/// The message that a key stands for on each screen. In the list the
/// letter keys are commands; in the editor every character is text.
pub open spec fn message_for(state: UIState, key: Key) -> Option<Message> {
    match key {
        Key::Esc => Some(Message::Esc),
        Key::Enter => Some(Message::Enter),
        Key::Up => Some(Message::Up),
        Key::Down => Some(Message::Down),
        Key::Left => Some(Message::Left),
        Key::Right => Some(Message::Right),
        Key::Backspace => Some(Message::Backspace),
        Key::Char(c) => match state {
            UIState::ListView => if c == ' ' {
                Some(Message::Space)
            } else if c == 'e' {
                Some(Message::Edit)
            } else if c == 'n' {
                Some(Message::New)
            } else if c == 'i' {
                Some(Message::InsertChild)
            } else if c == 'd' {
                Some(Message::Delete)
            } else if c == 'j' {
                Some(Message::FocusOnCurrentItem)
            } else if c == 'u' {
                Some(Message::FocusOnParentItem)
            } else if c == 'c' {
                Some(Message::Copy)
            } else if c == 'x' {
                Some(Message::Cut)
            } else if c == 'v' {
                Some(Message::Paste)
            } else {
                None
            },
            UIState::EditView => Some(Message::Text(c)),
        },
        Key::Other => None,
    }
}

/// What a pending paste will do besides attaching the item.
pub enum ClipboardActionView {
    /// Detach the item from the parent it was cut from, or from the top
    /// level when it was cut from there.
    Cut(Option<Seq<char>>),
    /// Nothing: the item stays where it is as well.
    Copy,
}

/// What the clipboard holds.
pub struct ClipboardView {
    pub action: ClipboardActionView,
    pub item: Seq<char>,
}

/// What the renderer is told of one row.
pub struct RowView {
    /// The text of the row's item.
    pub value: Seq<char>,
    /// The completion status of the row's item.
    pub state: State,
    /// The identifiers from the view root down to the row's item.
    pub id_path: Seq<Seq<char>>,
    /// How many levels the row lies below the rows of the view root.
    pub depth: nat,
    /// How many children the row's item has.
    pub children_count: nat,
    /// Whether the row's children are shown below it.
    pub expanded: bool,
    /// Whether the row is the selected one.
    pub selected: bool,
}

/// What a session is.
pub struct AppView {
    pub list: StoreView,
    pub state: UIState,
    pub selected: nat,
    pub cursor: nat,
    pub display: Seq<EntryView>,
    pub edit_text: Seq<char>,
    pub view_root: Option<Seq<Seq<char>>>,
    pub clipboard: Option<ClipboardView>,
    pub debug: bool,
    pub expanded: Seq<Seq<Seq<char>>>,
}

/// The identifier that a path ends in.
pub open spec fn item_of(path: Seq<Seq<char>>) -> Seq<char> {
    path.last()
}

/// The identifier before the last of a path: the parent of the path's item
/// at that place of the view, if the path has one.
pub open spec fn parent_of(path: Seq<Seq<char>>) -> Option<Seq<char>> {
    if path.len() <= 1 {
        None
    } else {
        Some(path[path.len() - 2])
    }
}

/// A pending item without text and without children.
pub open spec fn blank(id: Seq<char>) -> ItemView {
    pending(id, Seq::empty())
}

/// `paths` with `path` added unless it is there already.
pub open spec fn with_path(paths: Seq<Seq<Seq<char>>>, path: Seq<Seq<char>>) -> Seq<
    Seq<Seq<char>>,
> {
    if paths.contains(path) {
        paths
    } else {
        paths.push(path)
    }
}

impl AppView {
    /// The session that starts on `list`. A list without roots gets a blank
    /// root under `first_id`, and the session starts in the editor; any other
    /// list is shown as it is. The view is built, no row is expanded, and the
    /// first row is selected.
    pub open spec fn started(list: StoreView, first_id: Seq<char>) -> AppView {
        let empty = list.top_level.len() == 0;
        AppView {
            list: if empty {
                list.add_top(blank(first_id), 0)
            } else {
                list
            },
            state: if empty {
                UIState::EditView
            } else {
                UIState::ListView
            },
            selected: 0,
            cursor: 0,
            display: Seq::empty(),
            edit_text: Seq::empty(),
            view_root: None,
            clipboard: None,
            debug: false,
            expanded: Seq::empty(),
        }.refreshed(None)
    }

    /// Whether the store is valid, the view root and the clipboard name only
    /// items of the store, and the cursor lies in the edited text or directly
    /// behind it.
    pub open spec fn grounded(self) -> bool {
        &&& self.list.valid()
        &&& self.cursor <= self.edit_text.len()
        &&& self.view_root matches Some(path) ==> path.len() > 0 && self.list.holds_all(path)
        &&& self.clipboard matches Some(c) ==> {
            &&& self.list.contains(c.item)
            &&& c.action matches ClipboardActionView::Cut(Some(p)) ==> self.list.contains(p)
        }
    }

    /// Whether a row's path lies below the view root, begins with the path
    /// of the view root, and names only items of the store.
    pub open spec fn row_ok(self, path: Seq<Seq<char>>) -> bool {
        &&& path.len() > root_prefix(self.view_root).len()
        &&& path.take(root_prefix(self.view_root).len() as int) == root_prefix(self.view_root)
        &&& self.list.holds_all(path)
    }

    /// The invariant of a session: it is grounded, every row lies below the
    /// view root, begins with its path and names only items of the store,
    /// every row can follow the row before it, no collapsed row is followed
    /// by a deeper one, and the selection points at a row whenever there is
    /// one.
    pub open spec fn wf(self) -> bool {
        &&& self.grounded()
        &&& tidy(self.display)
        &&& chained(self.display)
        &&& forall|i: int|
            0 <= i < self.display.len() ==> self.row_ok(#[trigger] self.display[i].id_path)
        &&& self.display.len() > 0 ==> self.selected < self.display.len()
    }

    /// The path of the selected row, if the selection points at a row.
    pub open spec fn selected_path(self) -> Option<Seq<Seq<char>>> {
        if self.selected < self.display.len() {
            Some(self.display[self.selected as int].id_path)
        } else {
            None
        }
    }

    /// The session after the view has been rebuilt from the store, the view
    /// root and the expanded paths. The row with the path `target` is
    /// selected, or, when no target is given, the row with the path that was
    /// selected before; when no row has that path the selected index stays,
    /// moved to the last row if the view has become shorter.
    pub open spec fn refreshed(self, target: Option<Seq<Seq<char>>>) -> AppView {
        let rows = projection(self.list, self.view_root, self.expanded);
        let wanted = if target is Some {
            target
        } else {
            self.selected_path()
        };
        AppView { display: rows, selected: reselect(rows, wanted, self.selected), ..self }
    }

    /// The session after the selected row has been toggled: expanded when it
    /// was collapsed, collapsed when it was expanded. Nothing happens when
    /// there is no row.
    pub open spec fn toggled(self) -> AppView {
        if self.display.len() == 0 {
            self
        } else {
            let at = self.selected as int;
            let path = self.display[at].id_path;
            if self.display[at].expanded {
                AppView {
                    display: collapse_at(self.display, at),
                    expanded: without(self.expanded, path),
                    ..self
                }
            } else {
                AppView {
                    display: expand_at(self.list, self.display, at),
                    expanded: with_path(self.expanded, path),
                    ..self
                }
            }
        }
    }

    /// The session with the selected row collapsed if it was expanded.
    pub open spec fn folded(self) -> AppView {
        if self.selected < self.display.len() && self.display[self.selected as int].expanded {
            self.toggled()
        } else {
            self
        }
    }

    /// The session after the selection has moved one row down or up, from
    /// the last row to the first and from the first to the last.
    pub open spec fn scrolled(self, down: bool) -> AppView {
        if self.display.len() == 0 {
            self
        } else if down {
            AppView {
                selected: if self.selected == self.display.len() - 1 {
                    0
                } else {
                    self.selected + 1
                },
                ..self
            }
        } else {
            AppView {
                selected: if self.selected == 0 {
                    (self.display.len() - 1) as nat
                } else {
                    (self.selected - 1) as nat
                },
                ..self
            }
        }
    }

    /// The session after the selected row has been deleted: the row is
    /// collapsed first, so that none of the rows below it is left behind,
    /// then taken out; its item is detached from the parent that its path
    /// names, or from the top level, and the view is rebuilt.
    pub open spec fn deleted(self) -> AppView {
        if self.display.len() == 0 {
            self
        } else {
            let path = self.display[self.selected as int].id_path;
            let folded = self.folded();
            let rows = folded.display.remove(self.selected as int);
            AppView {
                list: folded.list.detach(item_of(path), parent_of(path)),
                display: rows,
                selected: clamp_index(self.selected, rows.len()),
                ..folded
            }.refreshed(None)
        }
    }

    /// The path of a new sibling of the selected row: the selected path with
    /// its last identifier replaced, or the identifier alone when there is
    /// no row.
    pub open spec fn sibling_path(self, id: Seq<char>) -> Seq<Seq<char>> {
        if self.display.len() == 0 {
            seq![id]
        } else {
            self.display[self.selected as int].id_path.drop_last().push(id)
        }
    }

    /// Whether `item` can be added next to the selected row: as a root it
    /// must not be a root already, as a child its parent must not have it.
    pub open spec fn sibling_fits(self, item: ItemView) -> bool {
        match parent_of(self.sibling_path(item.id)) {
            Some(parent) => !self.list.children_of(parent).contains(item.id),
            None => !self.list.top_level.contains(item.id),
        }
    }

    /// The session after `item` has been added as the last sibling of the
    /// selected row, shown directly below that row, selected, and opened for
    /// editing. The selected row is collapsed first. Nothing happens when
    /// the item does not fit.
    pub open spec fn with_sibling(self, item: ItemView) -> AppView {
        if !self.sibling_fits(item) {
            self
        } else {
            let path = self.sibling_path(item.id);
            let folded = self.folded();
            let at = if self.display.len() == 0 {
                0
            } else {
                self.selected + 1
            };
            AppView {
                list: match parent_of(path) {
                    Some(parent) => folded.list.put_if_absent(item).attach(
                        item.id,
                        parent,
                        folded.list.put_if_absent(item).children_of(parent).len() as int,
                    ),
                    None => folded.list.add_top(item, folded.list.top_level.len() as int),
                },
                display: folded.display.insert(at as int, collapsed(path)),
                ..folded
            }.refreshed(Some(path)).edit_toggled()
        }
    }

    /// Whether `item` can be added below the selected row: the row's item
    /// must not have it as a child already.
    pub open spec fn child_fits(self, item: ItemView) -> bool {
        &&& self.display.len() > 0
        &&& !self.list.children_of(item_of(self.display[self.selected as int].id_path)).contains(
            item.id,
        )
    }

    /// The session after `item` has been added as the last child of the
    /// selected row's item: the row shows its children as they are now, the
    /// new row is selected and opened for editing. Nothing happens when
    /// there is no row or the item does not fit.
    pub open spec fn with_child(self, item: ItemView) -> AppView {
        if !self.child_fits(item) {
            self
        } else {
            let path = self.display[self.selected as int].id_path;
            let parent = item_of(path);
            let base = self.list.put_if_absent(item);
            let added = AppView {
                list: base.attach(item.id, parent, base.children_of(parent).len() as int),
                ..self
            };
            let shown = if self.display[self.selected as int].expanded {
                added.toggled().toggled()
            } else {
                added.toggled()
            };
            shown.refreshed(Some(path.push(item.id))).edit_toggled()
        }
    }

    /// The session after the completion status of the selected row's item
    /// has been flipped.
    pub open spec fn completion_toggled(self) -> AppView {
        if self.display.len() == 0 {
            self
        } else {
            let id = item_of(self.display[self.selected as int].id_path);
            let item = self.list.items[id];
            AppView {
                list: self.list.put(
                    id,
                    ItemView {
                        id: item.id,
                        value: item.value,
                        children: item.children,
                        state: item.state.toggled(),
                    },
                ),
                ..self
            }
        }
    }

    /// The session after switching between the list and the editor: into
    /// the editor with the text of the selected row's item and the cursor
    /// behind it, if there is a row; out of the editor in any case.
    pub open spec fn edit_toggled(self) -> AppView {
        match self.state {
            UIState::ListView => if self.display.len() == 0 {
                self
            } else {
                let text = self.list.items[item_of(
                    self.display[self.selected as int].id_path,
                )].value;
                AppView {
                    edit_text: text,
                    cursor: text.len(),
                    state: UIState::EditView,
                    ..self
                }
            },
            UIState::EditView => AppView { state: UIState::ListView, ..self },
        }
    }

    /// The session after the edited text has become the text of the selected
    /// row's item and the editor has been left.
    pub open spec fn text_saved(self) -> AppView {
        if self.display.len() == 0 {
            AppView { state: UIState::ListView, ..self }
        } else {
            let id = item_of(self.display[self.selected as int].id_path);
            let item = self.list.items[id];
            AppView {
                list: self.list.put(
                    id,
                    ItemView {
                        id: item.id,
                        value: self.edit_text,
                        children: item.children,
                        state: item.state,
                    },
                ),
                state: UIState::ListView,
                ..self
            }
        }
    }

    /// The session after `c` has been typed: inserted at the cursor, which
    /// moves behind it. A cursor that the machine cannot move further stays,
    /// and nothing is typed.
    pub open spec fn typed(self, c: char) -> AppView {
        if self.cursor >= usize::MAX {
            self
        } else {
            AppView {
                edit_text: self.edit_text.insert(self.cursor as int, c),
                cursor: self.cursor + 1,
                ..self
            }
        }
    }

    /// The session after the character before the cursor has been deleted
    /// and the cursor has moved one place back. At the start of the text
    /// nothing is deleted.
    pub open spec fn backspaced(self) -> AppView {
        if self.cursor == 0 {
            self
        } else {
            AppView {
                edit_text: self.edit_text.remove(self.cursor - 1),
                cursor: (self.cursor - 1) as nat,
                ..self
            }
        }
    }

    /// The session after the cursor has moved one place back or forth,
    /// within the text.
    pub open spec fn cursor_moved(self, right: bool) -> AppView {
        AppView {
            cursor: if right {
                if self.cursor < self.edit_text.len() {
                    self.cursor + 1
                } else {
                    self.cursor
                }
            } else {
                if self.cursor > 0 {
                    (self.cursor - 1) as nat
                } else {
                    self.cursor
                }
            },
            ..self
        }
    }

    /// The session after the view root has moved to the selected row.
    pub open spec fn focused_on_current(self) -> AppView {
        AppView {
            view_root: if self.selected_path() is Some {
                self.selected_path()
            } else {
                self.view_root
            },
            ..self
        }.refreshed(None)
    }

    /// The session after the view root has moved one level up. Nothing
    /// happens when there is no view root.
    pub open spec fn focused_on_parent(self) -> AppView {
        match self.view_root {
            None => self,
            Some(path) => AppView {
                view_root: if path.len() > 1 {
                    Some(path.drop_last())
                } else {
                    None
                },
                ..self
            }.refreshed(None),
        }
    }

    /// The session after the selected row's item has been put on the
    /// clipboard for copying.
    pub open spec fn copied(self) -> AppView {
        match self.selected_path() {
            Some(path) => AppView {
                clipboard: Some(
                    ClipboardView { action: ClipboardActionView::Copy, item: item_of(path) },
                ),
                ..self
            },
            None => self,
        }
    }

    /// The session after the selected row's item has been put on the
    /// clipboard for moving, together with the parent that its path names.
    pub open spec fn cut(self) -> AppView {
        match self.selected_path() {
            Some(path) => AppView {
                clipboard: Some(
                    ClipboardView {
                        action: ClipboardActionView::Cut(parent_of(path)),
                        item: item_of(path),
                    },
                ),
                ..self
            },
            None => self,
        }
    }

    /// Whether a paste has something to do: the clipboard holds an item and
    /// a row is selected.
    pub open spec fn can_paste(self) -> bool {
        self.clipboard is Some && self.selected_path() is Some
    }

    /// Whether a paste attaches the clipboard's item: the selected row's item
    /// must not have it as a child already.
    pub open spec fn paste_attaches(self) -> bool {
        &&& self.can_paste()
        &&& !self.list.children_of(item_of(self.selected_path()->0)).contains(
            self.clipboard->0.item,
        )
    }

    /// The store after a paste: the clipboard's item attached as the last
    /// child of the selected row's item unless it is a child already, and,
    /// when it was cut, detached from where it was cut from.
    pub open spec fn pasted_list(self) -> StoreView {
        let target = item_of(self.selected_path()->0);
        let item = self.clipboard->0.item;
        let attached = if self.paste_attaches() {
            self.list.attach(item, target, self.list.children_of(target).len() as int)
        } else {
            self.list
        };
        match self.clipboard->0.action {
            ClipboardActionView::Cut(from) => attached.detach(item, from),
            ClipboardActionView::Copy => attached,
        }
    }

    /// Whether a paste changes the store's membership lists by a call that
    /// succeeds: the attachment, or the detachment of a cut item.
    pub open spec fn paste_takes_effect(self) -> bool {
        &&& self.can_paste()
        &&& (self.paste_attaches() || self.clipboard->0.action is Cut)
    }

    /// The session after the clipboard's item has been pasted below the
    /// selected row. The view is rebuilt when the paste took effect, and left
    /// as it is when it did not.
    pub open spec fn pasted(self) -> AppView {
        if self.paste_takes_effect() {
            AppView { list: self.pasted_list(), ..self }.refreshed(None)
        } else {
            self
        }
    }
}

impl AppView {
    /// What the renderer is told of row `i`: the text and status of the
    /// row's item, its path, its depth below the view root, and the number
    /// of its children.
    pub open spec fn row(self, i: int) -> RowView {
        let path = self.display[i].id_path;
        let item = self.list.items[item_of(path)];
        RowView {
            value: item.value,
            state: item.state,
            id_path: path,
            depth: (path.len() - root_prefix(self.view_root).len() - 1) as nat,
            children_count: item.children.len(),
            expanded: self.display[i].expanded,
            selected: i == self.selected,
        }
    }

    /// What the renderer is told of all rows, in order.
    pub open spec fn rows(self) -> Seq<RowView> {
        Seq::new(self.display.len(), |i: int| self.row(i))
    }

    /// The texts of the items along the view root, from the top down.
    pub open spec fn title(self) -> Seq<Seq<char>> {
        let path = root_prefix(self.view_root);
        Seq::new(path.len(), |i: int| self.list.items[path[i]].value)
    }
}

impl AppView {
    /// The session after a message has been handled. `fresh_id` is the
    /// identifier that a new item gets, if the message asks for one.
    pub open spec fn stepped(self, message: Message, fresh_id: Seq<char>) -> AppView {
        match self.state {
            UIState::ListView => match message {
                Message::Down => self.scrolled(true),
                Message::Up => self.scrolled(false),
                Message::Enter => self.toggled(),
                Message::FocusOnCurrentItem => self.focused_on_current(),
                Message::FocusOnParentItem => self.focused_on_parent(),
                Message::Copy => self.copied(),
                Message::Cut => self.cut(),
                Message::Paste => self.pasted(),
                Message::Delete => self.deleted(),
                Message::New => self.with_sibling(blank(fresh_id)),
                Message::InsertChild => self.with_child(blank(fresh_id)),
                Message::Space => self.completion_toggled(),
                Message::Edit => self.edit_toggled(),
                Message::Text(c) => self.typed(c),
                _ => self,
            },
            UIState::EditView => match message {
                Message::Esc => self.edit_toggled(),
                Message::Enter => self.text_saved(),
                Message::Left => self.cursor_moved(false),
                Message::Right => self.cursor_moved(true),
                Message::Backspace => self.backspaced(),
                Message::Text(c) => self.typed(c),
                _ => self,
            },
        }
    }

    /// What the caller has to do after a message has been handled: end the
    /// session on `Esc` in the list, write the store out after a message
    /// that changed it, nothing otherwise.
    pub open spec fn effect_of(self, message: Message, fresh_id: Seq<char>) -> Effect {
        match self.state {
            UIState::ListView => match message {
                Message::Esc => Effect::Quit,
                Message::Paste => save_if(self.paste_takes_effect()),
                Message::Delete => save_if(self.display.len() > 0),
                Message::New => save_if(self.sibling_fits(blank(fresh_id))),
                Message::InsertChild => save_if(self.child_fits(blank(fresh_id))),
                Message::Space => save_if(self.display.len() > 0),
                _ => Effect::Continue,
            },
            UIState::EditView => match message {
                Message::Enter => save_if(self.display.len() > 0),
                _ => Effect::Continue,
            },
        }
    }
}

impl AppView {
    /// Toggling the selected row keeps the invariant of a session.
    pub proof fn toggled_keeps_wf(self)
        requires
            self.wf(),
        ensures
            self.toggled().wf(),
            self.toggled().list == self.list,
    {
        if self.display.len() > 0 {
            let at = self.selected as int;
            let path = self.display[at].id_path;
            let after = self.toggled();
            assert(self.row_ok(self.display[at].id_path));
            if self.display[at].expanded {
                collapse_keeps_tidy(self.display, at);
                collapse_keeps_chained(self.display, at);
            } else {
                expand_keeps_tidy(self.list, self.display, at);
                expand_keeps_chained(self.list, self.display, at);
            }
            if self.display[at].expanded {
                let end = run_end(self.display, path.len(), at + 1);
                run_end_bounds(self.display, path.len(), at + 1);
                assert forall|i: int| 0 <= i < after.display.len() implies after.row_ok(
                    #[trigger] after.display[i].id_path,
                ) by {
                    if i < at {
                        assert(after.display[i] == self.display[i]);
                    } else if i > at {
                        assert(after.display[i] == self.display[end + (i - at - 1)]);
                        assert(self.row_ok(self.display[end + (i - at - 1)].id_path));
                    }
                }
            } else {
                let kids = kid_entries(self.list, path);
                let ids = self.list.children_of(path.last());
                assert(self.list.contains(path[path.len() - 1]));
                assert(self.list.item_valid(path.last()));
                assert forall|i: int| 0 <= i < after.display.len() implies after.row_ok(
                    #[trigger] after.display[i].id_path,
                ) by {
                    if i < at {
                        assert(after.display[i] == self.display[i]);
                    } else if i == at {
                    } else if i <= at + kids.len() {
                        let kid = ids[ids.len() - 1 - (i - at - 1)];
                        assert(after.display[i] == kids[i - at - 1]);
                        assert(after.display[i].id_path == path.push(kid));
                        assert(self.list.contains(kid));
                        assert(path.push(kid).take(root_prefix(self.view_root).len() as int)
                            =~= path.take(root_prefix(self.view_root).len() as int));
                        assert forall|j: int|
                            0 <= j < path.push(kid).len() implies self.list.contains(
                            #[trigger] path.push(kid)[j],
                        ) by {
                            if j < path.len() {
                                assert(self.list.contains(path[j]));
                            }
                        }
                    } else {
                        assert(after.display[i] == self.display[i - kids.len()]);
                        assert(self.row_ok(self.display[i - kids.len()].id_path));
                    }
                }
            }
        }
    }
}

impl AppView {
    /// Expanding the selected row and collapsing it again restores the rows
    /// of the view to what they were before, in number and in content.
    pub proof fn toggle_twice_restores_rows(self)
        requires
            self.wf(),
            self.display.len() > 0,
            !self.display[self.selected as int].expanded,
        ensures
            self.toggled().toggled().display == self.display,
            self.toggled().toggled().selected == self.selected,
            self.toggled().toggled().list == self.list,
    {
        expand_then_collapse_restores(self.list, self.display, self.selected as int);
    }
}

impl AppView {
    /// Rebuilding the view twice gives the rows that rebuilding it once
    /// gives: the rows depend on the store, the view root and the expanded
    /// paths alone, not on the rows or the selection before.
    pub proof fn rebuild_is_idempotent(
        self,
        first: Option<Seq<Seq<char>>>,
        second: Option<Seq<Seq<char>>>,
    )
        ensures
            self.refreshed(first).refreshed(second).display == self.refreshed(first).display,
            self.refreshed(first).display == projection(self.list, self.view_root, self.expanded),
    {
    }

    /// Collapsing the selected row takes out rows below it and no others:
    /// every row taken out has a path that begins with the path of the
    /// selected row and is longer, and the rows before the selected row and
    /// behind the run stay as they are.
    pub proof fn collapse_takes_out_rows_below(self)
        requires
            self.wf(),
            self.display.len() > 0,
            self.display[self.selected as int].expanded,
        ensures
            ({
                let at = self.selected as int;
                let path = self.display[at].id_path;
                let end = run_end(self.display, path.len(), at + 1);
                &&& at < end <= self.display.len()
                &&& self.toggled().display == self.display.take(at) + seq![collapsed(path)]
                    + self.display.skip(end)
                &&& forall|k: int|
                    at < k < end ==> begins_with((#[trigger] self.display[k]).id_path, path)
                        && self.display[k].id_path.len() > path.len()
            }),
    {
        collapse_takes_out_rows_below(self.display, self.selected as int);
    }
}

/// Whether `path` begins with `start`.
pub open spec fn begins_with(path: Seq<Seq<char>>, start: Seq<Seq<char>>) -> bool {
    path.len() >= start.len() && path.take(start.len() as int) == start
}

impl AppView {
    /// After the selected row has been deleted, no row of the view has the
    /// deleted row's path or a path below it: neither the row nor any row of
    /// its children is left behind, whether the row was expanded or not.
    pub proof fn deleted_row_leaves_no_rows(self)
        requires
            self.wf(),
            self.display.len() > 0,
        ensures
            forall|k: int|
                0 <= k < self.deleted().display.len() ==> !begins_with(
                    (#[trigger] self.deleted().display[k]).id_path,
                    self.display[self.selected as int].id_path,
                ),
            self.deleted().list.contains(item_of(self.display[self.selected as int].id_path)),
    {
        let p = self.display[self.selected as int].id_path;
        let x = item_of(p);
        let m = p.len() as int;
        let base = root_prefix(self.view_root);
        let store = self.list.detach(x, parent_of(p));
        let after = self.deleted();
        assert(self.row_ok(self.display[self.selected as int].id_path));
        assert(self.folded().list == self.list);
        assert(self.folded().view_root == self.view_root);
        assert(after.list == store);
        assert(after.display == projection(store, self.view_root, after.expanded));
        rows_follow_edges(store, self.view_root, after.expanded);
        assert(self.list.contains(p[m - 1]));
        if m >= 2 {
            assert(self.list.contains(p[m - 2]));
            without_contains(self.list.children_of(p[m - 2]), x, x);
            assert(!store.children_of(p[m - 2]).contains(x));
        } else {
            without_contains(self.list.top_level, x, x);
            assert(!store.top_level.contains(x));
        }
        if m - 1 == base.len() {
            match self.view_root {
                Some(root) => {
                    assert(p.take(base.len() as int)[m - 2] == base[m - 2]);
                    assert(p[m - 2] == root.last());
                },
                None => {},
            }
            assert(!source_ids(store, self.view_root).contains(x));
        }
        assert forall|k: int| 0 <= k < after.display.len() implies !begins_with(
            (#[trigger] after.display[k]).id_path,
            p,
        ) by {
            let q = after.display[k].id_path;
            assert(follows_edges(store, self.view_root, q));
            if begins_with(q, p) {
                assert(q.take(m)[m - 1] == p[m - 1]);
                assert(q[m - 1] == x);
                if m - 1 == base.len() {
                    assert(source_ids(store, self.view_root).contains(q[base.len() as int]));
                } else {
                    assert(q.take(m)[m - 2] == p[m - 2]);
                    assert(store.children_of(q[m - 2]).contains(q[m - 1]));
                }
            }
        }
    }
}

} // verus!

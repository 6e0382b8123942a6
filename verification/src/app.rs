//! The session: the store, the flattened view over it with its expanded
//! rows and its selection, the clipboard and the text being edited.

mod editing;
mod items;
mod messages;
mod rows;

use crate::app_model::{blank, AppView, ClipboardActionView, ClipboardView, RowView, UIState};
use crate::display::EntryView;
use crate::list::List;
use crate::list_item::{drawn, ListItem, State, ID_LENGTH};
use crate::text::{copy_ids, ids_of, string_of};
use vstd::prelude::*;

verus! {

broadcast use ListItem::view_of_fields;

/// One row of the flattened view.
#[derive(Debug)]
pub struct ListEntry {
    /// The identifiers from the view root down to the row's item.
    pub id_path: Vec<String>,
    /// Whether the row's children are shown below it.
    pub expanded: bool,
}

impl View for ListEntry {
    type V = EntryView;

    open spec fn view(&self) -> EntryView {
        EntryView { id_path: ids_of(self.id_path@), expanded: self.expanded }
    }
}

/// What a pending paste will do besides attaching the item.
#[derive(Debug)]
pub enum ClipboardAction {
    /// Detach the item from the parent it was cut from, or from the top
    /// level when it was cut from there.
    Cut(Option<String>),
    /// Nothing: the item stays where it is as well.
    Copy,
}

/// What the clipboard holds.
#[derive(Debug)]
pub struct Clipboard {
    pub action_type: ClipboardAction,
    pub list_item_id: String,
}

impl View for Clipboard {
    type V = ClipboardView;

    open spec fn view(&self) -> ClipboardView {
        ClipboardView {
            action: match self.action_type {
                ClipboardAction::Cut(Some(parent)) => ClipboardActionView::Cut(Some(parent@)),
                ClipboardAction::Cut(None) => ClipboardActionView::Cut(None),
                ClipboardAction::Copy => ClipboardActionView::Copy,
            },
            item: self.list_item_id@,
        }
    }
}

/// What the renderer is told of one row.
#[derive(Debug)]
pub struct Row {
    /// The text of the row's item.
    pub value: String,
    /// The completion status of the row's item.
    pub state: State,
    /// The identifiers from the view root down to the row's item.
    pub id_path: Vec<String>,
    /// How many levels the row lies below the rows of the view root.
    pub depth: usize,
    /// How many children the row's item has.
    pub children_count: usize,
    /// Whether the row's children are shown below it.
    pub expanded: bool,
    /// Whether the row is the selected one.
    pub selected: bool,
}

impl View for Row {
    type V = RowView;

    open spec fn view(&self) -> RowView {
        RowView {
            value: self.value@,
            state: self.state,
            id_path: ids_of(self.id_path@),
            depth: self.depth as nat,
            children_count: self.children_count as nat,
            expanded: self.expanded,
            selected: self.selected,
        }
    }
}

/// What a list of reported rows holds.
pub open spec fn reported(rows: Seq<Row>) -> Seq<RowView> {
    Seq::new(rows.len(), |i: int| rows[i]@)
}

/// What a list of texts holds.
pub open spec fn texts_of(texts: Seq<String>) -> Seq<Seq<char>> {
    Seq::new(texts.len(), |i: int| texts[i]@)
}

/// What a list of rows holds.
pub open spec fn rows_of(entries: Seq<ListEntry>) -> Seq<EntryView> {
    Seq::new(entries.len(), |i: int| entries[i]@)
}

/// What a list of paths holds.
pub open spec fn paths_of(paths: Seq<Vec<String>>) -> Seq<Seq<Seq<char>>> {
    Seq::new(paths.len(), |i: int| ids_of(paths[i]@))
}

/// What a path that may be absent holds.
pub open spec fn path_of(path: Option<Vec<String>>) -> Option<Seq<Seq<char>>> {
    match path {
        Some(path) => Some(ids_of(path@)),
        None => None,
    }
}

/// What a clipboard that may be empty holds.
pub open spec fn clipboard_of(clipboard: Option<Clipboard>) -> Option<ClipboardView> {
    match clipboard {
        Some(clipboard) => Some(clipboard@),
        None => None,
    }
}

/// The session.
#[derive(Debug)]
pub struct App {
    list: List,
    state: UIState,
    selected_list_index: usize,
    cursor_index: usize,
    display: Vec<ListEntry>,
    edit_text: Vec<char>,
    display_parent_item: Option<Vec<String>>,
    clipboard: Option<Clipboard>,
    debug: bool,
    expanded_items: Vec<Vec<String>>,
}

impl View for App {
    type V = AppView;

    closed spec fn view(&self) -> AppView {
        AppView {
            list: self.list@,
            state: self.state,
            selected: self.selected_list_index as nat,
            cursor: self.cursor_index as nat,
            display: rows_of(self.display@),
            edit_text: self.edit_text@,
            view_root: path_of(self.display_parent_item),
            clipboard: clipboard_of(self.clipboard),
            debug: self.debug,
            expanded: paths_of(self.expanded_items@),
        }
    }
}

impl App {
    /// The invariant of a session, and of the store inside it.
    pub closed spec fn wf(&self) -> bool {
        self.list.wf() && self@.wf()
    }

    /// Whether the store of the session is valid, its view root and
    /// clipboard name only items of the store, and the cursor lies in the
    /// edited text or directly behind it. This is what a rebuild of the view
    /// asks for; the invariant of a session implies it.
    pub closed spec fn grounded(&self) -> bool {
        self.list.wf() && self@.grounded()
    }

    /// The invariant of a session implies that it is grounded.
    pub proof fn wf_is_grounded(&self)
        requires
            self.wf(),
        ensures
            self.grounded(),
    {
    }

    /// The session that starts on `list`, with `first_id` for the blank root
    /// that a list without roots gets.
    pub fn start(list: List, first_id: String) -> (app: App)
        requires
            list.wf(),
            list@.valid(),
        ensures
            app.wf(),
            app@ == AppView::started(list@, first_id@),
    {
        let mut list = list;
        let ghost given = list@;
        let list_is_empty = list.top_level_ids().len() == 0;
        if list_is_empty {
            let item = ListItem::with_id(first_id, String::new());
            proof {
                assert(given.top_level.len() == 0);
                assert(!given.top_level.contains(item@.id));
                assert(item@ == blank(first_id@));
            }
            list.add_list_item(item, None);
        }
        let mut app = App {
            list,
            state: if list_is_empty {
                UIState::EditView
            } else {
                UIState::ListView
            },
            selected_list_index: 0,
            cursor_index: 0,
            display: Vec::new(),
            edit_text: Vec::new(),
            display_parent_item: None,
            clipboard: None,
            debug: false,
            expanded_items: Vec::new(),
        };
        assert(app@.display =~= Seq::<EntryView>::empty());
        assert(app@.expanded =~= Seq::<Seq<Seq<char>>>::empty());
        app.update_display(None);
        app
    }

    /// The session that starts on `list`. A list without roots gets a blank
    /// root under a freshly drawn identifier.
    pub fn new(list: List) -> (app: App)
        requires
            list.wf(),
            list@.valid(),
        ensures
            app.wf(),
            exists|id: Seq<char>| #[trigger] drawn(id) && app@ == AppView::started(list@, id),
    {
        let id = ListItem::random_string_from_chars(ID_LENGTH);
        let ghost fresh = id@;
        let app = Self::start(list, id);
        assert(drawn(fresh) && app@ == AppView::started(list@, fresh));
        app
    }

    /// A session stays grounded when its store is exchanged for a valid one
    /// that holds every item the old one held, whatever becomes of the rows
    /// and the selection.
    proof fn grounded_on(before: AppView, after: AppView)
        requires
            before.grounded(),
            after.list.valid(),
            forall|id: Seq<char>| before.list.contains(id) ==> #[trigger] after.list.contains(id),
            after.view_root == before.view_root,
            after.clipboard == before.clipboard,
            after.cursor <= after.edit_text.len(),
        ensures
            after.grounded(),
    {
        match before.view_root {
            Some(path) => {
                assert forall|i: int| 0 <= i < path.len() implies after.list.contains(
                    #[trigger] path[i],
                ) by {
                    assert(before.list.contains(path[i]));
                }
            },
            None => {},
        }
    }

    /// What the renderer is told of row `i`.
    pub fn row(&self, i: usize) -> (row: Row)
        requires
            self.wf(),
            i < self@.display.len(),
        ensures
            row@ == self@.row(i as int),
    {
        let entry = &self.display[i];
        assert(self@.row_ok(self@.display[i as int].id_path));
        assert(self@.list.contains(ids_of(entry.id_path@)[entry.id_path@.len() - 1]));
        let root_len = match &self.display_parent_item {
            Some(path) => path.len(),
            None => 0,
        };
        let depth = entry.id_path.len() - root_len - 1;
        match self.list.get_list_item(entry.id_path[entry.id_path.len() - 1].as_str()) {
            Some(item) => Row {
                value: item.value.clone(),
                state: item.state,
                id_path: copy_ids(&entry.id_path),
                depth,
                children_count: item.child_ids().len(),
                expanded: entry.expanded,
                selected: i == self.selected_list_index,
            },
            None => Row {
                value: String::new(),
                state: State::Pending,
                id_path: copy_ids(&entry.id_path),
                depth,
                children_count: 0,
                expanded: entry.expanded,
                selected: i == self.selected_list_index,
            },
        }
    }

    /// What the renderer is told of all rows, in order.
    pub fn rows(&self) -> (rows: Vec<Row>)
        requires
            self.wf(),
        ensures
            reported(rows@) == self@.rows(),
    {
        let mut rows: Vec<Row> = Vec::new();
        let mut i: usize = 0;
        while i < self.display.len()
            invariant
                self.wf(),
                i <= self@.display.len(),
                rows@.len() == i,
                forall|j: int| 0 <= j < i ==> (#[trigger] rows@[j])@ == self@.row(j),
            decreases self@.display.len() - i,
        {
            rows.push(self.row(i));
            i += 1;
        }
        assert(reported(rows@) =~= self@.rows());
        rows
    }

    /// The texts of the items along the view root, from the top down.
    pub fn title(&self) -> (texts: Vec<String>)
        requires
            self.wf(),
        ensures
            texts_of(texts@) == self@.title(),
    {
        let mut texts: Vec<String> = Vec::new();
        match &self.display_parent_item {
            Some(path) => {
                let mut i: usize = 0;
                while i < path.len()
                    invariant
                        self.wf(),
                        self.display_parent_item == Some(*path),
                        i <= path@.len(),
                        texts@.len() == i,
                        forall|j: int|
                            0 <= j < i ==> (#[trigger] texts@[j])@ == self@.list.items[ids_of(
                                path@,
                            )[j]].value,
                    decreases path@.len() - i,
                {
                    assert(self@.list.contains(ids_of(path@)[i as int]));
                    match self.list.get_list_item(path[i].as_str()) {
                        Some(item) => {
                            texts.push(item.value.clone());
                        },
                        None => {
                            texts.push(String::new());
                        },
                    }
                    i += 1;
                }
                assert(texts_of(texts@) =~= self@.title());
            },
            None => {
                assert(texts_of(texts@) =~= self@.title());
            },
        }
        texts
    }

    /// The store of the session.
    pub fn list(&self) -> (list: &List)
        ensures
            list@ == self@.list,
            self.wf() ==> list.wf() && list@.valid(),
    {
        &self.list
    }

    /// The screen that is shown.
    pub fn state(&self) -> (state: UIState)
        ensures
            state == self@.state,
    {
        self.state
    }

    /// The index of the selected row.
    pub fn selected_list_index(&self) -> (index: usize)
        ensures
            index == self@.selected,
    {
        self.selected_list_index
    }

    /// The place of the cursor in the edited text, counted in characters.
    pub fn cursor_index(&self) -> (index: usize)
        ensures
            index == self@.cursor,
    {
        self.cursor_index
    }

    /// The rows of the view.
    pub fn display(&self) -> (rows: &Vec<ListEntry>)
        ensures
            rows_of(rows@) == self@.display,
    {
        &self.display
    }

    /// The text that is being edited.
    pub fn edit_text(&self) -> (text: String)
        ensures
            text@ == self@.edit_text,
    {
        string_of(&self.edit_text)
    }

    /// The view root, if the view is focused on a subtree.
    pub fn display_parent_item(&self) -> (root: &Option<Vec<String>>)
        ensures
            path_of(*root) == self@.view_root,
    {
        &self.display_parent_item
    }

    /// The clipboard.
    pub fn clipboard(&self) -> (clipboard: &Option<Clipboard>)
        ensures
            clipboard_of(*clipboard) == self@.clipboard,
    {
        &self.clipboard
    }

    /// The paths of the rows that are kept expanded.
    pub fn expanded_items(&self) -> (paths: &Vec<Vec<String>>)
        ensures
            paths_of(paths@) == self@.expanded,
    {
        &self.expanded_items
    }

    /// Whether the renderer is to show each row's path.
    pub fn debug(&self) -> (debug: bool)
        ensures
            debug == self@.debug,
    {
        self.debug
    }
}

} // verus!

//! The rows of the view: expanding and collapsing a row in place, and the
//! rebuild of all rows from the store.

use super::{paths_of, path_of, rows_of, App, ListEntry};
use crate::app_model::{AppView, Message};
use crate::display::{
    chained, collapse_at, collapsed, expand_at, first_row_at, first_row_is_row_of, hangs_after,
    kid_entries, opened,
    reselect, root_entries, root_prefix, run_end, shows, source_ids, tidy, unfold_all,
    unfold_all_len, walk_step, EntryView,
};
use crate::list_item::ListItem;
use crate::text::{copy_ids, ids_of, same_ids, without};
use vstd::prelude::*;

verus! {

broadcast use ListItem::view_of_fields;

/// Whether `paths` holds `path`.
fn holds_path(paths: &Vec<Vec<String>>, path: &Vec<String>) -> (held: bool)
    ensures
        held == paths_of(paths@).contains(ids_of(path@)),
{
    let mut i: usize = 0;
    while i < paths.len()
        invariant
            i <= paths@.len(),
            forall|j: int| 0 <= j < i ==> paths_of(paths@)[j] != ids_of(path@),
        decreases paths@.len() - i,
    {
        if same_ids(&paths[i], path) {
            assert(paths_of(paths@)[i as int] == ids_of(path@));
            return true;
        }
        i += 1;
    }
    false
}

/// Takes every path equal to `path` out of `paths`.
fn drop_path(paths: &mut Vec<Vec<String>>, path: &Vec<String>)
    ensures
        paths_of(final(paths)@) == without(paths_of(old(paths)@), ids_of(path@)),
{
    let mut kept: Vec<Vec<String>> = Vec::new();
    let mut i: usize = 0;
    while i < paths.len()
        invariant
            i <= paths@.len(),
            paths_of(kept@) == without(paths_of(paths@).take(i as int), ids_of(path@)),
        decreases paths@.len() - i,
    {
        proof {
            let all = paths_of(paths@);
            assert(all.take(i + 1).drop_last() =~= all.take(i as int));
            assert(all.take(i + 1).last() == ids_of(paths@[i as int]@));
        }
        if !same_ids(&paths[i], path) {
            kept.push(copy_ids(&paths[i]));
            assert(paths_of(kept@) =~= without(
                paths_of(paths@).take(i as int),
                ids_of(path@),
            ).push(ids_of(paths@[i as int]@)));
        }
        i += 1;
    }
    assert(paths_of(paths@).take(i as int) =~= paths_of(paths@));
    *paths = kept;
}

/// The first row of `display` with the path `path`, if a row has it.
fn find_row(display: &Vec<ListEntry>, path: &Vec<String>) -> (found: Option<usize>)
    ensures
        match found {
            Some(i) => first_row_at(rows_of(display@), ids_of(path@), i as int),
            None => !shows(rows_of(display@), ids_of(path@)),
        },
{
    let mut i: usize = 0;
    while i < display.len()
        invariant
            i <= display@.len(),
            forall|j: int| 0 <= j < i ==> rows_of(display@)[j].id_path != ids_of(path@),
        decreases display@.len() - i,
    {
        if same_ids(&display[i].id_path, path) {
            return Some(i);
        }
        i += 1;
    }
    None
}

/// What the walk that rebuilds the view relies on from step to step: the
/// rows are tidy and chained and lie in the store, the rows from `at` on are
/// still collapsed, and the rows up to `at` followed by what the rows from
/// `at` on contribute are the rows that the walk is to build.
#[verifier::opaque]
spec fn walking(session: AppView, rows: Seq<EntryView>, at: int, target: Seq<EntryView>) -> bool {
    &&& 0 <= at <= rows.len()
    &&& tidy(rows)
    &&& chained(rows)
    &&& forall|i: int| 0 <= i < rows.len() ==> session.row_ok(#[trigger] rows[i].id_path)
    &&& forall|i: int| at <= i < rows.len() ==> !(#[trigger] rows[i]).expanded
    &&& target == rows.take(at) + unfold_all(session.list, session.expanded, rows.skip(at))
}

impl App {
    /// Expands the row at `at` in place: the row is marked as expanded and
    /// one row for each child of its item is inserted directly below it.
    fn expand_row(&mut self, at: usize)
        requires
            old(self).list.wf(),
            old(self)@.list.valid(),
            at < old(self).display@.len(),
            old(self).display@[at as int].id_path@.len() > 0,
            old(self)@.list.holds_all(old(self)@.display[at as int].id_path),
        ensures
            final(self)@ == (AppView {
                display: expand_at(old(self)@.list, old(self)@.display, at as int),
                ..old(self)@
            }),
            final(self).list == old(self).list,
    {
        let ghost before = self@;
        let ghost path_view = before.display[at as int].id_path;
        self.display[at].expanded = true;
        let path = copy_ids(&self.display[at].id_path);
        assert(before.list.contains(path_view[path_view.len() - 1]));
        let kids: Vec<String> = match self.list.get_list_item(path[path.len() - 1].as_str()) {
            Some(item) => item.child_ids(),
            None => Vec::new(),
        };
        assert(ids_of(kids@) == before.list.children_of(path_view.last()));
        let ghost shown = rows_of(self.display@);
        assert(shown =~= before.display.take(at as int) + seq![opened(path_view)]
            + before.display.skip(at + 1));
        let mut k: usize = 0;
        while k < kids.len()
            invariant
                k <= kids@.len(),
                at < self.display.len(),
                at < before.display.len(),
                ids_of(path@) == path_view,
                self@ == (AppView { display: rows_of(self.display@), ..before }),
                self.list == old(self).list,
                rows_of(self.display@) == before.display.take(at as int) + seq![opened(path_view)]
                    + Seq::new(
                    k as nat,
                    |j: int| collapsed(path_view.push(ids_of(kids@)[k - 1 - j])),
                ) + before.display.skip(at + 1),
            decreases kids@.len() - k,
        {
            let ghost rows = rows_of(self.display@);
            let ghost below = Seq::new(
                k as nat,
                |j: int| collapsed(path_view.push(ids_of(kids@)[k - 1 - j])),
            );
            let ghost row = collapsed(path_view.push(ids_of(kids@)[k as int]));
            let mut child_path = copy_ids(&path);
            child_path.push(kids[k].clone());
            assert(ids_of(child_path@) =~= path_view.push(ids_of(kids@)[k as int]));
            self.display.insert(at + 1, ListEntry { id_path: child_path, expanded: false });
            assert(rows_of(self.display@) =~= rows.insert(at + 1, row));
            k += 1;
            proof {
                let now = Seq::new(
                    k as nat,
                    |j: int| collapsed(path_view.push(ids_of(kids@)[k - 1 - j])),
                );
                assert(now =~= seq![row] + below);
                let head = before.display.take(at as int) + seq![opened(path_view)];
                let rest = before.display.skip(at + 1);
                assert(head.len() == at + 1);
                assert(rows == head + below + rest);
                assert(rows.insert(at + 1, row) =~= head + (seq![row] + below) + rest);
            }
        }
        assert(Seq::new(k as nat, |j: int| collapsed(path_view.push(ids_of(kids@)[k - 1 - j])))
            =~= kid_entries(before.list, path_view));
    }

    /// Collapses the row at `at` in place: the row is marked as collapsed
    /// and the run of deeper rows that follows it is taken out.
    fn collapse_row(&mut self, at: usize)
        requires
            at < old(self).display@.len(),
        ensures
            final(self)@ == (AppView {
                display: collapse_at(old(self)@.display, at as int),
                ..old(self)@
            }),
            final(self).list == old(self).list,
    {
        let ghost before = self@;
        let ghost path_view = before.display[at as int].id_path;
        self.display[at].expanded = false;
        assert(at < self.display.len());
        let depth = self.display[at].id_path.len();
        let ghost shown = rows_of(self.display@);
        assert(shown =~= before.display.take(at as int) + seq![collapsed(path_view)]
            + before.display.skip(at + 1));
        let mut end: usize = at + 1;
        while end != self.display.len() && depth < self.display[end].id_path.len()
            invariant
                at < end <= self.display@.len(),
                shown == rows_of(self.display@),
                depth == path_view.len(),
                run_end(before.display, depth as nat, at + 1) == run_end(
                    before.display,
                    depth as nat,
                    end as int,
                ),
                forall|j: int| at < j < shown.len() ==> shown[j] == before.display[j],
                shown.len() == before.display.len(),
            decreases self.display@.len() - end,
        {
            assert(shown[end as int] == before.display[end as int]);
            end += 1;
        }
        proof {
            if end < shown.len() {
                assert(shown[end as int] == before.display[end as int]);
            }
            assert(run_end(before.display, depth as nat, end as int) == end);
        }
        let mut i: usize = end;
        while i > at + 1
            invariant
                at + 1 <= i <= end <= shown.len(),
                self@ == (AppView { display: rows_of(self.display@), ..before }),
                self.list == old(self).list,
                rows_of(self.display@) == shown.take(i as int) + shown.skip(end as int),
            decreases i,
        {
            let ghost rows = rows_of(self.display@);
            assert(rows.len() == self.display@.len());
            i -= 1;
            self.display.remove(i);
            assert(rows_of(self.display@) =~= rows.remove(i as int));
            assert(rows_of(self.display@) =~= shown.take(i as int) + shown.skip(end as int));
        }
        assert(rows_of(self.display@) =~= collapse_at(before.display, at as int));
    }

    /// Toggles the selected row: expands it when it is collapsed, collapses
    /// it when it is expanded, and keeps the set of expanded paths in step.
    pub fn handle_expand(&mut self)
        requires
            old(self).wf(),
        ensures
            final(self).wf(),
            final(self)@ == old(self)@.toggled(),
    {
        proof {
            self@.toggled_keeps_wf();
        }
        if self.display.len() == 0 {
            return;
        }
        let at = self.selected_list_index;
        assert(self@.row_ok(self@.display[at as int].id_path));
        let path = copy_ids(&self.display[at].id_path);
        if !self.display[at].expanded {
            if !holds_path(&self.expanded_items, &path) {
                self.expanded_items.push(path);
                assert(paths_of(self.expanded_items@) =~= old(self)@.expanded.push(
                    old(self)@.display[at as int].id_path,
                ));
            }
            self.expand_row(at);
        } else {
            drop_path(&mut self.expanded_items, &path);
            self.collapse_row(at);
        }
    }

    /// The rows that the view starts from: one collapsed row for each child
    /// of the item that the view root ends in, or for each root of the store
    /// when there is no view root.
    fn source_rows(&self) -> (rows: Vec<ListEntry>)
        requires
            self.grounded(),
        ensures
            rows_of(rows@) == root_entries(self@.list, self@.view_root),
            forall|i: int|
                0 <= i < rows@.len() ==> self@.row_ok(#[trigger] rows_of(rows@)[i].id_path),
            tidy(rows_of(rows@)),
            chained(rows_of(rows@)),
    {
        let ghost store = self@.list;
        let ghost root = self@.view_root;
        let prefix: Vec<String> = match &self.display_parent_item {
            Some(path) => copy_ids(path),
            None => Vec::new(),
        };
        assert(ids_of(prefix@) =~= root_prefix(root));
        let ids: Vec<String> = match &self.display_parent_item {
            Some(path) => {
                assert(store.contains(ids_of(path@)[path@.len() - 1]));
                match self.list.get_list_item(path[path.len() - 1].as_str()) {
                    Some(item) => item.child_ids(),
                    None => Vec::new(),
                }
            },
            None => self.list.top_level_ids(),
        };
        assert(ids_of(ids@) == source_ids(store, root));
        proof {
            match root {
                Some(path) => {
                    assert(store.contains(path[path.len() - 1]));
                    assert(store.item_valid(path.last()));
                },
                None => {},
            }
            assert(store.holds_all(ids_of(ids@)));
        }
        let mut rows: Vec<ListEntry> = Vec::new();
        let mut k: usize = 0;
        while k < ids.len()
            invariant
                k <= ids@.len(),
                rows@.len() == k,
                ids_of(prefix@) == root_prefix(root),
                forall|j: int|
                    0 <= j < k ==> (#[trigger] rows_of(rows@)[j]) == collapsed(
                        root_prefix(root).push(ids_of(ids@)[j]),
                    ),
            decreases ids@.len() - k,
        {
            let ghost before = rows_of(rows@);
            let mut id_path = copy_ids(&prefix);
            id_path.push(ids[k].clone());
            assert(ids_of(id_path@) =~= root_prefix(root).push(ids_of(ids@)[k as int]));
            rows.push(ListEntry { id_path, expanded: false });
            assert(rows_of(rows@) =~= before.push(
                collapsed(root_prefix(root).push(ids_of(ids@)[k as int])),
            ));
            k += 1;
        }
        assert(rows_of(rows@) =~= root_entries(store, root));
        proof {
            let shown = rows_of(rows@);
            assert forall|i: int| 0 <= i < shown.len() implies self@.row_ok(
                #[trigger] shown[i].id_path,
            ) by {
                let path = shown[i].id_path;
                assert(store.contains(ids_of(ids@)[i]));
                assert(path.take(root_prefix(root).len() as int) =~= root_prefix(root));
                if i + 1 < shown.len() {
                    let next = shown[i + 1].id_path;
                    assert(next.take(next.len() - 1) =~= path.take(next.len() - 1));
                    assert(hangs_after(path, next));
                }
                assert forall|j: int| 0 <= j < path.len() implies store.contains(
                    #[trigger] path[j],
                ) by {
                    if j < path.len() - 1 {
                        assert(path[j] == root_prefix(root)[j]);
                        assert(store.contains(root_prefix(root)[j]));
                    }
                }
            }
        }
        rows
    }

    /// Walks the rows from the top and expands, in place, every row whose
    /// path is among the expanded paths, the rows that this brings in
    /// included.
    fn expand_kept_rows(&mut self)
        requires
            old(self).grounded(),
            tidy(old(self)@.display),
            chained(old(self)@.display),
            forall|i: int|
                0 <= i < old(self)@.display.len() ==> old(self)@.row_ok(
                    #[trigger] old(self)@.display[i].id_path,
                ),
            forall|i: int|
                0 <= i < old(self)@.display.len() ==> !(#[trigger] old(self)@.display[i]).expanded,
        ensures
            final(self)@ == (AppView {
                display: unfold_all(old(self)@.list, old(self)@.expanded, old(self)@.display),
                ..old(self)@
            }),
            final(self).list == old(self).list,
            tidy(final(self)@.display),
            chained(final(self)@.display),
            forall|i: int|
                0 <= i < final(self)@.display.len() ==> final(self)@.row_ok(
                    #[trigger] final(self)@.display[i].id_path,
                ),
    {
        let ghost before = self@;
        let ghost target = unfold_all(before.list, before.expanded, before.display);
        proof {
            let rows = rows_of(self.display@);
            assert(rows.skip(0) =~= rows);
            assert(rows.take(0) + unfold_all(before.list, before.expanded, rows.skip(0))
                =~= target);
            reveal(walking);
        }
        let mut at: usize = 0;
        while at < self.display.len()
            invariant
                at <= self.display@.len(),
                before.grounded(),
                self.list.wf(),
                self.list == old(self).list,
                self@ == (AppView { display: rows_of(self.display@), ..before }),
                walking(before, rows_of(self.display@), at as int, target),
            decreases target.len() - at,
        {
            let ghost rows = rows_of(self.display@);
            proof {
                Self::walk_goes_on(before, rows, at as int, target);
            }
            if holds_path(&self.expanded_items, &self.display[at].id_path) {
                self.expand_row(at);
            }
            assert(rows_of(self.display@).len() == self.display@.len());
            at += 1;
        }
        proof {
            reveal(walking);
            let rows = rows_of(self.display@);
            assert(rows.skip(at as int) =~= Seq::<EntryView>::empty());
            assert(rows.take(at as int) =~= rows);
            assert(target =~= rows);
        }
    }

    /// One step of the walk keeps what the walk relies on: with the rows
    /// final up to `at`, the row at `at` lies in the store, and after it has
    /// been expanded if its path is among the expanded paths, the rows are
    /// final up to `at + 1`. The walk has not reached the end of what it
    /// builds.
    proof fn walk_goes_on(session: AppView, rows: Seq<EntryView>, at: int, target: Seq<EntryView>)
        requires
            session.grounded(),
            walking(session, rows, at, target),
            0 <= at < rows.len(),
        ensures
            session.list.holds_all(rows[at].id_path),
            rows[at].id_path.len() > 0,
            at < target.len(),
            at < expand_at(session.list, rows, at).len(),
            walking(
                session,
                if session.expanded.contains(rows[at].id_path) {
                    expand_at(session.list, rows, at)
                } else {
                    rows
                },
                at + 1,
                target,
            ),
    {
        reveal(walking);
        assert(session.row_ok(rows[at].id_path));
        unfold_all_len(session.list, session.expanded, rows.skip(at));
        walk_step(session.list, session.expanded, rows, at);
        if session.expanded.contains(rows[at].id_path) {
            Self::expanded_row_stays_ok(session, rows, at);
        }
    }

    /// Expanding a collapsed row of rows that are tidy and chained and lie in
    /// the store gives rows that are tidy and chained and lie in the store,
    /// with every row below the expanded one still collapsed if it was
    /// before.
    proof fn expanded_row_stays_ok(session: AppView, rows: Seq<EntryView>, at: int)
        requires
            session.grounded(),
            tidy(rows),
            chained(rows),
            0 <= at < rows.len(),
            !rows[at].expanded,
            forall|i: int| 0 <= i < rows.len() ==> session.row_ok(#[trigger] rows[i].id_path),
            forall|i: int| at <= i < rows.len() ==> !(#[trigger] rows[i]).expanded,
        ensures
            tidy(expand_at(session.list, rows, at)),
            chained(expand_at(session.list, rows, at)),
            forall|i: int|
                0 <= i < expand_at(session.list, rows, at).len() ==> session.row_ok(
                    #[trigger] expand_at(session.list, rows, at)[i].id_path,
                ),
            forall|i: int|
                at + 1 <= i < expand_at(session.list, rows, at).len() ==> !(#[trigger] expand_at(
                    session.list,
                    rows,
                    at,
                )[i]).expanded,
    {
        let now = expand_at(session.list, rows, at);
        let shown = AppView { display: rows, selected: at as nat, ..session };
        assert(shown.wf());
        shown.toggled_keeps_wf();
        assert(shown.toggled().display == now);
        assert forall|i: int| 0 <= i < now.len() implies session.row_ok(
            #[trigger] now[i].id_path,
        ) by {
            assert(shown.toggled().row_ok(shown.toggled().display[i].id_path));
        }
        let kids = kid_entries(session.list, rows[at].id_path);
        assert forall|i: int| at + 1 <= i < now.len() implies !(#[trigger] now[i]).expanded by {
            if i <= at + kids.len() {
                assert(now[i] == kids[i - at - 1]);
            } else {
                assert(now[i] == rows[i - kids.len()]);
            }
        }
    }

    /// Selects the first row with the path `wanted`, if a path is wanted and
    /// a row has it; else keeps the selected index, moved to the last row
    /// when the view is shorter.
    fn select_row(&mut self, wanted: Option<Vec<String>>)
        ensures
            final(self)@ == (AppView {
                selected: reselect(old(self)@.display, path_of(wanted), old(self)@.selected),
                ..old(self)@
            }),
            final(self).list == old(self).list,
            final(self)@.display.len() > 0 ==> final(self)@.selected < final(self)@.display.len(),
    {
        let found = match &wanted {
            Some(path) => find_row(&self.display, path),
            None => None,
        };
        match found {
            Some(i) => {
                proof {
                    first_row_is_row_of(rows_of(self.display@), path_of(wanted)->0, i as int);
                }
                self.selected_list_index = i;
            },
            None => {
                if self.display.len() > 0 && self.selected_list_index >= self.display.len() {
                    self.selected_list_index = self.display.len() - 1;
                }
            },
        }
    }

    /// Rebuilds the view from the store, the view root and the expanded
    /// paths, and selects the row with the path `custom_selected_item`, or
    /// the row with the path that was selected before when none is given.
    pub fn update_display(&mut self, custom_selected_item: Option<Vec<String>>)
        requires
            old(self).grounded(),
        ensures
            final(self).wf(),
            final(self)@ == old(self)@.refreshed(path_of(custom_selected_item)),
    {
        let previous: Option<Vec<String>> = if self.selected_list_index < self.display.len() {
            Some(copy_ids(&self.display[self.selected_list_index].id_path))
        } else {
            None
        };
        let wanted: Option<Vec<String>> = match custom_selected_item {
            Some(path) => Some(path),
            None => previous,
        };
        self.display = self.source_rows();
        self.expand_kept_rows();
        self.select_row(wanted);
    }

    /// Moves the selection one row down on `Down` and one row up on `Up`,
    /// around the ends. No other message scrolls.
    pub fn handle_scroll(&mut self, message: Message)
        requires
            old(self).wf(),
            message == Message::Down || message == Message::Up,
        ensures
            final(self).wf(),
            final(self)@ == old(self)@.scrolled(message == Message::Down),
    {
        if self.display.len() == 0 {
            return;
        }
        match message {
            Message::Down => {
                if self.selected_list_index == self.display.len() - 1 {
                    self.selected_list_index = 0;
                } else {
                    self.selected_list_index += 1;
                }
            },
            _ => {
                if self.selected_list_index == 0 {
                    self.selected_list_index = self.display.len() - 1;
                } else {
                    self.selected_list_index -= 1;
                }
            },
        }
    }

    /// The selected row, if the selection points at a row.
    pub fn get_current_display_item(&self) -> (row: Option<&ListEntry>)
        ensures
            match row {
                Some(entry) => self@.selected < self@.display.len() && entry@
                    == self@.display[self@.selected as int],
                None => self@.selected >= self@.display.len(),
            },
    {
        if self.selected_list_index < self.display.len() {
            Some(&self.display[self.selected_list_index])
        } else {
            None
        }
    }
}

} // verus!

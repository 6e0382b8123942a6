//! The flattened view as mathematics: which rows a store shows under a view
//! root and a set of expanded paths, what expanding and collapsing one row
//! does to the rows, and which row is selected after a rebuild.

use crate::model::StoreView;
use vstd::prelude::*;

verus! {

/// One row of the flattened view.
pub struct EntryView {
    /// The identifiers from the view root down to the row's item.
    pub id_path: Seq<Seq<char>>,
    /// Whether the row's children are shown below it.
    pub expanded: bool,
}

/// The row of `path` with its children hidden.
pub open spec fn collapsed(path: Seq<Seq<char>>) -> EntryView {
    EntryView { id_path: path, expanded: false }
}

/// The row of `path` with its children shown.
pub open spec fn opened(path: Seq<Seq<char>>) -> EntryView {
    EntryView { id_path: path, expanded: true }
}

/// The rows that expanding the row of `path` puts below it: one collapsed row
/// for each child of the item that `path` ends in. Each child is inserted
/// directly below its parent, so the last child comes first.
pub open spec fn kid_entries(store: StoreView, path: Seq<Seq<char>>) -> Seq<EntryView> {
    let kids = store.children_of(path.last());
    Seq::new(kids.len(), |j: int| collapsed(path.push(kids[kids.len() - 1 - j])))
}

/// The identifiers that the view starts from: the children of the item that
/// the view root ends in, or the top level when there is no view root.
pub open spec fn source_ids(store: StoreView, root: Option<Seq<Seq<char>>>) -> Seq<Seq<char>> {
    match root {
        Some(path) => store.children_of(path.last()),
        None => store.top_level,
    }
}

/// The path that every row of the view starts with.
pub open spec fn root_prefix(root: Option<Seq<Seq<char>>>) -> Seq<Seq<char>> {
    match root {
        Some(path) => path,
        None => Seq::empty(),
    }
}

/// The rows of the view before any is expanded: one collapsed row for each
/// source identifier, in order.
pub open spec fn root_entries(store: StoreView, root: Option<Seq<Seq<char>>>) -> Seq<EntryView> {
    let ids = source_ids(store, root);
    Seq::new(ids.len(), |j: int| collapsed(root_prefix(root).push(ids[j])))
}

/// The length of the longest of `paths`.
pub open spec fn longest(paths: Seq<Seq<Seq<char>>>) -> nat
    decreases paths.len(),
{
    if paths.len() == 0 {
        0
    } else if paths.last().len() > longest(paths.drop_last()) {
        paths.last().len()
    } else {
        longest(paths.drop_last())
    }
}

/// No path is longer than the longest.
pub proof fn longest_bounds(paths: Seq<Seq<Seq<char>>>, path: Seq<Seq<char>>)
    requires
        paths.contains(path),
    ensures
        path.len() <= longest(paths),
    decreases paths.len(),
{
    let k = choose|k: int| 0 <= k < paths.len() && paths[k] == path;
    if k < paths.len() - 1 {
        assert(paths.drop_last()[k] == path);
        longest_bounds(paths.drop_last(), path);
    }
}

/// The rows that the item at `path` contributes: its own row, and, when
/// `path` is among the expanded paths, below it the rows of its children,
/// last child first, each unfolded in the same way.
pub open spec fn unfold(
    store: StoreView,
    expanded: Seq<Seq<Seq<char>>>,
    path: Seq<Seq<char>>,
) -> Seq<EntryView>
    decreases longest(expanded) + 1 - path.len(), 0nat,
{
    if expanded.contains(path) {
        proof {
            longest_bounds(expanded, path);
        }
        seq![opened(path)] + unfold_kids(
            store,
            expanded,
            path,
            kid_entries(store, path).len(),
        )
    } else {
        seq![collapsed(path)]
    }
}

/// The rows that the first `n` of the rows below `path` contribute.
pub open spec fn unfold_kids(
    store: StoreView,
    expanded: Seq<Seq<Seq<char>>>,
    path: Seq<Seq<char>>,
    n: nat,
) -> Seq<EntryView>
    decreases longest(expanded) - path.len(), n + 1,
{
    if n == 0 || n > kid_entries(store, path).len() {
        Seq::empty()
    } else {
        unfold_kids(store, expanded, path, (n - 1) as nat) + unfold(
            store,
            expanded,
            kid_entries(store, path)[n - 1].id_path,
        )
    }
}

/// The rows that the given rows contribute, one after the other.
pub open spec fn unfold_all(
    store: StoreView,
    expanded: Seq<Seq<Seq<char>>>,
    entries: Seq<EntryView>,
) -> Seq<EntryView>
    decreases entries.len(),
{
    if entries.len() == 0 {
        Seq::empty()
    } else {
        unfold(store, expanded, entries.first().id_path) + unfold_all(
            store,
            expanded,
            entries.drop_first(),
        )
    }
}

/// The flattened view of a store under a view root and a set of expanded
/// paths.
pub open spec fn projection(
    store: StoreView,
    root: Option<Seq<Seq<char>>>,
    expanded: Seq<Seq<Seq<char>>>,
) -> Seq<EntryView> {
    unfold_all(store, expanded, root_entries(store, root))
}

/// Every item contributes at least its own row, which comes first.
pub proof fn unfold_starts_with_own_row(
    store: StoreView,
    expanded: Seq<Seq<Seq<char>>>,
    path: Seq<Seq<char>>,
)
    ensures
        unfold(store, expanded, path).len() >= 1,
        unfold(store, expanded, path)[0].id_path == path,
        unfold(store, expanded, path)[0].expanded == expanded.contains(path),
{
}

/// Rows contribute at least themselves.
pub proof fn unfold_all_len(
    store: StoreView,
    expanded: Seq<Seq<Seq<char>>>,
    entries: Seq<EntryView>,
)
    ensures
        unfold_all(store, expanded, entries).len() >= entries.len(),
    decreases entries.len(),
{
    if entries.len() > 0 {
        unfold_starts_with_own_row(store, expanded, entries.first().id_path);
        unfold_all_len(store, expanded, entries.drop_first());
    }
}

/// What rows contribute, one run after another, is what each run
/// contributes.
pub proof fn unfold_all_append(
    store: StoreView,
    expanded: Seq<Seq<Seq<char>>>,
    a: Seq<EntryView>,
    b: Seq<EntryView>,
)
    ensures
        unfold_all(store, expanded, a + b) == unfold_all(store, expanded, a) + unfold_all(
            store,
            expanded,
            b,
        ),
    decreases a.len(),
{
    if a.len() == 0 {
        assert(a + b =~= b);
        assert(unfold_all(store, expanded, a) + unfold_all(store, expanded, b) =~= unfold_all(
            store,
            expanded,
            b,
        ));
    } else {
        assert((a + b).first() == a.first());
        assert((a + b).drop_first() =~= a.drop_first() + b);
        unfold_all_append(store, expanded, a.drop_first(), b);
        assert(unfold_all(store, expanded, a + b) =~= unfold_all(store, expanded, a) + unfold_all(
            store,
            expanded,
            b,
        ));
    }
}

/// The rows below an item contribute, taken together, what they contribute
/// one after the other.
pub proof fn unfold_kids_is_unfold_all(
    store: StoreView,
    expanded: Seq<Seq<Seq<char>>>,
    path: Seq<Seq<char>>,
    n: nat,
)
    requires
        n <= kid_entries(store, path).len(),
    ensures
        unfold_kids(store, expanded, path, n) == unfold_all(
            store,
            expanded,
            kid_entries(store, path).take(n as int),
        ),
    decreases n,
{
    let kids = kid_entries(store, path);
    if n == 0 {
        assert(kids.take(0) =~= Seq::<EntryView>::empty());
    } else {
        unfold_kids_is_unfold_all(store, expanded, path, (n - 1) as nat);
        let last = seq![kids[n - 1]];
        assert(kids.take(n as int) =~= kids.take(n - 1) + last);
        unfold_all_append(store, expanded, kids.take(n - 1), last);
        assert(last.first() == kids[n - 1]);
        assert(last.drop_first() =~= Seq::<EntryView>::empty());
        assert(unfold_all(store, expanded, last.drop_first()) =~= Seq::<EntryView>::empty());
        assert(unfold_all(store, expanded, last) =~= unfold(store, expanded, kids[n - 1].id_path));
    }
}

/// An expanded item contributes its opened row and then what the rows below
/// it contribute; any other item contributes its collapsed row.
pub proof fn unfold_by_rows(
    store: StoreView,
    expanded: Seq<Seq<Seq<char>>>,
    path: Seq<Seq<char>>,
)
    ensures
        unfold(store, expanded, path) == if expanded.contains(path) {
            seq![opened(path)] + unfold_all(store, expanded, kid_entries(store, path))
        } else {
            seq![collapsed(path)]
        },
{
    let kids = kid_entries(store, path);
    unfold_kids_is_unfold_all(store, expanded, path, kids.len());
    assert(kids.take(kids.len() as int) =~= kids);
}

/// The rows after expanding row `i`: the row opened, and the rows of its
/// children directly below it.
pub open spec fn expand_at(store: StoreView, display: Seq<EntryView>, i: int) -> Seq<EntryView> {
    display.take(i) + seq![opened(display[i].id_path)] + kid_entries(store, display[i].id_path)
        + display.skip(i + 1)
}

/// The first position from `j` on whose row is not deeper than `depth`, or
/// the number of rows when every row from `j` on is deeper.
pub open spec fn run_end(display: Seq<EntryView>, depth: nat, j: int) -> int
    decreases display.len() - j,
{
    if j < 0 || j >= display.len() || display[j].id_path.len() <= depth {
        j
    } else {
        run_end(display, depth, j + 1)
    }
}

/// The rows after collapsing row `i`: the row closed, and the run of deeper
/// rows that follows it taken out.
pub open spec fn collapse_at(display: Seq<EntryView>, i: int) -> Seq<EntryView> {
    display.take(i) + seq![collapsed(display[i].id_path)] + display.skip(
        run_end(display, display[i].id_path.len(), i + 1),
    )
}

/// Where the run of deeper rows ends: not before its start, not after the
/// last row, with every row of the run deeper than `depth` and the row after
/// it, if there is one, not deeper.
pub proof fn run_end_bounds(display: Seq<EntryView>, depth: nat, j: int)
    requires
        0 <= j <= display.len(),
    ensures
        j <= run_end(display, depth, j) <= display.len(),
        forall|k: int| j <= k < run_end(display, depth, j) ==> display[k].id_path.len() > depth,
        run_end(display, depth, j) < display.len() ==> display[run_end(
            display,
            depth,
            j,
        )].id_path.len() <= depth,
    decreases display.len() - j,
{
    if j < display.len() && display[j].id_path.len() > depth {
        run_end_bounds(display, depth, j + 1);
    }
}

/// The index that is selected in a view of `len` rows when `index` was
/// selected before: the same, or the last row when the view is shorter.
pub open spec fn clamp_index(index: nat, len: nat) -> nat {
    if len > 0 && index >= len {
        (len - 1) as nat
    } else {
        index
    }
}

/// Whether `i` is the first row of `display` with the path `path`.
pub open spec fn first_row_at(display: Seq<EntryView>, path: Seq<Seq<char>>, i: int) -> bool {
    &&& 0 <= i < display.len()
    &&& display[i].id_path == path
    &&& forall|j: int| 0 <= j < i ==> display[j].id_path != path
}

/// Whether some row of `display` has the path `path`.
pub open spec fn shows(display: Seq<EntryView>, path: Seq<Seq<char>>) -> bool {
    exists|i: int| 0 <= i < display.len() && (#[trigger] display[i]).id_path == path
}

/// The position of the first row of `display` with the path `path`.
pub open spec fn row_of(display: Seq<EntryView>, path: Seq<Seq<char>>) -> int {
    choose|i: int| first_row_at(display, path, i)
}

/// The row selected after a rebuild: the first row with the wanted path if
/// there is a wanted path and a row has it, else the row at the index
/// selected before, or the last row when the view has become shorter.
pub open spec fn reselect(
    display: Seq<EntryView>,
    wanted: Option<Seq<Seq<char>>>,
    before: nat,
) -> nat {
    match wanted {
        Some(path) if shows(display, path) => row_of(display, path) as nat,
        _ => clamp_index(before, display.len()),
    }
}

/// One step of the walk that rebuilds the view. Up to row `at` the rows are
/// final and from `at` on they are still collapsed; expanding row `at` if
/// its path is among the expanded paths, and leaving it otherwise, makes the
/// rows final up to `at + 1` without changing what the whole contributes.
pub proof fn walk_step(
    store: StoreView,
    expanded: Seq<Seq<Seq<char>>>,
    rows: Seq<EntryView>,
    at: int,
)
    requires
        0 <= at < rows.len(),
        !rows[at].expanded,
    ensures
        ({
            let next = if expanded.contains(rows[at].id_path) {
                expand_at(store, rows, at)
            } else {
                rows
            };
            rows.take(at) + unfold_all(store, expanded, rows.skip(at)) == next.take(at + 1)
                + unfold_all(store, expanded, next.skip(at + 1))
        }),
{
    let path = rows[at].id_path;
    let rest = rows.skip(at + 1);
    assert(rows.skip(at).first() == rows[at]);
    assert(rows.skip(at).drop_first() =~= rest);
    unfold_by_rows(store, expanded, path);
    if expanded.contains(path) {
        let kids = kid_entries(store, path);
        let next = expand_at(store, rows, at);
        assert(next.take(at + 1) =~= rows.take(at) + seq![opened(path)]);
        assert(next.skip(at + 1) =~= kids + rest);
        unfold_all_append(store, expanded, kids, rest);
        assert(rows.take(at) + unfold_all(store, expanded, rows.skip(at)) =~= next.take(at + 1)
            + unfold_all(store, expanded, next.skip(at + 1)));
    } else {
        assert(rows[at] == collapsed(path));
        assert(rows.take(at + 1) =~= rows.take(at) + seq![collapsed(path)]);
        assert(rows.take(at) + unfold_all(store, expanded, rows.skip(at)) =~= rows.take(at + 1)
            + unfold_all(store, expanded, rest));
    }
}

/// The first row with a path is the one row that `row_of` names.
pub proof fn first_row_is_row_of(display: Seq<EntryView>, path: Seq<Seq<char>>, i: int)
    requires
        first_row_at(display, path, i),
    ensures
        shows(display, path),
        row_of(display, path) == i,
{
    assert(display[i].id_path == path);
    let j = row_of(display, path);
    assert(first_row_at(display, path, j));
    if j < i {
        assert(display[j].id_path != path);
    }
    if i < j {
        assert(display[i].id_path != path);
    }
}

/// Whether no collapsed row is followed by a deeper row: the rows below a
/// row are shown only while the row is expanded.
pub open spec fn tidy(rows: Seq<EntryView>) -> bool {
    forall|i: int|
        0 <= i < rows.len() - 1 && !(#[trigger] rows[i]).expanded ==> rows[i + 1].id_path.len()
            <= rows[i].id_path.len()
}

/// Expanding a collapsed row keeps the rows tidy.
pub proof fn expand_keeps_tidy(store: StoreView, rows: Seq<EntryView>, at: int)
    requires
        tidy(rows),
        0 <= at < rows.len(),
        !rows[at].expanded,
    ensures
        tidy(expand_at(store, rows, at)),
{
    let after = expand_at(store, rows, at);
    let kids = kid_entries(store, rows[at].id_path);
    assert forall|i: int| 0 <= i < after.len() - 1 && !(#[trigger] after[i]).expanded implies after[i
        + 1].id_path.len() <= after[i].id_path.len() by {
        if i < at {
            assert(after[i] == rows[i]);
            if i + 1 < at {
                assert(after[i + 1] == rows[i + 1]);
            } else {
                assert(after[i + 1].id_path == rows[i + 1].id_path);
            }
        } else if i == at {
        } else if i < at + kids.len() {
            assert(after[i] == kids[i - at - 1]);
            assert(after[i + 1] == kids[i - at]);
        } else if i == at + kids.len() {
            assert(after[i] == kids[i - at - 1]);
            assert(after[i + 1] == rows[at + 1]);
            assert(!rows[at].expanded);
        } else {
            assert(after[i] == rows[i - kids.len()]);
            assert(after[i + 1] == rows[i - kids.len() + 1]);
        }
    }
}

/// Collapsing a row keeps the rows tidy.
pub proof fn collapse_keeps_tidy(rows: Seq<EntryView>, at: int)
    requires
        tidy(rows),
        0 <= at < rows.len(),
    ensures
        tidy(collapse_at(rows, at)),
{
    let after = collapse_at(rows, at);
    let depth = rows[at].id_path.len();
    let end = run_end(rows, depth, at + 1);
    run_end_bounds(rows, depth, at + 1);
    assert forall|i: int| 0 <= i < after.len() - 1 && !(#[trigger] after[i]).expanded implies after[i
        + 1].id_path.len() <= after[i].id_path.len() by {
        if i < at {
            assert(after[i] == rows[i]);
            if i + 1 < at {
                assert(after[i + 1] == rows[i + 1]);
            } else {
                assert(after[i + 1].id_path == rows[i + 1].id_path);
            }
        } else if i == at {
            assert(after[i + 1] == rows[end]);
        } else {
            assert(after[i] == rows[end + (i - at - 1)]);
            assert(after[i + 1] == rows[end + (i - at - 1) + 1]);
        }
    }
}

/// Expanding a collapsed row of tidy rows and collapsing it again gives the
/// rows back as they were, in number and in content.
pub proof fn expand_then_collapse_restores(store: StoreView, rows: Seq<EntryView>, at: int)
    requires
        tidy(rows),
        0 <= at < rows.len(),
        !rows[at].expanded,
    ensures
        collapse_at(expand_at(store, rows, at), at) == rows,
{
    let path = rows[at].id_path;
    let kids = kid_entries(store, path);
    let wide = expand_at(store, rows, at);
    assert(wide[at] == opened(path));
    assert forall|k: int| at + 1 <= k < at + 1 + kids.len() implies wide[k].id_path.len()
        > path.len() by {
        assert(wide[k] == kids[k - at - 1]);
    }
    if at + 1 < rows.len() {
        assert(wide[at + 1 + kids.len()] == rows[at + 1]);
    }
    run_end_from(wide, path.len(), at + 1, at + 1 + kids.len());
    assert(collapse_at(wide, at) =~= rows);
}

/// When every row from `j` up to `end` is deeper than `depth` and the row at
/// `end`, if there is one, is not, the run of deeper rows from `j` ends at
/// `end`.
pub proof fn run_end_from(display: Seq<EntryView>, depth: nat, j: int, end: int)
    requires
        0 <= j <= end <= display.len(),
        forall|k: int| j <= k < end ==> display[k].id_path.len() > depth,
        end < display.len() ==> display[end].id_path.len() <= depth,
    ensures
        run_end(display, depth, j) == end,
    decreases end - j,
{
    if j < end {
        run_end_from(display, depth, j + 1, end);
    }
}

/// Whether `path` continues `base` along edges of the store: it begins with
/// `base`, and each identifier behind `base` is a child of the one before
/// it.
pub open spec fn continues(store: StoreView, base: Seq<Seq<char>>, path: Seq<Seq<char>>) -> bool {
    &&& path.len() >= base.len()
    &&& path.take(base.len() as int) == base
    &&& forall|j: int|
        base.len() <= j < path.len() && j > 0 ==> store.children_of(path[j - 1]).contains(
            #[trigger] path[j],
        )
}

/// Whether `path` leads from the view root into the store along its edges:
/// it begins with the path of the view root, goes on with one of the
/// identifiers that the view starts from, and names from there on a child of
/// the identifier before.
pub open spec fn follows_edges(
    store: StoreView,
    root: Option<Seq<Seq<char>>>,
    path: Seq<Seq<char>>,
) -> bool {
    let base = root_prefix(root);
    &&& path.len() > base.len()
    &&& path.take(base.len() as int) == base
    &&& source_ids(store, root).contains(path[base.len() as int])
    &&& forall|j: int|
        base.len() < j < path.len() ==> store.children_of(path[j - 1]).contains(#[trigger] path[j])
}

/// Every row that the item at `path` contributes continues `path` along
/// edges of the store.
pub proof fn unfold_continues(
    store: StoreView,
    expanded: Seq<Seq<Seq<char>>>,
    path: Seq<Seq<char>>,
)
    requires
        path.len() > 0,
    ensures
        forall|k: int|
            0 <= k < unfold(store, expanded, path).len() ==> continues(
                store,
                path,
                (#[trigger] unfold(store, expanded, path)[k]).id_path,
            ),
    decreases longest(expanded) + 1 - path.len(), 0nat,
{
    assert(path.take(path.len() as int) =~= path);
    if expanded.contains(path) {
        longest_bounds(expanded, path);
        let n = kid_entries(store, path).len();
        unfold_kids_continue(store, expanded, path, n);
        let below = unfold_kids(store, expanded, path, n);
        assert forall|k: int| 0 <= k < unfold(store, expanded, path).len() implies continues(
            store,
            path,
            (#[trigger] unfold(store, expanded, path)[k]).id_path,
        ) by {
            if k > 0 {
                assert(unfold(store, expanded, path)[k] == below[k - 1]);
            }
        }
    }
}

/// Every row that the first `n` of the rows below `path` contribute
/// continues `path` along edges of the store.
pub proof fn unfold_kids_continue(
    store: StoreView,
    expanded: Seq<Seq<Seq<char>>>,
    path: Seq<Seq<char>>,
    n: nat,
)
    requires
        path.len() > 0,
    ensures
        forall|k: int|
            0 <= k < unfold_kids(store, expanded, path, n).len() ==> continues(
                store,
                path,
                (#[trigger] unfold_kids(store, expanded, path, n)[k]).id_path,
            ),
    decreases longest(expanded) - path.len(), n + 1,
{
    if n > 0 && n <= kid_entries(store, path).len() {
        let kids = store.children_of(path.last());
        let kid = kids[kids.len() - 1 - (n - 1)];
        let kid_path = kid_entries(store, path)[n - 1].id_path;
        assert(kid_path == path.push(kid));
        assert(kids.contains(kid));
        unfold_kids_continue(store, expanded, path, (n - 1) as nat);
        unfold_continues(store, expanded, kid_path);
        let before = unfold_kids(store, expanded, path, (n - 1) as nat);
        let last = unfold(store, expanded, kid_path);
        assert forall|k: int|
            0 <= k < unfold_kids(store, expanded, path, n).len() implies continues(
            store,
            path,
            (#[trigger] unfold_kids(store, expanded, path, n)[k]).id_path,
        ) by {
            let row = unfold_kids(store, expanded, path, n)[k];
            if k < before.len() {
                assert(row == before[k]);
            } else {
                assert(row == last[k - before.len()]);
                let q = row.id_path;
                assert(continues(store, kid_path, q));
                assert(q.take(path.len() as int) =~= kid_path.take(path.len() as int)) by {
                    assert(q.take(kid_path.len() as int) == kid_path);
                    assert forall|j: int| 0 <= j < path.len() implies q.take(path.len() as int)[j]
                        == kid_path.take(path.len() as int)[j] by {
                        assert(q.take(kid_path.len() as int)[j] == kid_path[j]);
                    }
                }
                assert(kid_path.take(path.len() as int) =~= path);
                assert forall|j: int| path.len() <= j < q.len() && j > 0 implies store.children_of(
                    q[j - 1],
                ).contains(#[trigger] q[j]) by {
                    if j == path.len() {
                        assert(q.take(kid_path.len() as int)[j] == kid_path[j]);
                        assert(q.take(kid_path.len() as int)[j - 1] == kid_path[j - 1]);
                        assert(q[j] == kid);
                        assert(q[j - 1] == path.last());
                    }
                }
            }
        }
    }
}

/// Every row that rows contribute is contributed by one of them.
pub proof fn unfold_all_origin(
    store: StoreView,
    expanded: Seq<Seq<Seq<char>>>,
    entries: Seq<EntryView>,
    k: int,
) -> (origin: (int, int))
    requires
        0 <= k < unfold_all(store, expanded, entries).len(),
    ensures
        0 <= origin.0 < entries.len(),
        0 <= origin.1 < unfold(store, expanded, entries[origin.0].id_path).len(),
        unfold_all(store, expanded, entries)[k] == unfold(
            store,
            expanded,
            entries[origin.0].id_path,
        )[origin.1],
    decreases entries.len(),
{
    let first = unfold(store, expanded, entries.first().id_path);
    if k < first.len() {
        (0, k)
    } else {
        let rest = unfold_all_origin(store, expanded, entries.drop_first(), k - first.len());
        assert(entries.drop_first()[rest.0] == entries[rest.0 + 1]);
        (rest.0 + 1, rest.1)
    }
}

/// Every row of the flattened view leads from the view root into the store
/// along its edges.
pub proof fn rows_follow_edges(
    store: StoreView,
    root: Option<Seq<Seq<char>>>,
    expanded: Seq<Seq<Seq<char>>>,
)
    ensures
        forall|k: int|
            0 <= k < projection(store, root, expanded).len() ==> follows_edges(
                store,
                root,
                (#[trigger] projection(store, root, expanded)[k]).id_path,
            ),
{
    let base = root_prefix(root);
    let ids = source_ids(store, root);
    let roots = root_entries(store, root);
    assert forall|k: int| 0 <= k < projection(store, root, expanded).len() implies follows_edges(
        store,
        root,
        (#[trigger] projection(store, root, expanded)[k]).id_path,
    ) by {
        let origin = unfold_all_origin(store, expanded, roots, k);
        let start = roots[origin.0].id_path;
        assert(start == base.push(ids[origin.0]));
        unfold_continues(store, expanded, start);
        let q = projection(store, root, expanded)[k].id_path;
        assert(q == unfold(store, expanded, start)[origin.1].id_path);
        assert(continues(store, start, q));
        assert(q.take(start.len() as int) == start);
        assert(q[base.len() as int] == ids[origin.0]) by {
            assert(q.take(start.len() as int)[base.len() as int] == start[base.len() as int]);
        }
        assert(ids.contains(ids[origin.0]));
        assert(q.take(base.len() as int) =~= base) by {
            assert forall|j: int| 0 <= j < base.len() implies q.take(base.len() as int)[j]
                == base[j] by {
                assert(q.take(start.len() as int)[j] == start[j]);
            }
        }
    }
}

/// Whether a row with the path `next` can follow a row with the path `path`
/// in a view: it lies at most one level deeper, and above its own last
/// identifier it goes the way that `path` goes.
pub open spec fn hangs_after(path: Seq<Seq<char>>, next: Seq<Seq<char>>) -> bool {
    &&& 1 <= next.len() <= path.len() + 1
    &&& next.take(next.len() - 1) == path.take(next.len() - 1)
}

/// Whether every row can follow the row before it: the rows list the shown
/// part of a tree from the top down, each row below its parent.
pub open spec fn chained(rows: Seq<EntryView>) -> bool {
    forall|i: int|
        0 <= i < rows.len() - 1 ==> hangs_after((#[trigger] rows[i]).id_path, rows[i + 1].id_path)
}

/// In chained rows, every row of the run of deeper rows that follows row
/// `at` begins with the path of row `at`, and the row that ends the run, if
/// there is one, can follow row `at`.
pub proof fn run_hangs_below(rows: Seq<EntryView>, at: int, k: int)
    requires
        chained(rows),
        0 <= at < k < rows.len(),
        forall|j: int| at < j < k ==> rows[j].id_path.len() > rows[at].id_path.len(),
    ensures
        rows[k].id_path.len() > rows[at].id_path.len() ==> rows[k].id_path.take(
            rows[at].id_path.len() as int,
        ) == rows[at].id_path,
        rows[k].id_path.len() <= rows[at].id_path.len() ==> hangs_after(
            rows[at].id_path,
            rows[k].id_path,
        ),
    decreases k - at,
{
    let top = rows[at].id_path;
    let q = rows[k].id_path;
    let p = rows[k - 1].id_path;
    assert(hangs_after(rows[k - 1].id_path, rows[k].id_path));
    if k == at + 1 {
        if q.len() > top.len() {
            assert(q.take(q.len() - 1) == top.take(q.len() - 1));
            assert(top.take(top.len() as int) =~= top);
        }
    } else {
        run_hangs_below(rows, at, k - 1);
        assert(p.len() > top.len());
        assert(p.take(top.len() as int) == top);
        let m = if q.len() > top.len() {
            top.len() as int
        } else {
            q.len() - 1
        };
        assert forall|j: int| 0 <= j < m implies #[trigger] q[j] == top[j] by {
            assert(q.take(q.len() - 1)[j] == p.take(q.len() - 1)[j]);
            assert(p.take(top.len() as int)[j] == top[j]);
        }
        assert(q.take(m) =~= top.take(m));
        assert(top.take(top.len() as int) =~= top);
    }
}

/// Expanding a collapsed row of tidy, chained rows keeps the rows chained.
pub proof fn expand_keeps_chained(store: StoreView, rows: Seq<EntryView>, at: int)
    requires
        chained(rows),
        tidy(rows),
        0 <= at < rows.len(),
        !rows[at].expanded,
        rows[at].id_path.len() >= 1,
    ensures
        chained(expand_at(store, rows, at)),
{
    let after = expand_at(store, rows, at);
    let path = rows[at].id_path;
    let kids = kid_entries(store, path);
    let ids = store.children_of(path.last());
    assert forall|i: int| 0 <= i < after.len() - 1 implies hangs_after(
        (#[trigger] after[i]).id_path,
        after[i + 1].id_path,
    ) by {
        if i < at {
            assert(after[i] == rows[i]);
            assert(after[i + 1].id_path == rows[i + 1].id_path);
            assert(hangs_after(rows[i].id_path, rows[i + 1].id_path));
        } else if i < at + kids.len() {
            let kid = path.push(ids[ids.len() - 1 - (i - at)]);
            assert(after[i + 1] == kids[i - at]);
            assert(after[i + 1].id_path == kid);
            assert(kid.take(kid.len() - 1) =~= path);
            if i == at {
                assert(after[i].id_path == path);
                assert(path.take(path.len() as int) =~= path);
            } else {
                assert(after[i] == kids[i - at - 1]);
                assert(after[i].id_path.take(path.len() as int) =~= path);
            }
        } else if i == at + kids.len() {
            let q = rows[at + 1].id_path;
            assert(after[i + 1] == rows[at + 1]);
            assert(hangs_after(rows[at].id_path, rows[at + 1].id_path));
            assert(q.len() <= path.len());
            if kids.len() > 0 {
                assert(after[i] == kids[i - at - 1]);
                let kid = after[i].id_path;
                assert(kid.take(path.len() as int) =~= path);
                assert(kid.take(q.len() - 1) =~= path.take(q.len() - 1));
            } else {
                assert(after[i].id_path == path);
            }
        } else {
            assert(after[i] == rows[i - kids.len()]);
            assert(after[i + 1] == rows[i - kids.len() + 1]);
            assert(hangs_after(rows[i - kids.len()].id_path, rows[i - kids.len() + 1].id_path));
        }
    }
}

/// Collapsing a row of chained rows keeps the rows chained.
pub proof fn collapse_keeps_chained(rows: Seq<EntryView>, at: int)
    requires
        chained(rows),
        0 <= at < rows.len(),
    ensures
        chained(collapse_at(rows, at)),
{
    let after = collapse_at(rows, at);
    let depth = rows[at].id_path.len();
    let end = run_end(rows, depth, at + 1);
    run_end_bounds(rows, depth, at + 1);
    assert forall|i: int| 0 <= i < after.len() - 1 implies hangs_after(
        (#[trigger] after[i]).id_path,
        after[i + 1].id_path,
    ) by {
        if i < at {
            assert(after[i] == rows[i]);
            assert(after[i + 1].id_path == rows[i + 1].id_path);
            assert(hangs_after(rows[i].id_path, rows[i + 1].id_path));
        } else if i == at {
            assert(after[i].id_path == rows[at].id_path);
            assert(after[i + 1] == rows[end]);
            run_hangs_below(rows, at, end);
        } else {
            assert(after[i] == rows[end + (i - at - 1)]);
            assert(after[i + 1] == rows[end + (i - at - 1) + 1]);
            assert(hangs_after(
                rows[end + (i - at - 1)].id_path,
                rows[end + (i - at - 1) + 1].id_path,
            ));
        }
    }
}

/// The rows that collapsing row `at` of chained rows takes out are rows
/// below it: each has a path that begins with the path of row `at` and is
/// longer.
pub proof fn collapse_takes_out_rows_below(rows: Seq<EntryView>, at: int)
    requires
        chained(rows),
        0 <= at < rows.len(),
    ensures
        at < run_end(rows, rows[at].id_path.len(), at + 1) <= rows.len(),
        forall|k: int|
            at < k < run_end(rows, rows[at].id_path.len(), at + 1) ==> (#[trigger] rows[k]).id_path.len()
                > rows[at].id_path.len() && rows[k].id_path.take(rows[at].id_path.len() as int)
                == rows[at].id_path,
{
    let depth = rows[at].id_path.len();
    let end = run_end(rows, depth, at + 1);
    run_end_bounds(rows, depth, at + 1);
    assert forall|k: int| at < k < end implies (#[trigger] rows[k]).id_path.len() > depth
        && rows[k].id_path.take(depth as int) == rows[at].id_path by {
        run_hangs_below(rows, at, k);
    }
}

} // verus!

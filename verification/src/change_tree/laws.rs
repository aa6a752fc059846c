//! What holds of the rows of a tree as a whole.

use vstd::multiset::Multiset;
use vstd::prelude::*;

use crate::change_tree::{
    after_first, compact, dir_names, dir_paths, file_rows, first_dirs, is_expanded, joined,
    lemma_ordered_holds, name_less, ordered, ordered_files, place, place_file, row_depth, single,
    tree_items, under, walk, walk_dir, walk_dirs, weight, ItemView, RowView,
};
use crate::text::{dedupe, law_dedupe, split};

verus! {

// ---- Collapsing hides only what is below ----

/// `rows` without the rows at its start that are deeper than `depth`.
pub open spec fn skip_deeper(rows: Seq<RowView>, depth: int) -> Seq<RowView>
    decreases rows.len(),
{
    if rows.len() > 0 && row_depth(rows[0]) > depth {
        skip_deeper(rows.subrange(1, rows.len() as int), depth)
    } else {
        rows
    }
}

/// Fully expanded rows with every directory that `collapsed` holds marked as
/// collapsed, and the deeper rows right after it left out.
pub open spec fn prune(rows: Seq<RowView>, collapsed: Set<Seq<char>>) -> Seq<RowView>
    decreases rows.len(),
    via prune_shrinks
{
    if rows.len() == 0 {
        Seq::empty()
    } else {
        let rest = rows.subrange(1, rows.len() as int);
        match rows[0] {
            RowView::Directory { path, name, depth, .. } => {
                let expanded = is_expanded(path, collapsed);
                let row = RowView::Directory { path, name, depth, expanded };
                if expanded {
                    seq![row] + prune(rest, collapsed)
                } else {
                    seq![row] + prune(skip_deeper(rest, depth), collapsed)
                }
            },
            RowView::File { .. } => seq![rows[0]] + prune(rest, collapsed),
        }
    }
}

#[via_fn]
proof fn prune_shrinks(rows: Seq<RowView>, collapsed: Set<Seq<char>>) {
    if rows.len() > 0 {
        let rest = rows.subrange(1, rows.len() as int);
        lemma_skip_len(rest, row_depth(rows[0]));
    }
}

proof fn lemma_skip_len(rows: Seq<RowView>, depth: int)
    ensures
        skip_deeper(rows, depth).len() <= rows.len(),
    decreases rows.len(),
{
    if rows.len() > 0 && row_depth(rows[0]) > depth {
        lemma_skip_len(rows.subrange(1, rows.len() as int), depth);
    }
}

/// Whether every row is at least `depth` deep.
pub open spec fn all_from(rows: Seq<RowView>, depth: int) -> bool {
    forall|i: int| 0 <= i < rows.len() ==> row_depth(#[trigger] rows[i]) >= depth
}

/// Whether `rows` is empty or starts no deeper than `depth`.
pub open spec fn starts_by(rows: Seq<RowView>, depth: int) -> bool {
    rows.len() > 0 ==> row_depth(rows[0]) <= depth
}

proof fn lemma_skip_all(rows: Seq<RowView>, depth: int)
    requires
        all_from(rows, depth + 1),
    ensures
        skip_deeper(rows, depth) == Seq::<RowView>::empty(),
    decreases rows.len(),
{
    if rows.len() > 0 {
        let rest = rows.subrange(1, rows.len() as int);
        assert forall|i: int| 0 <= i < rest.len() implies row_depth(#[trigger] rest[i]) >= depth + 1 by {
            assert(rest[i] == rows[i + 1]);
        }
        lemma_skip_all(rest, depth);
    } else {
        assert(rows =~= Seq::empty());
    }
}

proof fn lemma_skip_add(a: Seq<RowView>, b: Seq<RowView>, depth: int)
    requires
        starts_by(b, depth),
    ensures
        skip_deeper(a + b, depth) == skip_deeper(a, depth) + b,
    decreases a.len(),
{
    if a.len() == 0 {
        assert(a + b =~= b);
        assert(a + b =~= skip_deeper(a, depth) + b);
    } else if row_depth(a[0]) > depth {
        let rest = a.subrange(1, a.len() as int);
        lemma_skip_add(rest, b, depth);
        assert((a + b).subrange(1, (a + b).len() as int) =~= rest + b);
    }
}

proof fn lemma_skip_from(rows: Seq<RowView>, depth: int, low: int)
    requires
        all_from(rows, low),
    ensures
        all_from(skip_deeper(rows, depth), low),
    decreases rows.len(),
{
    if rows.len() > 0 && row_depth(rows[0]) > depth {
        let rest = rows.subrange(1, rows.len() as int);
        assert forall|i: int| 0 <= i < rest.len() implies row_depth(#[trigger] rest[i]) >= low by {
            assert(rest[i] == rows[i + 1]);
        }
        lemma_skip_from(rest, depth, low);
    }
}

/// Pruning two blocks of rows is pruning each, where the second starts no
/// deeper than anything in the first.
proof fn lemma_prune_add(a: Seq<RowView>, b: Seq<RowView>, collapsed: Set<Seq<char>>, low: int)
    requires
        all_from(a, low),
        starts_by(b, low),
    ensures
        prune(a + b, collapsed) == prune(a, collapsed) + prune(b, collapsed),
    decreases a.len(),
{
    if a.len() == 0 {
        assert(a + b =~= b);
        assert(prune(a + b, collapsed) =~= prune(a, collapsed) + prune(b, collapsed));
    } else {
        let rest = a.subrange(1, a.len() as int);
        assert forall|i: int| 0 <= i < rest.len() implies row_depth(#[trigger] rest[i]) >= low by {
            assert(rest[i] == a[i + 1]);
        }
        assert((a + b).subrange(1, (a + b).len() as int) =~= rest + b);
        assert((a + b)[0] == a[0]);
        match a[0] {
            RowView::Directory { path, name, depth, .. } => {
                let expanded = is_expanded(path, collapsed);
                let row = RowView::Directory { path, name, depth, expanded };
                if expanded {
                    lemma_prune_add(rest, b, collapsed, low);
                    assert(seq![row] + (prune(rest, collapsed) + prune(b, collapsed)) =~= (seq![row]
                        + prune(rest, collapsed)) + prune(b, collapsed));
                } else {
                    assert(row_depth(a[0]) >= low);
                    lemma_skip_add(rest, b, depth);
                    lemma_skip_len(rest, depth);
                    lemma_skip_from(rest, depth, low);
                    let kept = skip_deeper(rest, depth);
                    lemma_prune_add(kept, b, collapsed, low);
                    assert(seq![row] + (prune(kept, collapsed) + prune(b, collapsed)) =~= (seq![row]
                        + prune(kept, collapsed)) + prune(b, collapsed));
                }
            },
            RowView::File { .. } => {
                lemma_prune_add(rest, b, collapsed, low);
                assert(seq![a[0]] + (prune(rest, collapsed) + prune(b, collapsed)) =~= (seq![a[0]]
                    + prune(rest, collapsed)) + prune(b, collapsed));
            },
        }
    }
}

pub proof fn lemma_walk_from(
    items: Seq<ItemView>,
    parent: Seq<char>,
    depth: int,
    collapsed: Set<Seq<char>>,
)
    ensures
        all_from(walk(items, parent, depth, collapsed), depth),
    decreases weight(items), 1nat, 0nat,
{
    lemma_walk_dirs_from(dir_names(items), items, parent, depth, collapsed);
}

proof fn lemma_walk_dirs_from(
    names: Seq<Seq<char>>,
    items: Seq<ItemView>,
    parent: Seq<char>,
    depth: int,
    collapsed: Set<Seq<char>>,
)
    ensures
        all_from(walk_dirs(names, items, parent, depth, collapsed), depth),
    decreases weight(items), 0nat, names.len(),
{
    if names.len() > 0 {
        lemma_walk_dirs_from(names.drop_last(), items, parent, depth, collapsed);
        lemma_walk_dir_from(names.last(), items, parent, depth, collapsed);
    }
}

proof fn lemma_walk_dir_from(
    first: Seq<char>,
    items: Seq<ItemView>,
    parent: Seq<char>,
    depth: int,
    collapsed: Set<Seq<char>>,
)
    ensures
        all_from(walk_dir(first, items, parent, depth, collapsed), depth),
        row_depth(walk_dir(first, items, parent, depth, collapsed)[0]) == depth,
        walk_dir(first, items, parent, depth, collapsed).len() >= 1,
    decreases weight(items), 0nat, 0nat,
{
    let (name, inner) = compact(first, under(items, first));
    let path = joined(parent, name);
    if is_expanded(path, collapsed) && weight(inner) < weight(items) {
        lemma_walk_from(inner, path, depth + 1, collapsed);
    }
}

/// Collapsing directories hides only what is below them: the visible rows are
/// the fully expanded rows, pruned.
pub proof fn law_collapsing_prunes(
    items: Seq<ItemView>,
    parent: Seq<char>,
    depth: int,
    collapsed: Set<Seq<char>>,
)
    ensures
        walk(items, parent, depth, collapsed) == prune(
            walk(items, parent, depth, Set::empty()),
            collapsed,
        ),
    decreases weight(items), 1nat, 0nat,
{
    let names = dir_names(items);
    let files = file_rows(ordered_files(items), depth);
    let full = walk_dirs(names, items, parent, depth, Set::empty());
    lemma_prune_dirs(names, items, parent, depth, collapsed);
    lemma_walk_dirs_from(names, items, parent, depth, Set::empty());
    lemma_prune_add(full, files, collapsed, depth);
    lemma_prune_files(files, collapsed);
}

proof fn lemma_prune_files(rows: Seq<RowView>, collapsed: Set<Seq<char>>)
    requires
        forall|i: int| 0 <= i < rows.len() ==> (#[trigger] rows[i]) is File,
    ensures
        prune(rows, collapsed) == rows,
    decreases rows.len(),
{
    if rows.len() > 0 {
        let rest = rows.subrange(1, rows.len() as int);
        assert forall|i: int| 0 <= i < rest.len() implies (#[trigger] rest[i]) is File by {
            assert(rest[i] == rows[i + 1]);
        }
        lemma_prune_files(rest, collapsed);
        assert(seq![rows[0]] + rest =~= rows);
    } else {
        assert(rows =~= Seq::empty());
    }
}

proof fn lemma_prune_dirs(
    names: Seq<Seq<char>>,
    items: Seq<ItemView>,
    parent: Seq<char>,
    depth: int,
    collapsed: Set<Seq<char>>,
)
    ensures
        walk_dirs(names, items, parent, depth, collapsed) == prune(
            walk_dirs(names, items, parent, depth, Set::empty()),
            collapsed,
        ),
    decreases weight(items), 0nat, names.len(),
{
    if names.len() > 0 {
        let prev = names.drop_last();
        lemma_prune_dirs(prev, items, parent, depth, collapsed);
        lemma_prune_dir(names.last(), items, parent, depth, collapsed);
        lemma_walk_dirs_from(prev, items, parent, depth, Set::empty());
        lemma_walk_dir_from(names.last(), items, parent, depth, Set::empty());
        lemma_prune_add(
            walk_dirs(prev, items, parent, depth, Set::empty()),
            walk_dir(names.last(), items, parent, depth, Set::empty()),
            collapsed,
            depth,
        );
    } else {
        assert(walk_dirs(names, items, parent, depth, collapsed) =~= Seq::empty());
    }
}

proof fn lemma_prune_dir(
    first: Seq<char>,
    items: Seq<ItemView>,
    parent: Seq<char>,
    depth: int,
    collapsed: Set<Seq<char>>,
)
    ensures
        walk_dir(first, items, parent, depth, collapsed) == prune(
            walk_dir(first, items, parent, depth, Set::empty()),
            collapsed,
        ),
    decreases weight(items), 0nat, 0nat,
{
    let (name, inner) = compact(first, under(items, first));
    let path = joined(parent, name);
    let expanded = is_expanded(path, collapsed);
    let open_row = RowView::Directory { path, name, depth, expanded: true };
    let row = RowView::Directory { path, name, depth, expanded };
    assert(is_expanded(path, Set::empty()));
    let full = walk_dir(first, items, parent, depth, Set::empty());
    let rest = full.subrange(1, full.len() as int);
    if weight(inner) < weight(items) {
        let below = walk(inner, path, depth + 1, Set::empty());
        assert(full == seq![open_row] + below);
        assert(rest =~= below);
        law_collapsing_prunes(inner, path, depth + 1, collapsed);
        lemma_walk_from(inner, path, depth + 1, Set::empty());
        lemma_skip_all(below, depth);
        assert(prune(Seq::<RowView>::empty(), collapsed) =~= Seq::empty());
        assert(seq![row] + Seq::<RowView>::empty() =~= seq![row]);
    } else {
        assert(full == seq![open_row]);
        assert(rest =~= Seq::empty());
        assert(skip_deeper(rest, depth) =~= Seq::empty());
        assert(prune(rest, collapsed) =~= Seq::empty());
        assert(seq![row] + Seq::<RowView>::empty() =~= seq![row]);
    }
}

// ---- Collapsing everything ----

/// After every directory is collapsed only the top level shows, and each
/// directory there is closed.
pub proof fn law_collapse_all_leaves_the_top(items: Seq<ItemView>, collapsed: Set<Seq<char>>)
    requires
        dir_paths(walk(items, Seq::empty(), 0, Set::empty())).subset_of(collapsed),
    ensures
        ({
            let rows = walk(items, Seq::empty(), 0, collapsed);
            forall|i: int|
                0 <= i < rows.len() ==> row_depth(#[trigger] rows[i]) == 0 && (rows[i] is Directory
                    ==> !rows[i]->expanded)
        }),
{
    let names = dir_names(items);
    let full = walk(items, Seq::empty(), 0, Set::empty());
    let upper = walk_dirs(names, items, Seq::empty(), 0, Set::empty());
    assert forall|p: Seq<char>| dir_paths(upper).contains(p) implies collapsed.contains(p) by {
        let k = choose|k: int| 0 <= k < upper.len() && (#[trigger] upper[k]) is Directory && upper[k]->path
            == p;
        assert(full[k] == upper[k]);
        assert(dir_paths(full).contains(p));
    }
    lemma_closed_dirs(names, items, Seq::empty(), 0, collapsed);
    let shown = walk_dirs(names, items, Seq::empty(), 0, collapsed);
    let rows = walk(items, Seq::empty(), 0, collapsed);
    assert forall|i: int| 0 <= i < rows.len() implies row_depth(#[trigger] rows[i]) == 0 && (
    rows[i] is Directory ==> !rows[i]->expanded) by {
        if i < shown.len() {
            assert(rows[i] == shown[i]);
        }
    }
}

proof fn lemma_closed_dirs(
    names: Seq<Seq<char>>,
    items: Seq<ItemView>,
    parent: Seq<char>,
    depth: int,
    collapsed: Set<Seq<char>>,
)
    requires
        forall|p: Seq<char>|
            dir_paths(walk_dirs(names, items, parent, depth, Set::empty())).contains(p)
                ==> collapsed.contains(p),
    ensures
        ({
            let rows = walk_dirs(names, items, parent, depth, collapsed);
            forall|i: int|
                0 <= i < rows.len() ==> row_depth(#[trigger] rows[i]) == depth && rows[i] is Directory
                    && !rows[i]->expanded
        }),
    decreases names.len(),
{
    if names.len() > 0 {
        let prev = names.drop_last();
        let a = walk_dirs(prev, items, parent, depth, Set::empty());
        let b = walk_dir(names.last(), items, parent, depth, Set::empty());
        let full = walk_dirs(names, items, parent, depth, Set::empty());
        assert forall|p: Seq<char>| dir_paths(a).contains(p) implies collapsed.contains(p) by {
            let k = choose|k: int| 0 <= k < a.len() && (#[trigger] a[k]) is Directory && a[k]->path == p;
            assert(full[k] == a[k]);
            assert(dir_paths(full).contains(p));
        }
        lemma_closed_dirs(prev, items, parent, depth, collapsed);
        let (name, inner) = compact(names.last(), under(items, names.last()));
        let path = joined(parent, name);
        assert(b[0] is Directory && b[0]->path == path);
        assert(full[a.len() as int] == b[0]);
        assert(dir_paths(full).contains(path));
        assert(collapsed.contains(path));
        assert(!is_expanded(path, collapsed));
        let shown = walk_dirs(prev, items, parent, depth, collapsed);
        let rows = walk_dirs(names, items, parent, depth, collapsed);
        let closed_row = RowView::Directory { path, name, depth, expanded: false };
        assert(walk_dir(names.last(), items, parent, depth, collapsed) == seq![closed_row]);
        assert(rows == shown + seq![closed_row]);
        assert forall|i: int| 0 <= i < rows.len() implies row_depth(#[trigger] rows[i]) == depth
            && rows[i] is Directory && !rows[i]->expanded by {
            if i < shown.len() {
                assert(rows[i] == shown[i]);
            } else {
                assert(rows[i] == closed_row);
            }
        }
    }
}

// ---- Every file has its row ----

/// The numbers of the file rows.
pub open spec fn row_indices(rows: Seq<RowView>) -> Multiset<usize>
    decreases rows.len(),
{
    if rows.len() == 0 {
        Multiset::empty()
    } else {
        let rest = row_indices(rows.drop_last());
        match rows.last() {
            RowView::File { index, .. } => rest.insert(index),
            RowView::Directory { .. } => rest,
        }
    }
}

/// The numbers of the items.
pub open spec fn item_indices(items: Seq<ItemView>) -> Multiset<usize>
    decreases items.len(),
{
    if items.len() == 0 {
        Multiset::empty()
    } else {
        item_indices(items.drop_last()).insert(items.last().index)
    }
}

/// Whether every item has a part left.
pub open spec fn all_named(items: Seq<ItemView>) -> bool {
    forall|i: int| 0 <= i < items.len() ==> (#[trigger] items[i]).parts.len() >= 1
}

proof fn lemma_row_indices_add(a: Seq<RowView>, b: Seq<RowView>)
    ensures
        row_indices(a + b) == row_indices(a).add(row_indices(b)),
    decreases b.len(),
{
    broadcast use vstd::multiset::group_multiset_axioms;

    if b.len() == 0 {
        assert(a + b =~= a);
        assert(row_indices(a + b) =~= row_indices(a).add(row_indices(b)));
    } else {
        assert((a + b).drop_last() =~= a + b.drop_last());
        lemma_row_indices_add(a, b.drop_last());
        assert(row_indices(a + b) =~= row_indices(a).add(row_indices(b)));
    }
}

/// The numbers of the items below each of the names.
spec fn sum_under(names: Seq<Seq<char>>, items: Seq<ItemView>) -> Multiset<usize>
    decreases names.len(),
{
    if names.len() == 0 {
        Multiset::empty()
    } else {
        sum_under(names.drop_last(), items).add(item_indices(under(items, names.last())))
    }
}

proof fn lemma_sum_push(names: Seq<Seq<char>>, items: Seq<ItemView>, x: ItemView)
    requires
        names.no_duplicates(),
    ensures
        sum_under(names, items.push(x)) == (if x.parts.len() >= 2 && names.contains(x.parts[0]) {
            sum_under(names, items).insert(x.index)
        } else {
            sum_under(names, items)
        }),
    decreases names.len(),
{
    broadcast use vstd::multiset::group_multiset_axioms;

    if names.len() == 0 {
        assert(sum_under(names, items.push(x)) =~= sum_under(names, items));
    } else {
        let prev = names.drop_last();
        let n = names.last();
        assert(prev.no_duplicates());
        lemma_sum_push(prev, items, x);
        assert(items.push(x).drop_last() =~= items);
        let low = under(items, n);
        if x.parts.len() >= 2 && x.parts[0] == n {
            let y = ItemView { parts: x.parts.subrange(1, x.parts.len() as int), index: x.index };
            assert(low.push(y).drop_last() =~= low);
            assert(names[names.len() - 1] == n);
            assert(!prev.contains(n)) by {
                if prev.contains(n) {
                    let k = choose|k: int| 0 <= k < prev.len() && prev[k] == n;
                    assert(names[k] == names[names.len() - 1]);
                }
            }
            assert(names.contains(n));
            assert(sum_under(names, items.push(x)) =~= sum_under(names, items).insert(x.index));
        } else if x.parts.len() >= 2 {
            assert(names.contains(x.parts[0]) == prev.contains(x.parts[0])) by {
                if names.contains(x.parts[0]) {
                    let k = choose|k: int| 0 <= k < names.len() && names[k] == x.parts[0];
                    assert(prev[k] == x.parts[0]);
                }
                if prev.contains(x.parts[0]) {
                    let k = choose|k: int| 0 <= k < prev.len() && prev[k] == x.parts[0];
                    assert(names[k] == x.parts[0]);
                }
            }
            if names.contains(x.parts[0]) {
                assert(sum_under(names, items.push(x)) =~= sum_under(names, items).insert(x.index));
            } else {
                assert(sum_under(names, items.push(x)) =~= sum_under(names, items));
            }
        } else {
            assert(sum_under(names, items.push(x)) =~= sum_under(names, items));
        }
    }
}

proof fn lemma_place_file_indices(files: Seq<ItemView>, x: ItemView)
    ensures
        item_indices(place_file(files, x)) == item_indices(files).insert(x.index),
    decreases files.len(),
{
    broadcast use vstd::multiset::group_multiset_axioms;

    if files.len() == 0 {
        assert(seq![x].drop_last() =~= Seq::empty());
        assert(files =~= Seq::empty());
    } else if name_less(x.parts[0], files[0].parts[0]) {
        lemma_item_indices_front(x, files);
    } else {
        let rest = files.subrange(1, files.len() as int);
        lemma_place_file_indices(rest, x);
        lemma_item_indices_front(files[0], place_file(rest, x));
        lemma_item_indices_front(files[0], rest);
        assert(seq![files[0]] + rest =~= files);
        assert(item_indices(place_file(files, x)) =~= item_indices(files).insert(x.index));
    }
}

proof fn lemma_item_indices_front(x: ItemView, items: Seq<ItemView>)
    ensures
        item_indices(seq![x] + items) == item_indices(items).insert(x.index),
    decreases items.len(),
{
    broadcast use vstd::multiset::group_multiset_axioms;

    let all = seq![x] + items;
    if items.len() == 0 {
        assert(all.drop_last() =~= items);
    } else {
        assert(all.drop_last() =~= seq![x] + items.drop_last());
        lemma_item_indices_front(x, items.drop_last());
        assert(item_indices(all) =~= item_indices(items).insert(x.index));
    }
}

proof fn lemma_files_indices(files: Seq<ItemView>, depth: int)
    ensures
        row_indices(file_rows(files, depth)) == item_indices(files),
    decreases files.len(),
{
    if files.len() > 0 {
        lemma_files_indices(files.drop_last(), depth);
        assert(file_rows(files, depth).drop_last() =~= file_rows(files.drop_last(), depth));
    }
}

/// The items split into those below each directory and the files.
proof fn lemma_partition(names: Seq<Seq<char>>, items: Seq<ItemView>)
    requires
        names.no_duplicates(),
        all_named(items),
        forall|n: Seq<char>| first_dirs(items).contains(n) ==> names.contains(n),
    ensures
        item_indices(items) == sum_under(names, items).add(item_indices(ordered_files(items))),
    decreases items.len(),
{
    broadcast use vstd::multiset::group_multiset_axioms;

    if items.len() == 0 {
        lemma_sum_empty(names, items);
        assert(item_indices(items) =~= sum_under(names, items).add(
            item_indices(ordered_files(items)),
        ));
    } else {
        let prev = items.drop_last();
        let x = items.last();
        assert(prev.push(x) =~= items);
        assert(all_named(prev)) by {
            assert forall|i: int| 0 <= i < prev.len() implies (#[trigger] prev[i]).parts.len() >= 1 by {
                assert(prev[i] == items[i]);
            }
        }
        assert(items[items.len() - 1].parts.len() >= 1);
        let before = first_dirs(prev);
        let now = first_dirs(items);
        assert forall|n: Seq<char>| before.contains(n) implies names.contains(n) by {
            let k = choose|k: int| 0 <= k < before.len() && before[k] == n;
            assert(now[k] == n);
            assert(now.contains(n));
        }
        lemma_partition(names, prev);
        lemma_sum_push(names, prev, x);
        if x.parts.len() >= 2 {
            assert(now[before.len() as int] == x.parts[0]);
            assert(now.contains(x.parts[0]));
            assert(item_indices(items) =~= sum_under(names, items).add(
                item_indices(ordered_files(items)),
            ));
        } else {
            lemma_place_file_indices(ordered_files(prev), x);
            assert(item_indices(items) =~= sum_under(names, items).add(
                item_indices(ordered_files(items)),
            ));
        }
    }
}

proof fn lemma_sum_empty(names: Seq<Seq<char>>, items: Seq<ItemView>)
    requires
        items.len() == 0,
    ensures
        sum_under(names, items) == Multiset::<usize>::empty(),
    decreases names.len(),
{
    broadcast use vstd::multiset::group_multiset_axioms;

    if names.len() > 0 {
        lemma_sum_empty(names.drop_last(), items);
        assert(sum_under(names, items) =~= Multiset::empty());
    }
}

proof fn lemma_place_unique(list: Seq<Seq<char>>, x: Seq<char>)
    requires
        list.no_duplicates(),
        !list.contains(x),
    ensures
        place(list, x).no_duplicates(),
        forall|y: Seq<char>| place(list, x).contains(y) ==> list.contains(y) || y == x,
    decreases list.len(),
{
    let out = place(list, x);
    if list.len() == 0 {
    } else if name_less(x, list[0]) {
        assert forall|i: int, j: int| 0 <= i < j < out.len() implies out[i] != out[j] by {
            assert(out[j] == list[j - 1]);
            if i > 0 {
                assert(out[i] == list[i - 1]);
            }
        }
        assert forall|y: Seq<char>| out.contains(y) implies list.contains(y) || y == x by {
            let k = choose|k: int| 0 <= k < out.len() && out[k] == y;
            if k > 0 {
                assert(list[k - 1] == y);
            }
        }
    } else {
        let rest = after_first(list);
        assert forall|i: int, j: int| 0 <= i < j < rest.len() implies rest[i] != rest[j] by {
            assert(rest[i] == list[i + 1]);
            assert(rest[j] == list[j + 1]);
        }
        assert(!rest.contains(x)) by {
            if rest.contains(x) {
                let k = choose|k: int| 0 <= k < rest.len() && rest[k] == x;
                assert(list[k + 1] == x);
            }
        }
        lemma_place_unique(rest, x);
        let tail = place(rest, x);
        assert(!tail.contains(list[0])) by {
            if tail.contains(list[0]) {
                if rest.contains(list[0]) {
                    let k = choose|k: int| 0 <= k < rest.len() && rest[k] == list[0];
                    assert(list[k + 1] == list[0]);
                } else {
                    assert(list.contains(list[0]));
                }
            }
        }
        assert forall|i: int, j: int| 0 <= i < j < out.len() implies out[i] != out[j] by {
            assert(out[j] == tail[j - 1]);
            if i > 0 {
                assert(out[i] == tail[i - 1]);
            } else {
                assert(tail.contains(tail[j - 1]));
            }
        }
        assert forall|y: Seq<char>| out.contains(y) implies list.contains(y) || y == x by {
            let k = choose|k: int| 0 <= k < out.len() && out[k] == y;
            if k > 0 {
                assert(tail[k - 1] == y);
                assert(tail.contains(y));
                if rest.contains(y) {
                    let m = choose|m: int| 0 <= m < rest.len() && rest[m] == y;
                    assert(list[m + 1] == y);
                }
            } else {
                assert(list[0] == y);
            }
        }
    }
}

proof fn lemma_ordered_unique(list: Seq<Seq<char>>)
    requires
        list.no_duplicates(),
    ensures
        ordered(list).no_duplicates(),
    decreases list.len(),
{
    if list.len() > 0 {
        let prev = list.drop_last();
        lemma_ordered_unique(prev);
        lemma_ordered_holds(prev, list.last());
        assert(!prev.contains(list.last())) by {
            if prev.contains(list.last()) {
                let k = choose|k: int| 0 <= k < prev.len() && prev[k] == list.last();
                assert(list[k] == list[list.len() - 1]);
            }
        }
        lemma_place_unique(ordered(prev), list.last());
    }
}

proof fn lemma_under_single(items: Seq<ItemView>, all: Seq<ItemView>, c: Seq<char>)
    requires
        forall|i: int|
            0 <= i < items.len() ==> (#[trigger] items[i]).parts.len() >= 2 && items[i].parts[0] == c,
    ensures
        item_indices(under(items, c)) == item_indices(items),
    decreases items.len(),
{
    if items.len() > 0 {
        let prev = items.drop_last();
        assert forall|i: int| 0 <= i < prev.len() implies (#[trigger] prev[i]).parts.len() >= 2
            && prev[i].parts[0] == c by {
            assert(prev[i] == items[i]);
        }
        lemma_under_single(prev, all, c);
        let x = items.last();
        assert(items[items.len() - 1] == x);
        let y = ItemView { parts: x.parts.subrange(1, x.parts.len() as int), index: x.index };
        assert(under(prev, c).push(y).drop_last() =~= under(prev, c));
    }
}

proof fn lemma_under_named(items: Seq<ItemView>, name: Seq<char>)
    ensures
        all_named(under(items, name)),
    decreases items.len(),
{
    if items.len() > 0 {
        let prev = items.drop_last();
        lemma_under_named(prev, name);
        let rest = under(prev, name);
        let out = under(items, name);
        assert forall|i: int| 0 <= i < out.len() implies (#[trigger] out[i]).parts.len() >= 1 by {
            if i < rest.len() {
                assert(out[i] == rest[i]);
            }
        }
    }
}

proof fn lemma_compact_indices(name: Seq<char>, items: Seq<ItemView>)
    requires
        all_named(items),
    ensures
        item_indices(compact(name, items).1) == item_indices(items),
        all_named(compact(name, items).1),
        weight(compact(name, items).1) <= weight(items),
    decreases weight(items),
{
    if single(items) && weight(under(items, items[0].parts[0])) < weight(items) {
        let c = items[0].parts[0];
        lemma_under_single(items, items, c);
        lemma_under_named(items, c);
        lemma_compact_indices(name + seq!['/'] + c, under(items, c));
    }
}

/// Every file has exactly one row where all directories are expanded.
pub proof fn law_every_file_has_one_row(items: Seq<ItemView>, parent: Seq<char>, depth: int)
    requires
        all_named(items),
    ensures
        row_indices(walk(items, parent, depth, Set::empty())) == item_indices(items),
    decreases weight(items), 1nat, 0nat,
{
    broadcast use vstd::multiset::group_multiset_axioms;

    let names = dir_names(items);
    let dirs = first_dirs(items);
    law_dedupe(dirs);
    lemma_ordered_unique(dedupe(dirs));
    assert forall|n: Seq<char>| dirs.contains(n) implies names.contains(n) by {
        assert(dedupe(dirs).contains(n));
        lemma_ordered_holds(dedupe(dirs), n);
    }
    lemma_partition(names, items);
    assert forall|n: Seq<char>| names.contains(n) implies dirs.contains(n) by {
        lemma_ordered_holds(dedupe(dirs), n);
        assert(dedupe(dirs).contains(n));
    }
    lemma_dirs_indices(names, items, parent, depth);
    lemma_files_indices(ordered_files(items), depth);
    lemma_row_indices_add(
        walk_dirs(names, items, parent, depth, Set::empty()),
        file_rows(ordered_files(items), depth),
    );
}

proof fn lemma_dirs_indices(
    names: Seq<Seq<char>>,
    items: Seq<ItemView>,
    parent: Seq<char>,
    depth: int,
)
    requires
        forall|n: Seq<char>| names.contains(n) ==> first_dirs(items).contains(n),
    ensures
        row_indices(walk_dirs(names, items, parent, depth, Set::empty())) == sum_under(names, items),
    decreases weight(items), 0nat, names.len(),
{
    broadcast use vstd::multiset::group_multiset_axioms;

    if names.len() > 0 {
        let prev = names.drop_last();
        assert forall|n: Seq<char>| prev.contains(n) implies first_dirs(items).contains(n) by {
            let k = choose|k: int| 0 <= k < prev.len() && prev[k] == n;
            assert(names[k] == n);
            assert(names.contains(n));
        }
        lemma_dirs_indices(prev, items, parent, depth);
        assert(names[names.len() - 1] == names.last());
        assert(names.contains(names.last()));
        lemma_dir_indices(names.last(), items, parent, depth);
        lemma_row_indices_add(
            walk_dirs(prev, items, parent, depth, Set::empty()),
            walk_dir(names.last(), items, parent, depth, Set::empty()),
        );
    }
}

proof fn lemma_named_shrinks(items: Seq<ItemView>, name: Seq<char>)
    requires
        first_dirs(items).contains(name),
    ensures
        weight(under(items, name)) < weight(items),
    decreases items.len(),
{
    if items.len() > 0 {
        let prev = items.drop_last();
        let x = items.last();
        lemma_under_no_heavier(prev, name);
        let list = first_dirs(items);
        let j = choose|j: int| 0 <= j < list.len() && list[j] == name;
        let rest = under(prev, name);
        if x.parts.len() >= 2 && x.parts[0] == name {
            let y = ItemView { parts: x.parts.subrange(1, x.parts.len() as int), index: x.index };
            assert(rest.push(y).drop_last() =~= rest);
        } else {
            assert(first_dirs(prev)[j] == name);
            assert(first_dirs(prev).contains(name));
            lemma_named_shrinks(prev, name);
        }
    }
}

proof fn lemma_under_no_heavier(items: Seq<ItemView>, name: Seq<char>)
    ensures
        weight(under(items, name)) <= weight(items),
    decreases items.len(),
{
    if items.len() > 0 {
        let prev = items.drop_last();
        let x = items.last();
        lemma_under_no_heavier(prev, name);
        let rest = under(prev, name);
        if x.parts.len() >= 2 && x.parts[0] == name {
            let y = ItemView { parts: x.parts.subrange(1, x.parts.len() as int), index: x.index };
            assert(rest.push(y).drop_last() =~= rest);
        }
    }
}

proof fn lemma_dir_indices(first: Seq<char>, items: Seq<ItemView>, parent: Seq<char>, depth: int)
    requires
        first_dirs(items).contains(first),
    ensures
        row_indices(walk_dir(first, items, parent, depth, Set::empty())) == item_indices(
            under(items, first),
        ),
    decreases weight(items), 0nat, 0nat,
{
    broadcast use vstd::multiset::group_multiset_axioms;

    let low = under(items, first);
    let (name, inner) = compact(first, low);
    let path = joined(parent, name);
    lemma_under_named(items, first);
    lemma_compact_indices(first, low);
    lemma_named_shrinks(items, first);
    assert(is_expanded(path, Set::empty()));
    law_every_file_has_one_row(inner, path, depth + 1);
    let row = RowView::Directory { path, name, depth, expanded: true };
    let below = walk(inner, path, depth + 1, Set::empty());
    lemma_row_indices_add(seq![row], below);
    assert(seq![row].drop_last() =~= Seq::empty());
    assert(row_indices(seq![row]) =~= Multiset::empty()) by {
        assert(row_indices(seq![row].drop_last()) =~= Multiset::empty());
    }
    assert(row_indices(seq![row] + below) =~= item_indices(low));
}

/// Every item of a tree has a part, so the law on rows covers every tree.
pub proof fn law_tree_items_are_named(paths: Seq<(usize, Seq<char>)>)
    ensures
        all_named(tree_items(paths)),
    decreases paths.len(),
{
    if paths.len() > 0 {
        law_tree_items_are_named(paths.drop_last());
    }
}

} // verus!

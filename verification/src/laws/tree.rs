//! Where the files of a change tree stand.

use vstd::prelude::*;

use crate::change_tree::{
    after_first, compact, dir_names, file_rows, first_dirs, joined, lemma_ordered_holds, ordered,
    ordered_files, path_parts, place, place_file, row_depth, single, tree_items, under, walk,
    walk_dir, walk_dirs, weight, ItemView, RowView,
};
use crate::change_tree::laws::{all_from, lemma_walk_from};
use crate::scan::{law_order_is_irreflexive, law_order_is_transitive, lex_less};
use crate::text::{dedupe, has_char, join, law_dedupe, law_split_of_join, lower};

verus! {

// ---- Order ----

/// Whether a name comes after another: in lower case, and where these are the same as written.
pub open spec fn comes_after(a: Seq<char>, b: Seq<char>) -> bool {
    lex_less(lower(b), lower(a)) || (lower(b) == lower(a) && lex_less(b, a))
}

proof fn lemma_less_transitive(a: Seq<char>, b: Seq<char>, c: Seq<char>)
    requires
        comes_after(b, a),
        !comes_after(b, c),
    ensures
        !comes_after(a, c),
{
    if comes_after(a, c) {
        if lex_less(lower(c), lower(a)) {
            if lex_less(lower(a), lower(b)) {
                law_order_is_transitive(lower(c), lower(a), lower(b));
            }
        } else {
            if !lex_less(lower(a), lower(b)) {
                law_order_is_transitive(c, a, b);
            }
        }
    }
}

proof fn lemma_place_sorted(list: Seq<Seq<char>>, x: Seq<char>)
    requires
        forall|i: int, j: int|
            0 <= i < j < list.len() ==> !comes_after(#[trigger] list[i], #[trigger] list[j]),
    ensures
        forall|i: int, j: int|
            0 <= i < j < place(list, x).len() ==> !comes_after(
                #[trigger] place(list, x)[i],
                #[trigger] place(list, x)[j],
            ),
        forall|i: int|
            0 <= i < place(list, x).len() ==> #[trigger] place(list, x)[i] == x || list.contains(
                place(list, x)[i],
            ),
    decreases list.len(),
{
    let all = place(list, x);
    if list.len() > 0 {
        if comes_after(list[0], x) {
            assert(all == seq![x] + list);
            assert forall|i: int, j: int| 0 <= i < j < all.len() implies !comes_after(
                #[trigger] all[i],
                #[trigger] all[j],
            ) by {
                if i == 0 {
                    assert(all[j] == list[j - 1]);
                    if j > 1 {
                        assert(!comes_after(list[0], list[j - 1]));
                        lemma_less_transitive(x, list[0], list[j - 1]);
                    } else {
                        lemma_asymmetric(x, list[0]);
                    }
                } else {
                    assert(all[i] == list[i - 1] && all[j] == list[j - 1]);
                }
            }
            assert forall|i: int| 0 <= i < all.len() implies #[trigger] all[i] == x || list.contains(
                all[i],
            ) by {
                if i > 0 {
                    assert(list[i - 1] == all[i]);
                }
            }
        } else {
            let rest = after_first(list);
            assert forall|i: int, j: int| 0 <= i < j < rest.len() implies !comes_after(
                #[trigger] rest[i],
                #[trigger] rest[j],
            ) by {
                assert(rest[i] == list[i + 1] && rest[j] == list[j + 1]);
            }
            lemma_place_sorted(rest, x);
            let tail = place(rest, x);
            assert(all == seq![list[0]] + tail);
            assert forall|i: int, j: int| 0 <= i < j < all.len() implies !comes_after(
                #[trigger] all[i],
                #[trigger] all[j],
            ) by {
                assert(all[j] == tail[j - 1]);
                if i == 0 {
                    assert(tail[j - 1] == x || rest.contains(tail[j - 1]));
                    if tail[j - 1] != x {
                        let k = choose|k: int| 0 <= k < rest.len() && rest[k] == tail[j - 1];
                        assert(list[k + 1] == tail[j - 1]);
                        assert(!comes_after(list[0], list[k + 1]));
                    }
                } else {
                    assert(all[i] == tail[i - 1]);
                }
            }
            assert forall|i: int| 0 <= i < all.len() implies #[trigger] all[i] == x || list.contains(
                all[i],
            ) by {
                if i == 0 {
                    assert(list[0] == all[0]);
                } else {
                    assert(all[i] == tail[i - 1]);
                    if tail[i - 1] != x {
                        let k = choose|k: int| 0 <= k < rest.len() && rest[k] == tail[i - 1];
                        assert(list[k + 1] == tail[i - 1]);
                    }
                }
            }
        }
    }
}

proof fn lemma_asymmetric(a: Seq<char>, b: Seq<char>)
    requires
        comes_after(b, a),
    ensures
        !comes_after(a, b),
{
    if comes_after(a, b) {
        if lex_less(lower(a), lower(b)) && lex_less(lower(b), lower(a)) {
            law_order_is_transitive(lower(a), lower(b), lower(a));
        }
        law_order_is_irreflexive(lower(a));
        law_order_is_irreflexive(lower(b));
        if lex_less(a, b) && lex_less(b, a) {
            law_order_is_transitive(a, b, a);
        }
        law_order_is_irreflexive(a);
    }
}

proof fn lemma_ordered(list: Seq<Seq<char>>)
    ensures
        forall|i: int, j: int|
            0 <= i < j < ordered(list).len() ==> !comes_after(
                #[trigger] ordered(list)[i],
                #[trigger] ordered(list)[j],
            ),
    decreases list.len(),
{
    if list.len() > 0 {
        lemma_ordered(list.drop_last());
        lemma_place_sorted(ordered(list.drop_last()), list.last());
    }
}

/// The directories right below another come in the order of their names: in lower case, and
/// where these are the same as written.
pub proof fn law_directories_are_sorted(items: Seq<ItemView>)
    ensures
        forall|i: int, j: int|
            0 <= i < j < dir_names(items).len() ==> !comes_after(
                #[trigger] dir_names(items)[i],
                #[trigger] dir_names(items)[j],
            ),
{
    lemma_ordered(dedupe(first_dirs(items)));
}

proof fn lemma_place_file_sorted(files: Seq<ItemView>, x: ItemView)
    requires
        forall|i: int, j: int|
            0 <= i < j < files.len() ==> !comes_after(
                (#[trigger] files[i]).parts[0],
                (#[trigger] files[j]).parts[0],
            ),
    ensures
        forall|i: int, j: int|
            0 <= i < j < place_file(files, x).len() ==> !comes_after(
                (#[trigger] place_file(files, x)[i]).parts[0],
                (#[trigger] place_file(files, x)[j]).parts[0],
            ),
        forall|i: int|
            0 <= i < place_file(files, x).len() ==> #[trigger] place_file(files, x)[i] == x
                || files.contains(place_file(files, x)[i]),
    decreases files.len(),
{
    let all = place_file(files, x);
    if files.len() > 0 {
        if comes_after(files[0].parts[0], x.parts[0]) {
            assert(all == seq![x] + files);
            assert forall|i: int, j: int| 0 <= i < j < all.len() implies !comes_after(
                (#[trigger] all[i]).parts[0],
                (#[trigger] all[j]).parts[0],
            ) by {
                if i == 0 {
                    assert(all[j] == files[j - 1]);
                    if j > 1 {
                        assert(!comes_after(files[0].parts[0], files[j - 1].parts[0]));
                        lemma_less_transitive(x.parts[0], files[0].parts[0], files[j - 1].parts[0]);
                    } else {
                        lemma_asymmetric(x.parts[0], files[0].parts[0]);
                    }
                } else {
                    assert(all[i] == files[i - 1] && all[j] == files[j - 1]);
                }
            }
            assert forall|i: int| 0 <= i < all.len() implies #[trigger] all[i] == x || files.contains(
                all[i],
            ) by {
                if i > 0 {
                    assert(files[i - 1] == all[i]);
                }
            }
        } else {
            let rest = files.subrange(1, files.len() as int);
            assert forall|i: int, j: int| 0 <= i < j < rest.len() implies !comes_after(
                (#[trigger] rest[i]).parts[0],
                (#[trigger] rest[j]).parts[0],
            ) by {
                assert(rest[i] == files[i + 1] && rest[j] == files[j + 1]);
            }
            lemma_place_file_sorted(rest, x);
            let tail = place_file(rest, x);
            assert(all == seq![files[0]] + tail);
            assert forall|i: int, j: int| 0 <= i < j < all.len() implies !comes_after(
                (#[trigger] all[i]).parts[0],
                (#[trigger] all[j]).parts[0],
            ) by {
                assert(all[j] == tail[j - 1]);
                if i == 0 {
                    assert(tail[j - 1] == x || rest.contains(tail[j - 1]));
                    if tail[j - 1] != x {
                        let k = choose|k: int| 0 <= k < rest.len() && rest[k] == tail[j - 1];
                        assert(files[k + 1] == tail[j - 1]);
                        assert(!comes_after(files[0].parts[0], files[k + 1].parts[0]));
                    }
                } else {
                    assert(all[i] == tail[i - 1]);
                }
            }
            assert forall|i: int| 0 <= i < all.len() implies #[trigger] all[i] == x || files.contains(
                all[i],
            ) by {
                if i == 0 {
                    assert(files[0] == all[0]);
                } else {
                    assert(all[i] == tail[i - 1]);
                    if tail[i - 1] != x {
                        let k = choose|k: int| 0 <= k < rest.len() && rest[k] == tail[i - 1];
                        assert(files[k + 1] == tail[i - 1]);
                    }
                }
            }
        }
    }
}

/// The files of a directory come in the order of their names.
pub proof fn law_files_are_sorted(items: Seq<ItemView>)
    ensures
        forall|i: int, j: int|
            0 <= i < j < ordered_files(items).len() ==> !comes_after(
                (#[trigger] ordered_files(items)[i]).parts[0],
                (#[trigger] ordered_files(items)[j]).parts[0],
            ),
        forall|i: int|
            0 <= i < ordered_files(items).len() ==> items.contains(#[trigger] ordered_files(items)[i])
                && ordered_files(items)[i].parts.len() == 1,
    decreases items.len(),
{
    if items.len() > 0 {
        let before = items.drop_last();
        law_files_are_sorted(before);
        let less = ordered_files(before);
        assert forall|x: ItemView| before.contains(x) implies items.contains(x) by {
            let k = choose|k: int| 0 <= k < before.len() && before[k] == x;
            assert(items[k] == x);
        }
        assert(items[items.len() - 1] == items.last());
        assert(items.contains(items.last()));
        if items.last().parts.len() == 1 {
            lemma_place_file_sorted(less, items.last());
            let all = ordered_files(items);
            assert forall|i: int| 0 <= i < all.len() implies items.contains(#[trigger] all[i])
                && all[i].parts.len() == 1 by {
                if all[i] != items.last() {
                    assert(less.contains(all[i]));
                    let k = choose|k: int| 0 <= k < less.len() && less[k] == all[i];
                    assert(before.contains(less[k]));
                }
            }
        }
    }
}

// ---- Places ----

/// The directory that a row stands in: the nearest directory before it that is one level up,
/// or where there is none the one that the rows begin in.
pub open spec fn home(rows: Seq<RowView>, r: int, depth: int, parent: Seq<char>) -> Seq<char>
    decreases r,
{
    if r <= 0 {
        parent
    } else if rows[r - 1] is Directory && row_depth(rows[r - 1]) == depth - 1 {
        rows[r - 1]->path
    } else {
        home(rows, r - 1, depth, parent)
    }
}

/// The path of an item below a directory.
pub open spec fn full_path(parent: Seq<char>, x: ItemView) -> Seq<char> {
    joined(parent, join(x.parts, seq!['/']))
}

/// Whether every item has a name, and no part of its path is empty.
pub open spec fn clean(items: Seq<ItemView>) -> bool {
    forall|k: int|
        0 <= k < items.len() ==> (#[trigger] items[k]).parts.len() > 0 && forall|i: int|
            0 <= i < items[k].parts.len() ==> (#[trigger] items[k].parts[i]).len() > 0
}

/// Whether an item with the number of the file in a row has the path that the row's place
/// gives: the directory it stands in, a slash and the name.
pub open spec fn at_home(
    items: Seq<ItemView>,
    index: usize,
    dir: Seq<char>,
    parent: Seq<char>,
) -> bool {
    exists|k: int|
        0 <= k < items.len() && (#[trigger] items[k]).index == index && items[k].parts.len() > 0
            && joined(dir, items[k].parts.last()) == full_path(parent, items[k])
}

/// Whether there is a directory one level up before a row.
spec fn found(rows: Seq<RowView>, r: int, depth: int) -> bool {
    exists|q: int|
        0 <= q < r && (#[trigger] rows[q]) is Directory && row_depth(rows[q]) == depth - 1
}

proof fn lemma_home_same(a: Seq<RowView>, b: Seq<RowView>, r: int, depth: int, p: Seq<char>)
    requires
        0 <= r <= a.len(),
    ensures
        home(a + b, r, depth, p) == home(a, r, depth, p),
    decreases r,
{
    if r > 0 {
        assert((a + b)[r - 1] == a[r - 1]);
        lemma_home_same(a, b, r - 1, depth, p);
    }
}

proof fn lemma_home_found(
    a: Seq<RowView>,
    b: Seq<RowView>,
    s: int,
    depth: int,
    p: Seq<char>,
    q: Seq<char>,
)
    requires
        0 <= s <= b.len(),
        found(b, s, depth),
    ensures
        home(a + b, a.len() + s, depth, p) == home(b, s, depth, q),
        found(a + b, a.len() + s, depth),
    decreases s,
{
    let k = choose|k: int|
        0 <= k < s && (#[trigger] b[k]) is Directory && row_depth(b[k]) == depth - 1;
    assert((a + b)[a.len() + k] == b[k]);
    assert((a + b)[a.len() + s - 1] == b[s - 1]);
    if !(b[s - 1] is Directory && row_depth(b[s - 1]) == depth - 1) {
        assert(found(b, s - 1, depth));
        lemma_home_found(a, b, s - 1, depth, p, q);
    }
}

proof fn lemma_home_not_found(a: Seq<RowView>, b: Seq<RowView>, s: int, depth: int, p: Seq<char>)
    requires
        0 <= s <= b.len(),
        forall|k: int| 0 <= k < s ==> row_depth(#[trigger] b[k]) >= depth,
    ensures
        home(a + b, a.len() + s, depth, p) == home(a, a.len() as int, depth, p),
        home(b, s, depth, p) == p,
    decreases s,
{
    if s > 0 {
        assert((a + b)[a.len() + s - 1] == b[s - 1]);
        lemma_home_not_found(a, b, s - 1, depth, p);
    } else {
        lemma_home_same(a, b, a.len() as int, depth, p);
    }
}

proof fn lemma_joined(parent: Seq<char>, n: Seq<char>, t: Seq<char>)
    requires
        n.len() > 0,
    ensures
        joined(parent, n + seq!['/'] + t) == joined(joined(parent, n), t),
        joined(parent, n).len() > 0,
{
    assert(joined(parent, n + seq!['/'] + t) =~= joined(joined(parent, n), t));
}

/// The items of a directory come from items whose path begins with it.
proof fn lemma_under(items: Seq<ItemView>, name: Seq<char>)
    requires
        clean(items),
    ensures
        clean(under(items, name)),
        forall|j: int|
            0 <= j < under(items, name).len() ==> comes_from(
                items,
                name,
                #[trigger] under(items, name)[j],
            ),
    decreases items.len(),
{
    if items.len() > 0 {
        let before = items.drop_last();
        assert forall|k: int| 0 <= k < before.len() implies (#[trigger] before[k]).parts.len() > 0 && (
        forall|i: int| 0 <= i < before[k].parts.len() ==> (#[trigger] before[k].parts[i]).len() > 0) by {
            assert(before[k] == items[k]);
        }
        lemma_under(before, name);
        let less = under(before, name);
        let all = under(items, name);
        let x = items[items.len() - 1];
        assert(x == items.last());
        assert forall|j: int| 0 <= j < all.len() implies comes_from(items, name, #[trigger] all[j])
            && all[j].parts.len() > 0 && (forall|i: int|
            0 <= i < all[j].parts.len() ==> (#[trigger] all[j].parts[i]).len() > 0) by {
            if j < less.len() {
                assert(all[j] == less[j]);
                assert(comes_from(before, name, less[j]));
                let k = choose|k: int|
                    0 <= k < before.len() && (#[trigger] before[k]).index == less[j].index
                        && before[k].parts.len() >= 2 && before[k].parts[0] == name
                        && before[k].parts.skip(1) == less[j].parts;
                assert(items[k] == before[k]);
            } else {
                assert(all[j].parts =~= x.parts.skip(1));
                assert forall|i: int| 0 <= i < all[j].parts.len() implies (#[trigger] all[j].parts[i]).len()
                    > 0 by {
                    assert(all[j].parts[i] == x.parts[i + 1]);
                }
            }
        }
    }
}

spec fn comes_from(items: Seq<ItemView>, name: Seq<char>, y: ItemView) -> bool {
    exists|k: int|
        0 <= k < items.len() && (#[trigger] items[k]).index == y.index && items[k].parts.len() >= 2
            && items[k].parts[0] == name && items[k].parts.skip(1) == y.parts
}

proof fn lemma_join_rest(parts: Seq<Seq<char>>)
    requires
        parts.len() >= 2,
    ensures
        join(parts, seq!['/']) == parts[0] + seq!['/'] + join(parts.skip(1), seq!['/']),
        parts.last() == parts.skip(1).last(),
{
    assert(parts.subrange(1, parts.len() as int) =~= parts.skip(1));
}

/// A row that is at home among the items of a directory is so among those it comes from.
proof fn lemma_at_home_up(
    items: Seq<ItemView>,
    name: Seq<char>,
    index: usize,
    dir: Seq<char>,
    parent: Seq<char>,
)
    requires
        clean(items),
        name.len() > 0,
        at_home(under(items, name), index, dir, joined(parent, name)),
    ensures
        at_home(items, index, dir, parent),
{
    let low = under(items, name);
    lemma_under(items, name);
    let j = choose|j: int|
        0 <= j < low.len() && (#[trigger] low[j]).index == index && low[j].parts.len() > 0 && joined(
            dir,
            low[j].parts.last(),
        ) == full_path(joined(parent, name), low[j]);
    assert(comes_from(items, name, low[j]));
    let k = choose|k: int|
        0 <= k < items.len() && (#[trigger] items[k]).index == low[j].index && items[k].parts.len()
            >= 2 && items[k].parts[0] == name && items[k].parts.skip(1) == low[j].parts;
    lemma_join_rest(items[k].parts);
    lemma_joined(parent, name, join(low[j].parts, seq!['/']));
    assert(full_path(parent, items[k]) == full_path(joined(parent, name), low[j]));
}

/// So is one among the items of a directory that takes in those that are alone in it.
proof fn lemma_compact_up(
    name: Seq<char>,
    low: Seq<ItemView>,
    index: usize,
    dir: Seq<char>,
    parent: Seq<char>,
)
    requires
        clean(low),
        name.len() > 0,
        at_home(compact(name, low).1, index, dir, joined(parent, compact(name, low).0)),
    ensures
        at_home(low, index, dir, joined(parent, name)),
    decreases weight(low),
{
    if single(low) && weight(under(low, low[0].parts[0])) < weight(low) {
        let c = low[0].parts[0];
        assert(low[0].parts.len() > 0);
        assert(c.len() > 0);
        lemma_under(low, c);
        let longer = name + seq!['/'] + c;
        lemma_compact_up(longer, under(low, c), index, dir, parent);
        lemma_joined(parent, name, c);
        assert(joined(parent, longer) == joined(joined(parent, name), c));
        lemma_at_home_up(low, c, index, dir, joined(parent, name));
    }
}

proof fn lemma_compact_clean(name: Seq<char>, low: Seq<ItemView>)
    requires
        clean(low),
        name.len() > 0,
    ensures
        clean(compact(name, low).1),
        compact(name, low).0.len() > 0,
    decreases weight(low),
{
    if single(low) && weight(under(low, low[0].parts[0])) < weight(low) {
        lemma_under(low, low[0].parts[0]);
        lemma_compact_clean(name + seq!['/'] + low[0].parts[0], under(low, low[0].parts[0]));
    }
}

/// Whether every file's row of a part of the tree stands where its file belongs.
spec fn rows_at_home(
    items: Seq<ItemView>,
    rows: Seq<RowView>,
    parent: Seq<char>,
    depth: int,
) -> bool {
    &&& all_from(rows, depth)
    &&& forall|r: int|
        0 <= r < rows.len() && (#[trigger] rows[r]) is File ==> at_home(
            items,
            rows[r]->File_index,
            home(rows, r, row_depth(rows[r]), parent),
            parent,
        ) && (row_depth(rows[r]) > depth ==> found(rows, r, row_depth(rows[r])))
}

proof fn lemma_walk_home(
    items: Seq<ItemView>,
    parent: Seq<char>,
    depth: int,
    collapsed: Set<Seq<char>>,
)
    requires
        clean(items),
    ensures
        rows_at_home(items, walk(items, parent, depth, collapsed), parent, depth),
    decreases weight(items), 1nat, 0nat,
{
    let names = dir_names(items);
    lemma_walk_from(items, parent, depth, collapsed);
    lemma_names_filled(items);
    lemma_dirs_home(names, items, parent, depth, collapsed);
    let a = walk_dirs(names, items, parent, depth, collapsed);
    let files = ordered_files(items);
    let b = file_rows(files, depth);
    let rows = walk(items, parent, depth, collapsed);
    law_files_are_sorted(items);
    assert forall|r: int| 0 <= r < rows.len() && (#[trigger] rows[r]) is File implies at_home(
        items,
        rows[r]->File_index,
        home(rows, r, row_depth(rows[r]), parent),
        parent,
    ) && (row_depth(rows[r]) > depth ==> found(rows, r, row_depth(rows[r]))) by {
        let d = row_depth(rows[r]);
        if r < a.len() {
            assert(rows[r] == a[r]);
            lemma_home_same(a, b, r, d, parent);
            if d > depth {
                assert(found(a, r, d));
                let q = choose|q: int|
                    0 <= q < r && (#[trigger] a[q]) is Directory && row_depth(a[q]) == d - 1;
                assert(rows[q] == a[q]);
            }
        } else {
            let s = r - a.len();
            assert(rows[r] == b[s]);
            let f = files[s];
            assert(items.contains(f));
            let k = choose|k: int| 0 <= k < items.len() && items[k] == f;
            assert(items[k].parts.len() == 1);
            assert(join(f.parts, seq!['/']) == f.parts[0]);
            lemma_top_home(rows, r, depth, parent);
            assert(items[k].index == rows[r]->File_index);
        }
    }
}

proof fn lemma_top_home(rows: Seq<RowView>, r: int, depth: int, parent: Seq<char>)
    requires
        0 <= r <= rows.len(),
        all_from(rows, depth),
    ensures
        home(rows, r, depth, parent) == parent,
    decreases r,
{
    if r > 0 {
        assert(row_depth(rows[r - 1]) >= depth);
        lemma_top_home(rows, r - 1, depth, parent);
    }
}

/// Every directory's name is filled.
proof fn lemma_names_filled(items: Seq<ItemView>)
    requires
        clean(items),
    ensures
        forall|n: Seq<char>| #[trigger] dir_names(items).contains(n) ==> n.len() > 0,
{
    assert forall|n: Seq<char>| #[trigger] dir_names(items).contains(n) implies n.len() > 0 by {
        lemma_ordered_holds(dedupe(first_dirs(items)), n);
        law_dedupe(first_dirs(items));
        assert(dedupe(first_dirs(items)).contains(n));
        lemma_first_filled(items, n);
    }
}

proof fn lemma_first_filled(items: Seq<ItemView>, n: Seq<char>)
    requires
        clean(items),
        first_dirs(items).contains(n),
    ensures
        n.len() > 0,
    decreases items.len(),
{
    if items.len() > 0 {
        let before = items.drop_last();
        let all = first_dirs(items);
        let less = first_dirs(before);
        let j = choose|j: int| 0 <= j < all.len() && all[j] == n;
        assert(items[items.len() - 1] == items.last());
        assert forall|k: int| 0 <= k < before.len() implies (#[trigger] before[k]).parts.len() > 0 && (
        forall|i: int| 0 <= i < before[k].parts.len() ==> (#[trigger] before[k].parts[i]).len() > 0) by {
            assert(before[k] == items[k]);
        }
        if j < less.len() {
            assert(less[j] == n);
            lemma_first_filled(before, n);
        } else {
            assert(items[items.len() - 1].parts[0].len() > 0);
        }
    }
}

proof fn lemma_dirs_home(
    names: Seq<Seq<char>>,
    items: Seq<ItemView>,
    parent: Seq<char>,
    depth: int,
    collapsed: Set<Seq<char>>,
)
    requires
        clean(items),
        forall|n: Seq<char>| #[trigger] names.contains(n) ==> n.len() > 0,
    ensures
        rows_at_home(items, walk_dirs(names, items, parent, depth, collapsed), parent, depth),
        forall|r: int|
            0 <= r < walk_dirs(names, items, parent, depth, collapsed).len() && (#[trigger] walk_dirs(
                names,
                items,
                parent,
                depth,
                collapsed,
            )[r]) is File ==> row_depth(walk_dirs(names, items, parent, depth, collapsed)[r]) > depth,
    decreases weight(items), 0nat, names.len(),
{
    if names.len() > 0 {
        let prev = names.drop_last();
        assert forall|n: Seq<char>| #[trigger] prev.contains(n) implies n.len() > 0 by {
            let k = choose|k: int| 0 <= k < prev.len() && prev[k] == n;
            assert(names[k] == n);
            assert(names.contains(n));
        }
        assert(names[names.len() - 1] == names.last());
        assert(names.contains(names.last()));
        lemma_dirs_home(prev, items, parent, depth, collapsed);
        lemma_dir_home(names.last(), items, parent, depth, collapsed);
        let a = walk_dirs(prev, items, parent, depth, collapsed);
        let b = walk_dir(names.last(), items, parent, depth, collapsed);
        let rows = walk_dirs(names, items, parent, depth, collapsed);
        assert(rows == a + b);
        assert forall|r: int| 0 <= r < rows.len() implies row_depth(#[trigger] rows[r]) >= depth by {
            if r < a.len() {
                assert(rows[r] == a[r]);
            } else {
                assert(rows[r] == b[r - a.len()]);
            }
        }
        assert forall|r: int| 0 <= r < rows.len() && (#[trigger] rows[r]) is File implies at_home(
            items,
            rows[r]->File_index,
            home(rows, r, row_depth(rows[r]), parent),
            parent,
        ) && row_depth(rows[r]) > depth && found(rows, r, row_depth(rows[r])) by {
            let d = row_depth(rows[r]);
            if r < a.len() {
                assert(rows[r] == a[r]);
                lemma_home_same(a, b, r, d, parent);
                assert(found(a, r, d));
                let q = choose|q: int|
                    0 <= q < r && (#[trigger] a[q]) is Directory && row_depth(a[q]) == d - 1;
                assert(rows[q] == a[q]);
            } else {
                let s = r - a.len();
                assert(rows[r] == b[s]);
                assert(found(b, s, d));
                lemma_home_found(a, b, s, d, parent, parent);
            }
        }
    }
}

proof fn lemma_dir_home(
    first: Seq<char>,
    items: Seq<ItemView>,
    parent: Seq<char>,
    depth: int,
    collapsed: Set<Seq<char>>,
)
    requires
        clean(items),
        first.len() > 0,
    ensures
        rows_at_home(items, walk_dir(first, items, parent, depth, collapsed), parent, depth),
        forall|r: int|
            0 <= r < walk_dir(first, items, parent, depth, collapsed).len() && (#[trigger] walk_dir(
                first,
                items,
                parent,
                depth,
                collapsed,
            )[r]) is File ==> row_depth(walk_dir(first, items, parent, depth, collapsed)[r]) > depth,
    decreases weight(items), 0nat, 0nat,
{
    let low = under(items, first);
    let (name, inner) = compact(first, low);
    let path = joined(parent, name);
    let expanded = !collapsed.contains(path);
    let row = RowView::Directory { path, name, depth, expanded };
    let rows = walk_dir(first, items, parent, depth, collapsed);
    lemma_under(items, first);
    lemma_compact_clean(first, low);
    if expanded && weight(inner) < weight(items) {
        let a = seq![row];
        let b = walk(inner, path, depth + 1, collapsed);
        assert(rows == a + b);
        lemma_walk_home(inner, path, depth + 1, collapsed);
        assert forall|r: int| 0 <= r < rows.len() implies row_depth(#[trigger] rows[r]) >= depth by {
            if r > 0 {
                assert(rows[r] == b[r - 1]);
            }
        }
        assert forall|r: int| 0 <= r < rows.len() && (#[trigger] rows[r]) is File implies at_home(
            items,
            rows[r]->File_index,
            home(rows, r, row_depth(rows[r]), parent),
            parent,
        ) && row_depth(rows[r]) > depth && found(rows, r, row_depth(rows[r])) by {
            let s = r - 1;
            let d = row_depth(rows[r]);
            assert(rows[r] == b[s]);
            assert(row_depth(b[s]) >= depth + 1);
            if d > depth + 1 {
                lemma_home_found(a, b, s, d, parent, path);
            } else {
                lemma_home_not_found(a, b, s, d, parent);
                lemma_top_home(b, s, depth + 1, path);
                assert(rows[0] == row);
                assert(home(a, 1, d, parent) == path) by {
                    assert(a[0] == row);
                }
            }
            lemma_compact_up(
                first,
                low,
                rows[r]->File_index,
                home(rows, r, d, parent),
                parent,
            );
            lemma_at_home_up(items, first, rows[r]->File_index, home(rows, r, d, parent), parent);
        }
    } else {
        assert(rows =~= seq![row]);
        assert(rows[0] == row);
    }
}

/// Every file's row stands in the directory of the file: the path of the nearest directory
/// before it that is one level up, a slash, and the name of the file are the file's path. A
/// file at the top stands in no directory.
pub proof fn law_files_stand_in_their_directory(
    items: Seq<ItemView>,
    collapsed: Set<Seq<char>>,
    r: int,
)
    requires
        clean(items),
        0 <= r < walk(items, Seq::empty(), 0, collapsed).len(),
        walk(items, Seq::empty(), 0, collapsed)[r] is File,
    ensures
        ({
            let rows = walk(items, Seq::empty(), 0, collapsed);
            let dir = home(rows, r, row_depth(rows[r]), Seq::empty());
            exists|k: int|
                0 <= k < items.len() && (#[trigger] items[k]).index == rows[r]->File_index && joined(
                    dir,
                    items[k].parts.last(),
                ) == join(items[k].parts, seq!['/'])
        }),
{
    let none = Seq::<char>::empty();
    lemma_walk_home(items, none, 0, collapsed);
    let rows = walk(items, none, 0, collapsed);
    let dir = home(rows, r, row_depth(rows[r]), none);
    assert(at_home(items, rows[r]->File_index, dir, none));
    let k = choose|k: int|
        0 <= k < items.len() && (#[trigger] items[k]).index == rows[r]->File_index && items[k].parts.len()
            > 0 && joined(dir, items[k].parts.last()) == full_path(none, items[k]);
    assert(full_path(none, items[k]) == join(items[k].parts, seq!['/']));
}

/// The items of a tree are the paths that it was made of, taken apart at their slashes, each
/// with its number and in order.
pub proof fn law_tree_is_made_of_its_paths(
    paths: Seq<(usize, Seq<char>)>,
    index: usize,
    parts: Seq<Seq<char>>,
)
    requires
        parts.len() > 0,
        forall|i: int|
            0 <= i < parts.len() ==> (#[trigger] parts[i]).len() > 0 && !has_char(parts[i], '/'),
    ensures
        tree_items(paths.push((index, join(parts, seq!['/'])))) == tree_items(paths).push(
            ItemView { parts, index },
        ),
{
    let path = join(parts, seq!['/']);
    let all = paths.push((index, path));
    assert(all.drop_last() =~= paths);
    law_split_of_join(parts, '/');
    lemma_all_named(parts);
}

proof fn lemma_all_named(parts: Seq<Seq<char>>)
    requires
        forall|i: int| 0 <= i < parts.len() ==> (#[trigger] parts[i]).len() > 0,
    ensures
        path_parts(parts) == parts,
    decreases parts.len(),
{
    if parts.len() > 0 {
        let before = parts.drop_last();
        assert forall|i: int| 0 <= i < before.len() implies (#[trigger] before[i]).len() > 0 by {
            assert(before[i] == parts[i]);
        }
        lemma_all_named(before);
        assert(parts[parts.len() - 1].len() > 0);
        assert(path_parts(parts) =~= parts);
    } else {
        assert(path_parts(parts) =~= parts);
    }
}

} // verus!

//! A virtual tree of repo-relative paths. It never reads the file system:
//! deleted and historical files have rows too.

use vstd::prelude::*;

pub mod laws;

use crate::path_set::PathSet;
use crate::scan::{less, lex_less};
use crate::text::{
    after, chars_of, dedupe, has_prefix, law_dedupe, lower, lowercase, pieces, push_all, same,
    slice_of, split, split_on, text_of,
};

verus! {

/// One visible row of a tree.
#[derive(Debug, PartialEq, Eq)]
pub enum Row {
    Directory { path: String, name: String, depth: usize, expanded: bool },
    File { index: usize, depth: usize },
}

/// What a [`Row`] shows.
#[verifier::ext_equal]
pub enum RowView {
    Directory { path: Seq<char>, name: Seq<char>, depth: int, expanded: bool },
    File { index: usize, depth: int },
}

impl View for Row {
    type V = RowView;

    open spec fn view(&self) -> RowView {
        match self {
            Row::Directory { path, name, depth, expanded } => RowView::Directory {
                path: path@,
                name: name@,
                depth: *depth as int,
                expanded: *expanded,
            },
            Row::File { index, depth } => RowView::File { index: *index, depth: *depth as int },
        }
    }
}

pub open spec fn rows_view(v: Seq<Row>) -> Seq<RowView> {
    v.map_values(|r: Row| r@)
}

pub open spec fn row_depth(r: RowView) -> int {
    match r {
        RowView::Directory { depth, .. } => depth,
        RowView::File { depth, .. } => depth,
    }
}

impl Row {
    pub fn depth(&self) -> (r: usize)
        ensures
            r == row_depth(self@),
    {
        match self {
            Row::Directory { depth, .. } => *depth,
            Row::File { depth, .. } => *depth,
        }
    }

    /// Whether a directory row is expanded; nothing for files.
    pub fn expanded(&self) -> (r: Option<bool>)
        ensures
            r == (match self@ {
                RowView::Directory { expanded, .. } => Some(expanded),
                RowView::File { .. } => None,
            }),
    {
        match self {
            Row::Directory { expanded, .. } => Some(*expanded),
            Row::File { .. } => None,
        }
    }
}

impl Clone for Row {
    fn clone(&self) -> (r: Row)
        ensures
            r@ == self@,
    {
        match self {
            Row::Directory { path, name, depth, expanded } => Row::Directory {
                path: path.clone(),
                name: name.clone(),
                depth: *depth,
                expanded: *expanded,
            },
            Row::File { index, depth } => Row::File { index: *index, depth: *depth },
        }
    }
}

/// One file: the parts of its path below some directory, and its number.
pub struct Item {
    parts: Vec<Vec<char>>,
    index: usize,
}

#[verifier::ext_equal]
pub struct ItemView {
    pub parts: Seq<Seq<char>>,
    pub index: usize,
}

impl View for Item {
    type V = ItemView;

    closed spec fn view(&self) -> ItemView {
        ItemView { parts: pieces(self.parts@), index: self.index }
    }
}

pub open spec fn items_view(v: Seq<Item>) -> Seq<ItemView> {
    v.map_values(|i: Item| i@)
}

// ---- Names and their order ----

/// Whether `a` comes before `b`: by lower-case form, then as written.
pub open spec fn name_less(a: Seq<char>, b: Seq<char>) -> bool {
    lex_less(lower(a), lower(b)) || (lower(a) == lower(b) && lex_less(a, b))
}

fn name_before(a: &[char], b: &[char]) -> (r: bool)
    ensures
        r == name_less(a@, b@),
{
    let sa = text_of(a);
    let sb = text_of(b);
    let la = lowercase(sa.as_str());
    let lb = lowercase(sb.as_str());
    let ca = chars_of(la.as_str());
    let cb = chars_of(lb.as_str());
    less(&ca, &cb) || (same(&ca, &cb) && less(a, b))
}

/// `list` with `x` put before the first name that `x` comes before.
pub open spec fn place(list: Seq<Seq<char>>, x: Seq<char>) -> Seq<Seq<char>>
    decreases list.len(),
{
    if list.len() == 0 {
        seq![x]
    } else if name_less(x, list[0]) {
        seq![x] + list
    } else {
        seq![list[0]] + place(after_first(list), x)
    }
}

pub open spec fn after_first(list: Seq<Seq<char>>) -> Seq<Seq<char>> {
    list.subrange(1, list.len() as int)
}

/// The names in order.
pub open spec fn ordered(list: Seq<Seq<char>>) -> Seq<Seq<char>>
    decreases list.len(),
{
    if list.len() == 0 {
        Seq::empty()
    } else {
        place(ordered(list.drop_last()), list.last())
    }
}

/// `files` with `x` put before the first file whose name `x`'s comes before:
/// files of one name stay in the order in which they came.
pub open spec fn place_file(files: Seq<ItemView>, x: ItemView) -> Seq<ItemView>
    decreases files.len(),
{
    if files.len() == 0 {
        seq![x]
    } else if name_less(x.parts[0], files[0].parts[0]) {
        seq![x] + files
    } else {
        seq![files[0]] + place_file(files.subrange(1, files.len() as int), x)
    }
}

/// The files among `items` (those with one part left), in order.
pub open spec fn ordered_files(items: Seq<ItemView>) -> Seq<ItemView>
    decreases items.len(),
{
    if items.len() == 0 {
        Seq::empty()
    } else if items.last().parts.len() == 1 {
        place_file(ordered_files(items.drop_last()), items.last())
    } else {
        ordered_files(items.drop_last())
    }
}

/// The directories that the items name first, as they come.
pub open spec fn first_dirs(items: Seq<ItemView>) -> Seq<Seq<char>>
    decreases items.len(),
{
    if items.len() == 0 {
        Seq::empty()
    } else if items.last().parts.len() >= 2 {
        first_dirs(items.drop_last()).push(items.last().parts[0])
    } else {
        first_dirs(items.drop_last())
    }
}

/// The directories right below, each once and in order.
pub open spec fn dir_names(items: Seq<ItemView>) -> Seq<Seq<char>> {
    ordered(dedupe(first_dirs(items)))
}

/// The items inside directory `name`, with that part dropped.
pub open spec fn under(items: Seq<ItemView>, name: Seq<char>) -> Seq<ItemView>
    decreases items.len(),
{
    if items.len() == 0 {
        Seq::empty()
    } else {
        let x = items.last();
        let rest = under(items.drop_last(), name);
        if x.parts.len() >= 2 && x.parts[0] == name {
            rest.push(ItemView { parts: x.parts.subrange(1, x.parts.len() as int), index: x.index })
        } else {
            rest
        }
    }
}

/// How many parts the items have in all.
pub open spec fn weight(items: Seq<ItemView>) -> nat
    decreases items.len(),
{
    if items.len() == 0 {
        0
    } else {
        weight(items.drop_last()) + items.last().parts.len()
    }
}

/// Whether a directory with these items holds one directory and nothing else.
pub open spec fn single(items: Seq<ItemView>) -> bool {
    &&& items.len() > 0
    &&& forall|i: int|
        0 <= i < items.len() ==> (#[trigger] items[i]).parts.len() >= 2 && items[i].parts[0]
            == items[0].parts[0]
}

/// The name and the items of a directory after taking in directories that are
/// the only thing inside it.
pub open spec fn compact(name: Seq<char>, items: Seq<ItemView>) -> (Seq<char>, Seq<ItemView>)
    decreases weight(items),
{
    if single(items) && weight(under(items, items[0].parts[0])) < weight(items) {
        compact(name + seq!['/'] + items[0].parts[0], under(items, items[0].parts[0]))
    } else {
        (name, items)
    }
}

/// `child` below `parent`.
pub open spec fn joined(parent: Seq<char>, child: Seq<char>) -> Seq<char> {
    if parent.len() == 0 {
        child
    } else {
        parent + seq!['/'] + child
    }
}

/// Whether `c` is `path` or a directory above it.
pub open spec fn at_or_above(c: Seq<char>, path: Seq<char>) -> bool {
    path == c || (has_prefix(path, c) && path.len() > c.len() && path[c.len() as int] == '/')
}

/// Whether what is in a directory is shown: unless its own path is collapsed.
pub open spec fn is_expanded(path: Seq<char>, collapsed: Set<Seq<char>>) -> bool {
    !collapsed.contains(path)
}

pub open spec fn file_rows(files: Seq<ItemView>, depth: int) -> Seq<RowView> {
    files.map_values(|f: ItemView| RowView::File { index: f.index, depth })
}

/// The visible rows for `items` below `parent`: the directories in order, each
/// followed by what is in it where it is expanded, and then the files.
pub open spec fn walk(
    items: Seq<ItemView>,
    parent: Seq<char>,
    depth: int,
    collapsed: Set<Seq<char>>,
) -> Seq<RowView>
    decreases weight(items), 1nat, 0nat,
{
    walk_dirs(dir_names(items), items, parent, depth, collapsed) + file_rows(
        ordered_files(items),
        depth,
    )
}

pub open spec fn walk_dirs(
    names: Seq<Seq<char>>,
    items: Seq<ItemView>,
    parent: Seq<char>,
    depth: int,
    collapsed: Set<Seq<char>>,
) -> Seq<RowView>
    decreases weight(items), 0nat, names.len(),
{
    if names.len() == 0 {
        Seq::empty()
    } else {
        walk_dirs(names.drop_last(), items, parent, depth, collapsed) + walk_dir(
            names.last(),
            items,
            parent,
            depth,
            collapsed,
        )
    }
}

/// The row of one directory and, where it is expanded, what is in it.
pub open spec fn walk_dir(
    first: Seq<char>,
    items: Seq<ItemView>,
    parent: Seq<char>,
    depth: int,
    collapsed: Set<Seq<char>>,
) -> Seq<RowView>
    decreases weight(items), 0nat, 0nat,
{
    let (name, inner) = compact(first, under(items, first));
    let path = joined(parent, name);
    let expanded = is_expanded(path, collapsed);
    let row = RowView::Directory { path, name, depth, expanded };
    if expanded && weight(inner) < weight(items) {
        seq![row] + walk(inner, path, depth + 1, collapsed)
    } else {
        seq![row]
    }
}

// ---- Ordering ----

proof fn lemma_place_at(list: Seq<Seq<char>>, x: Seq<char>, j: int)
    requires
        0 <= j <= list.len(),
        forall|k: int| 0 <= k < j ==> !name_less(x, #[trigger] list[k]),
        j < list.len() ==> name_less(x, list[j]),
    ensures
        place(list, x) == list.insert(j, x),
    decreases list.len(),
{
    if list.len() == 0 {
        assert(list.insert(j, x) =~= seq![x]);
    } else if j == 0 {
        assert(list.insert(0, x) =~= seq![x] + list);
    } else {
        let rest = after_first(list);
        assert forall|k: int| 0 <= k < j - 1 implies !name_less(x, #[trigger] rest[k]) by {
            assert(rest[k] == list[k + 1]);
        }
        lemma_place_at(rest, x, j - 1);
        assert(list.insert(j, x) =~= seq![list[0]] + rest.insert(j - 1, x));
    }
}

proof fn lemma_place_file_at(files: Seq<ItemView>, x: ItemView, j: int)
    requires
        0 <= j <= files.len(),
        forall|k: int| 0 <= k < j ==> !name_less(x.parts[0], (#[trigger] files[k]).parts[0]),
        j < files.len() ==> name_less(x.parts[0], files[j].parts[0]),
    ensures
        place_file(files, x) == files.insert(j, x),
    decreases files.len(),
{
    if files.len() == 0 {
        assert(files.insert(j, x) =~= seq![x]);
    } else if j == 0 {
        assert(files.insert(0, x) =~= seq![x] + files);
    } else {
        let rest = files.subrange(1, files.len() as int);
        assert forall|k: int| 0 <= k < j - 1 implies !name_less(
            x.parts[0],
            (#[trigger] rest[k]).parts[0],
        ) by {
            assert(rest[k] == files[k + 1]);
        }
        lemma_place_file_at(rest, x, j - 1);
        assert(files.insert(j, x) =~= seq![files[0]] + rest.insert(j - 1, x));
    }
}

fn place_name(list: &mut Vec<Vec<char>>, x: Vec<char>)
    ensures
        pieces(final(list)@) == place(pieces(old(list)@), x@),
{
    let mut j: usize = 0;
    while j < list.len() && !name_before(&x, &list[j])
        invariant
            j <= list@.len(),
            list@ == old(list)@,
            forall|k: int| 0 <= k < j ==> !name_less(x@, #[trigger] pieces(list@)[k]),
        decreases list@.len() - j,
    {
        assert(pieces(list@)[j as int] == list@[j as int]@);
        j += 1;
    }
    proof {
        assert(pieces(list@).len() == list@.len());
        if j < list@.len() {
            assert(pieces(list@)[j as int] == list@[j as int]@);
        }
        lemma_place_at(pieces(list@), x@, j as int);
    }
    list.insert(j, x);
    assert(pieces(list@) =~= pieces(old(list)@).insert(j as int, x@));
}

fn copy_piece(v: &Vec<char>) -> (r: Vec<char>)
    ensures
        r@ == v@,
{
    let r = slice_of(v, 0, v.len());
    assert(r@ =~= v@);
    r
}

fn holds_piece(list: &Vec<Vec<char>>, x: &Vec<char>) -> (r: bool)
    ensures
        r == pieces(list@).contains(x@),
{
    let mut i: usize = 0;
    while i < list.len()
        invariant
            i <= list@.len(),
            forall|k: int| 0 <= k < i ==> list@[k]@ != x@,
        decreases list@.len() - i,
    {
        if same(&list[i], x) {
            assert(pieces(list@)[i as int] == x@);
            return true;
        }
        i += 1;
    }
    assert forall|k: int| 0 <= k < pieces(list@).len() implies pieces(list@)[k] != x@ by {
        assert(pieces(list@)[k] == list@[k]@);
    }
    false
}

/// The directories that the items name first, each once, as they come.
fn read_dirs(items: &Vec<Item>) -> (r: Vec<Vec<char>>)
    ensures
        pieces(r@) == dedupe(first_dirs(items_view(items@))),
{
    let mut out: Vec<Vec<char>> = Vec::new();
    let mut i: usize = 0;
    let ghost all = items_view(items@);
    assert(all.take(0) =~= Seq::empty());
    assert(pieces(out@) =~= Seq::empty());
    while i < items.len()
        invariant
            i <= items@.len(),
            all == items_view(items@),
            pieces(out@) == dedupe(first_dirs(all.take(i as int))),
        decreases items@.len() - i,
    {
        let ghost seen = first_dirs(all.take(i as int));
        proof {
            assert(all.take(i + 1).drop_last() =~= all.take(i as int));
            assert(all.take(i + 1).last() == items@[i as int]@);
        }
        if items[i].parts.len() >= 2 {
            let ghost first = items@[i as int]@.parts[0];
            assert(first == items@[i as int].parts@[0]@);
            assert(seen.push(first).drop_last() =~= seen);
            if !holds_piece(&out, &items[i].parts[0]) {
                let c = copy_piece(&items[i].parts[0]);
                let ghost before = out@;
                out.push(c);
                assert(pieces(out@) =~= pieces(before).push(first));
            }
        }
        i += 1;
    }
    assert(all.take(i as int) =~= all);
    out
}

fn read_dir_names(items: &Vec<Item>) -> (r: Vec<Vec<char>>)
    ensures
        pieces(r@) == dir_names(items_view(items@)),
{
    let names = read_dirs(items);
    let mut out: Vec<Vec<char>> = Vec::new();
    let mut i: usize = 0;
    let ghost all = pieces(names@);
    assert(all.take(0) =~= Seq::empty());
    assert(pieces(out@) =~= Seq::empty());
    while i < names.len()
        invariant
            i <= names@.len(),
            all == pieces(names@),
            pieces(out@) == ordered(all.take(i as int)),
        decreases names@.len() - i,
    {
        proof {
            assert(all.take(i + 1).drop_last() =~= all.take(i as int));
            assert(all.take(i + 1).last() == names@[i as int]@);
        }
        let c = copy_piece(&names[i]);
        place_name(&mut out, c);
        i += 1;
    }
    assert(all.take(i as int) =~= all);
    out
}

fn place_item(files: &mut Vec<Item>, x: Item)
    requires
        x@.parts.len() == 1,
        forall|k: int| 0 <= k < old(files)@.len() ==> (#[trigger] old(files)@[k])@.parts.len() == 1,
    ensures
        items_view(final(files)@) == place_file(items_view(old(files)@), x@),
        forall|k: int| 0 <= k < final(files)@.len() ==> (#[trigger] final(files)@[k])@.parts.len() == 1,
{
    let mut j: usize = 0;
    while j < files.len() && !name_before(&x.parts[0], &files[j].parts[0])
        invariant
            j <= files@.len(),
            files@ == old(files)@,
            x@.parts.len() == 1,
            forall|k: int| 0 <= k < files@.len() ==> (#[trigger] files@[k])@.parts.len() == 1,
            forall|k: int|
                0 <= k < j ==> !name_less(
                    x@.parts[0],
                    (#[trigger] items_view(files@)[k]).parts[0],
                ),
        decreases files@.len() - j,
    {
        proof {
            assert(items_view(files@)[j as int] == files@[j as int]@);
            assert(x@.parts[0] == x.parts@[0]@);
            assert(files@[j as int]@.parts[0] == files@[j as int].parts@[0]@);
        }
        j += 1;
    }
    proof {
        assert(items_view(files@).len() == files@.len());
        assert(x@.parts[0] == x.parts@[0]@);
        if j < files@.len() {
            assert(items_view(files@)[j as int] == files@[j as int]@);
            assert(files@[j as int]@.parts[0] == files@[j as int].parts@[0]@);
        }
        lemma_place_file_at(items_view(files@), x@, j as int);
    }
    files.insert(j, x);
    assert(items_view(files@) =~= items_view(old(files)@).insert(j as int, x@));
}

fn read_files(items: &Vec<Item>) -> (r: Vec<Item>)
    ensures
        items_view(r@) == ordered_files(items_view(items@)),
{
    let mut out: Vec<Item> = Vec::new();
    let mut i: usize = 0;
    let ghost all = items_view(items@);
    assert(all.take(0) =~= Seq::empty());
    assert(items_view(out@) =~= Seq::empty());
    while i < items.len()
        invariant
            i <= items@.len(),
            all == items_view(items@),
            items_view(out@) == ordered_files(all.take(i as int)),
            forall|k: int| 0 <= k < out@.len() ==> (#[trigger] out@[k])@.parts.len() == 1,
        decreases items@.len() - i,
    {
        proof {
            assert(all.take(i + 1).drop_last() =~= all.take(i as int));
            assert(all.take(i + 1).last() == items@[i as int]@);
        }
        if items[i].parts.len() == 1 {
            let c = drop_parts(&items[i], 0);
            assert(c@ =~= items@[i as int]@);
            place_item(&mut out, c);
        }
        i += 1;
    }
    assert(all.take(i as int) =~= all);
    out
}

/// The item without its first `n` parts.
fn drop_parts(x: &Item, n: usize) -> (r: Item)
    requires
        n <= x@.parts.len(),
    ensures
        r@ == (ItemView {
            parts: x@.parts.subrange(n as int, x@.parts.len() as int),
            index: x@.index,
        }),
{
    let mut parts: Vec<Vec<char>> = Vec::new();
    let mut i: usize = n;
    while i < x.parts.len()
        invariant
            n <= i <= x.parts@.len(),
            pieces(parts@) =~= pieces(x.parts@).subrange(n as int, i as int),
        decreases x.parts@.len() - i,
    {
        let c = copy_piece(&x.parts[i]);
        let ghost before = parts@;
        parts.push(c);
        assert(pieces(parts@) =~= pieces(before).push(c@));
        i += 1;
    }
    Item { parts, index: x.index }
}

/// Reads the items inside directory `name`.
fn read_under(items: &Vec<Item>, name: &Vec<char>) -> (r: Vec<Item>)
    ensures
        items_view(r@) == under(items_view(items@), name@),
{
    let mut out: Vec<Item> = Vec::new();
    let mut i: usize = 0;
    let ghost all = items_view(items@);
    assert(all.take(0) =~= Seq::empty());
    assert(items_view(out@) =~= Seq::empty());
    while i < items.len()
        invariant
            i <= items@.len(),
            all == items_view(items@),
            items_view(out@) == under(all.take(i as int), name@),
        decreases items@.len() - i,
    {
        proof {
            assert(all.take(i + 1).drop_last() =~= all.take(i as int));
            assert(all.take(i + 1).last() == items@[i as int]@);
            assert(items@[i as int]@.parts.len() == items@[i as int].parts@.len());
        }
        if items[i].parts.len() >= 2 {
            assert(items@[i as int]@.parts[0] == items@[i as int].parts@[0]@);
            if same(&items[i].parts[0], name) {
                let c = drop_parts(&items[i], 1);
                let ghost before = out@;
                out.push(c);
                assert(items_view(out@) =~= items_view(before).push(c@));
            }
        }
        i += 1;
    }
    assert(all.take(i as int) =~= all);
    out
}

fn is_single(items: &Vec<Item>) -> (r: bool)
    ensures
        r == single(items_view(items@)),
{
    let ghost all = items_view(items@);
    if items.len() == 0 {
        return false;
    }
    let mut i: usize = 0;
    while i < items.len()
        invariant
            i <= items@.len(),
            items@.len() > 0,
            all == items_view(items@),
            forall|k: int|
                0 <= k < i ==> (#[trigger] all[k]).parts.len() >= 2 && all[k].parts[0]
                    == all[0].parts[0],
        decreases items@.len() - i,
    {
        proof {
            assert(all[i as int] == items@[i as int]@);
            assert(all[0] == items@[0]@);
            assert(items@[i as int]@.parts.len() == items@[i as int].parts@.len());
        }
        if items[i].parts.len() < 2 {
            assert(!(all[i as int].parts.len() >= 2));
            return false;
        }
        if i > 0 {
            assert(all[0].parts.len() >= 2);
            assert(all[0].parts[0] == items@[0].parts@[0]@);
            assert(all[i as int].parts[0] == items@[i as int].parts@[0]@);
            if !same(&items[i].parts[0], &items[0].parts[0]) {
                return false;
            }
        }
        i += 1;
    }
    true
}

proof fn lemma_under_weight(items: Seq<ItemView>, name: Seq<char>)
    ensures
        weight(under(items, name)) + under(items, name).len() <= weight(items),
        under(items, name).len() <= items.len(),
    decreases items.len(),
{
    if items.len() > 0 {
        lemma_under_weight(items.drop_last(), name);
        let x = items.last();
        let rest = under(items.drop_last(), name);
        if x.parts.len() >= 2 && x.parts[0] == name {
            let y = ItemView { parts: x.parts.subrange(1, x.parts.len() as int), index: x.index };
            assert(rest.push(y).drop_last() =~= rest);
        }
    }
}

/// A directory that some item names holds that item.
proof fn lemma_under_nonempty(items: Seq<ItemView>, name: Seq<char>, i: int)
    requires
        0 <= i < items.len(),
        items[i].parts.len() >= 2,
        items[i].parts[0] == name,
    ensures
        under(items, name).len() > 0,
        weight(under(items, name)) < weight(items),
    decreases items.len(),
{
    lemma_under_weight(items, name);
    if i < items.len() - 1 {
        assert(items.drop_last()[i] == items[i]);
        lemma_under_nonempty(items.drop_last(), name, i);
    }
}

/// Every part of an item inside a directory was a part of that item before.
proof fn lemma_under_lengths(items: Seq<ItemView>, name: Seq<char>, bound: int)
    requires
        forall|i: int| 0 <= i < items.len() ==> (#[trigger] items[i]).parts.len() <= bound,
    ensures
        forall|i: int|
            0 <= i < under(items, name).len() ==> 1 <= (#[trigger] under(
                items,
                name,
            )[i]).parts.len() <= bound - 1,
    decreases items.len(),
{
    if items.len() > 0 {
        let prev = items.drop_last();
        assert forall|i: int| 0 <= i < prev.len() implies (#[trigger] prev[i]).parts.len() <= bound by {
            assert(prev[i] == items[i]);
        }
        lemma_under_lengths(prev, name, bound);
        assert(items[items.len() - 1].parts.len() <= bound);
        let rest = under(prev, name);
        let out = under(items, name);
        assert forall|i: int| 0 <= i < out.len() implies 1 <= (#[trigger] out[i]).parts.len() <= bound
            - 1 by {
            if i < rest.len() {
                assert(out[i] == rest[i]);
            }
        }
    }
}

/// What compacting leaves: no more weight than before, and shorter items where
/// it took a directory in.
proof fn lemma_compact(name: Seq<char>, items: Seq<ItemView>, bound: int)
    requires
        forall|i: int| 0 <= i < items.len() ==> (#[trigger] items[i]).parts.len() <= bound,
        forall|i: int| 0 <= i < items.len() ==> (#[trigger] items[i]).parts.len() >= 1,
    ensures
        weight(compact(name, items).1) <= weight(items),
        forall|i: int|
            0 <= i < compact(name, items).1.len() ==> 1 <= (#[trigger] compact(
                name,
                items,
            ).1[i]).parts.len() <= bound,
    decreases weight(items),
{
    if single(items) && weight(under(items, items[0].parts[0])) < weight(items) {
        let c = items[0].parts[0];
        lemma_under_lengths(items, c, bound);
        lemma_compact(name + seq!['/'] + c, under(items, c), bound);
    }
}

fn read_compact(name: Vec<char>, items: Vec<Item>) -> (r: (Vec<char>, Vec<Item>))
    ensures
        compact(name@, items_view(items@)) == (r.0@, items_view(r.1@)),
    decreases weight(items_view(items@)),
{
    let ghost all = items_view(items@);
    if is_single(&items) {
        proof {
            assert(all[0] == items@[0]@);
            assert(items@[0]@.parts.len() == items@[0].parts@.len());
            assert(all[0].parts[0] == items@[0].parts@[0]@);
            lemma_under_nonempty(all, all[0].parts[0], 0);
        }
        let mut longer = name;
        longer.push('/');
        push_all(&mut longer, &items[0].parts[0]);
        let inner = read_under(&items, &items[0].parts[0]);
        assert(longer@ =~= name@ + seq!['/'] + all[0].parts[0]);
        read_compact(longer, inner)
    } else {
        (name, items)
    }
}

fn join(parent: &Vec<char>, child: &Vec<char>) -> (r: Vec<char>)
    ensures
        r@ == joined(parent@, child@),
{
    if parent.len() == 0 {
        copy_piece(child)
    } else {
        let mut r = copy_piece(parent);
        r.push('/');
        push_all(&mut r, child);
        assert(r@ =~= joined(parent@, child@));
        r
    }
}

fn read_expanded(path: &Vec<char>, collapsed: &PathSet) -> (r: bool)
    ensures
        r == is_expanded(path@, collapsed@),
{
    let text = text_of(path);
    !collapsed.contains(text.as_str())
}

/// Appends the rows of one directory.
fn push_dir(
    first: &Vec<char>,
    items: &Vec<Item>,
    parent: &Vec<char>,
    depth: usize,
    collapsed: &PathSet,
    rows: &mut Vec<Row>,
)
    requires
        first_dirs(items_view(items@)).contains(first@),
        forall|i: int|
            0 <= i < items@.len() ==> depth + (#[trigger] items@[i])@.parts.len() <= usize::MAX,
    ensures
        rows_view(final(rows)@) == rows_view(old(rows)@) + walk_dir(
            first@,
            items_view(items@),
            parent@,
            depth as int,
            collapsed@,
        ),
    decreases weight(items_view(items@)), 0nat,
{
    let ghost all = items_view(items@);
    let ghost bound = usize::MAX - depth;
    let inner = read_under(items, first);
    let start = copy_piece(first);
    proof {
        lemma_first_dirs(all, first@);
        let k = choose|k: int|
            0 <= k < all.len() && all[k].parts.len() >= 2 && all[k].parts[0] == first@;
        lemma_under_nonempty(all, first@, k);
        assert forall|i: int| 0 <= i < all.len() implies (#[trigger] all[i]).parts.len() <= bound by {
            assert(all[i] == items@[i]@);
        }
        lemma_under_lengths(all, first@, bound);
        lemma_compact(first@, under(all, first@), bound - 1);
        lemma_under_weight(all, first@);
        assert(all[k] == items@[k]@);
    }
    let (name, inner) = read_compact(start, inner);
    let path = join(parent, &name);
    let expanded = read_expanded(&path, collapsed);
    let row = Row::Directory { path: text_of(&path), name: text_of(&name), depth, expanded };
    let ghost before = rows@;
    let ghost shown = row@;
    rows.push(row);
    assert(rows_view(rows@) =~= rows_view(before).push(shown));
    if expanded {
        assert forall|i: int| 0 <= i < inner@.len() implies depth + 1 + (#[trigger] inner@[i])@.parts.len()
            <= usize::MAX by {
            assert(items_view(inner@)[i] == inner@[i]@);
        }
        push_walk(&inner, &path, depth + 1, collapsed, rows);
        assert(rows_view(rows@) =~= rows_view(before) + (seq![shown] + walk(
            items_view(inner@),
            path@,
            depth + 1,
            collapsed@,
        )));
    } else {
        assert(rows_view(rows@) =~= rows_view(before) + seq![shown]);
    }
}

/// Every directory that the items name first belongs to one of them.
proof fn lemma_first_dirs(items: Seq<ItemView>, name: Seq<char>)
    requires
        first_dirs(items).contains(name),
    ensures
        exists|k: int|
            0 <= k < items.len() && (#[trigger] items[k]).parts.len() >= 2 && items[k].parts[0] == name,
    decreases items.len(),
{
    if items.len() > 0 {
        let prev = items.drop_last();
        let x = items.last();
        let list = first_dirs(items);
        let j = choose|j: int| 0 <= j < list.len() && list[j] == name;
        if x.parts.len() >= 2 && j == list.len() - 1 {
            assert(items[items.len() - 1].parts[0] == name);
        } else {
            assert(first_dirs(prev)[j] == name);
            lemma_first_dirs(prev, name);
            let k = choose|k: int|
                0 <= k < prev.len() && (#[trigger] prev[k]).parts.len() >= 2 && prev[k].parts[0] == name;
            assert(items[k] == prev[k]);
        }
    }
}

proof fn lemma_place_holds(list: Seq<Seq<char>>, x: Seq<char>, y: Seq<char>)
    ensures
        place(list, x).contains(y) == (list.contains(y) || y == x),
    decreases list.len(),
{
    let out = place(list, x);
    if list.len() == 0 {
        assert(out[0] == x);
    } else if name_less(x, list[0]) {
        assert(out[0] == x);
        if list.contains(y) {
            let k = choose|k: int| 0 <= k < list.len() && list[k] == y;
            assert(out[k + 1] == y);
        }
        if out.contains(y) {
            let k = choose|k: int| 0 <= k < out.len() && out[k] == y;
            if k > 0 {
                assert(list[k - 1] == y);
            }
        }
    } else {
        let rest = after_first(list);
        let tail = place(rest, x);
        lemma_place_holds(rest, x, y);
        if list.contains(y) {
            let k = choose|k: int| 0 <= k < list.len() && list[k] == y;
            if k > 0 {
                assert(rest[k - 1] == y);
            } else {
                assert(out[0] == y);
            }
        }
        if tail.contains(y) {
            let k = choose|k: int| 0 <= k < tail.len() && tail[k] == y;
            assert(out[k + 1] == y);
        }
        if out.contains(y) {
            let k = choose|k: int| 0 <= k < out.len() && out[k] == y;
            if k > 0 {
                assert(tail[k - 1] == y);
                if rest.contains(y) {
                    let m = choose|m: int| 0 <= m < rest.len() && rest[m] == y;
                    assert(list[m + 1] == y);
                }
            } else {
                assert(list[0] == y);
            }
        }
    }
}

/// Ordering names keeps them.
pub proof fn lemma_ordered_holds(list: Seq<Seq<char>>, y: Seq<char>)
    ensures
        ordered(list).contains(y) == list.contains(y),
    decreases list.len(),
{
    if list.len() > 0 {
        let prev = list.drop_last();
        lemma_ordered_holds(prev, y);
        lemma_place_holds(ordered(prev), list.last(), y);
        if list.contains(y) {
            let k = choose|k: int| 0 <= k < list.len() && list[k] == y;
            if k < prev.len() {
                assert(prev[k] == y);
            }
        }
        if prev.contains(y) {
            let k = choose|k: int| 0 <= k < prev.len() && prev[k] == y;
            assert(list[k] == y);
        }
        if y == list.last() {
            assert(list[list.len() - 1] == y);
        }
    }
}

/// Appends the visible rows for `items` below `parent`.
fn push_walk(
    items: &Vec<Item>,
    parent: &Vec<char>,
    depth: usize,
    collapsed: &PathSet,
    rows: &mut Vec<Row>,
)
    requires
        forall|i: int|
            0 <= i < items@.len() ==> depth + (#[trigger] items@[i])@.parts.len() <= usize::MAX,
    ensures
        rows_view(final(rows)@) == rows_view(old(rows)@) + walk(
            items_view(items@),
            parent@,
            depth as int,
            collapsed@,
        ),
    decreases weight(items_view(items@)), 1nat,
{
    let ghost all = items_view(items@);
    let names = read_dir_names(items);
    let ghost dirs = pieces(names@);
    let ghost before = rows_view(rows@);
    let mut i: usize = 0;
    assert(dirs.take(0) =~= Seq::empty());
    assert(before + walk_dirs(dirs.take(0), all, parent@, depth as int, collapsed@) =~= before);
    while i < names.len()
        invariant
            i <= names@.len(),
            dirs == pieces(names@),
            dirs == dir_names(all),
            all == items_view(items@),
            forall|i: int|
                0 <= i < items@.len() ==> depth + (#[trigger] items@[i])@.parts.len() <= usize::MAX,
            rows_view(rows@) == before + walk_dirs(
                dirs.take(i as int),
                all,
                parent@,
                depth as int,
                collapsed@,
            ),
        decreases names@.len() - i,
    {
        proof {
            assert(dirs.take(i + 1).drop_last() =~= dirs.take(i as int));
            assert(dirs.take(i + 1).last() == names@[i as int]@);
            assert(dirs[i as int] == names@[i as int]@);
            assert(dirs.contains(names@[i as int]@));
            lemma_ordered_holds(dedupe(first_dirs(all)), names@[i as int]@);
            law_dedupe(first_dirs(all));
        }
        let ghost so_far = rows_view(rows@);
        push_dir(&names[i], items, parent, depth, collapsed, rows);
        assert(rows_view(rows@) =~= before + walk_dirs(
            dirs.take(i + 1),
            all,
            parent@,
            depth as int,
            collapsed@,
        ));
        i += 1;
    }
    assert(dirs.take(i as int) =~= dirs);
    let files = read_files(items);
    let ghost upper = rows_view(rows@);
    let ghost want = file_rows(items_view(files@), depth as int);
    let mut k: usize = 0;
    assert(upper + want.take(0) =~= upper);
    while k < files.len()
        invariant
            k <= files@.len(),
            want == file_rows(items_view(files@), depth as int),
            rows_view(rows@) =~= upper + want.take(k as int),
        decreases files@.len() - k,
    {
        let row = Row::File { index: files[k].index, depth };
        let ghost so_far = rows@;
        let ghost shown = row@;
        assert(shown == want[k as int]);
        rows.push(row);
        assert(rows_view(rows@) =~= rows_view(so_far).push(shown));
        k += 1;
    }
    assert(want.take(k as int) =~= want);
    assert(rows_view(rows@) =~= before + walk(all, parent@, depth as int, collapsed@));
}

// ---- The tree ----

/// The parts of a path that are not empty.
pub open spec fn path_parts(parts: Seq<Seq<char>>) -> Seq<Seq<char>>
    decreases parts.len(),
{
    if parts.len() == 0 {
        Seq::empty()
    } else if parts.last().len() == 0 {
        path_parts(parts.drop_last())
    } else {
        path_parts(parts.drop_last()).push(parts.last())
    }
}

/// The items of numbered paths; a path without any part is none.
pub open spec fn tree_items(paths: Seq<(usize, Seq<char>)>) -> Seq<ItemView>
    decreases paths.len(),
{
    if paths.len() == 0 {
        Seq::empty()
    } else {
        let (index, path) = paths.last();
        let parts = path_parts(split(path, '/'));
        let rest = tree_items(paths.drop_last());
        if parts.len() == 0 {
            rest
        } else {
            rest.push(ItemView { parts, index })
        }
    }
}

pub open spec fn numbered(v: Seq<(usize, &str)>) -> Seq<(usize, Seq<char>)> {
    v.map_values(|p: (usize, &str)| (p.0, p.1@))
}

/// The changed files as a tree of directories.
pub struct Tree {
    items: Vec<Item>,
}

impl View for Tree {
    type V = Seq<ItemView>;

    closed spec fn view(&self) -> Seq<ItemView> {
        items_view(self.items@)
    }
}

impl Default for Tree {
    fn default() -> (r: Tree)
        ensures
            r@ == Seq::<ItemView>::empty(),
    {
        let r = Tree { items: Vec::new() };
        assert(r@ =~= Seq::empty());
        r
    }
}

fn read_path(path: &str) -> (r: Vec<Vec<char>>)
    ensures
        pieces(r@) == path_parts(split(path@, '/')),
{
    let v = chars_of(path);
    let parts = split_on(&v, '/');
    let ghost all = pieces(parts@);
    let mut out: Vec<Vec<char>> = Vec::new();
    let mut i: usize = 0;
    assert(all.take(0) =~= Seq::empty());
    assert(pieces(out@) =~= Seq::empty());
    while i < parts.len()
        invariant
            i <= parts@.len(),
            all == pieces(parts@),
            pieces(out@) == path_parts(all.take(i as int)),
        decreases parts@.len() - i,
    {
        proof {
            assert(all.take(i + 1).drop_last() =~= all.take(i as int));
            assert(all.take(i + 1).last() == parts@[i as int]@);
        }
        if parts[i].len() > 0 {
            let c = copy_piece(&parts[i]);
            let ghost before = out@;
            out.push(c);
            assert(pieces(out@) =~= pieces(before).push(c@));
        }
        i += 1;
    }
    assert(all.take(i as int) =~= all);
    out
}

/// The paths of the directories among the rows.
pub open spec fn dir_paths(rows: Seq<RowView>) -> Set<Seq<char>> {
    Set::new(
        |p: Seq<char>|
            exists|i: int|
                0 <= i < rows.len() && (#[trigger] rows[i]) is Directory && rows[i]->path == p,
    )
}

impl Tree {
    /// The tree of numbered paths.
    pub fn new(paths: &[(usize, &str)]) -> (r: Tree)
        ensures
            r@ == tree_items(numbered(paths@)),
    {
        let mut tree = Tree { items: Vec::new() };
        let mut i: usize = 0;
        let ghost all = numbered(paths@);
        assert(all.take(0) =~= Seq::empty());
        assert(tree@ =~= Seq::empty());
        while i < paths.len()
            invariant
                i <= paths@.len(),
                all == numbered(paths@),
                tree@ == tree_items(all.take(i as int)),
            decreases paths@.len() - i,
        {
            proof {
                assert(all.take(i + 1).drop_last() =~= all.take(i as int));
                assert(all.take(i + 1).last() == (paths@[i as int].0, paths@[i as int].1@));
            }
            tree.insert(paths[i].0, paths[i].1);
            i += 1;
        }
        assert(all.take(i as int) =~= all);
        tree
    }

    fn insert(&mut self, index: usize, path: &str)
        ensures
            ({
                let parts = path_parts(split(path@, '/'));
                final(self)@ == (if parts.len() == 0 {
                    old(self)@
                } else {
                    old(self)@.push(ItemView { parts, index })
                })
            }),
    {
        let parts = read_path(path);
        assert(parts@.len() == pieces(parts@).len());
        if parts.len() > 0 {
            let item = Item { parts, index };
            let ghost before = self.items@;
            self.items.push(item);
            assert(items_view(self.items@) =~= items_view(before).push(item@));
        }
    }

    /// The visible rows. A directory is expanded unless its compacted path is among
    /// those that are collapsed, so that paths that newly appear are visible.
    pub fn rows(&self, collapsed: &PathSet) -> (r: Vec<Row>)
        ensures
            rows_view(r@) == walk(self@, Seq::empty(), 0, collapsed@),
    {
        let mut rows: Vec<Row> = Vec::new();
        let parent: Vec<char> = Vec::new();
        assert(parent@ =~= Seq::empty());
        assert(rows_view(rows@) =~= Seq::empty());
        assert forall|i: int| 0 <= i < self.items@.len() implies 0 + (#[trigger] self.items@[i])@.parts.len()
            <= usize::MAX by {
            assert(self.items@[i]@.parts.len() == self.items@[i].parts@.len());
            assert(self.items@[i].parts.len() == self.items@[i].parts@.len());
        }
        push_walk(&self.items, &parent, 0, collapsed, &mut rows);
        assert(rows_view(rows@) =~= walk(self@, Seq::empty(), 0, collapsed@));
        rows
    }

    /// Collapses every directory of the tree.
    pub fn collapse_all(&self, collapsed: &mut PathSet)
        ensures
            final(collapsed)@ == old(collapsed)@.union(
                dir_paths(walk(self@, Seq::empty(), 0, Set::empty())),
            ),
    {
        let none = PathSet::new();
        let rows = self.rows(&none);
        let ghost all = rows_view(rows@);
        let mut i: usize = 0;
        assert(old(collapsed)@.union(dir_paths(all.take(0))) =~= old(collapsed)@);
        while i < rows.len()
            invariant
                i <= rows@.len(),
                all == rows_view(rows@),
                collapsed@ == old(collapsed)@.union(dir_paths(all.take(i as int))),
            decreases rows@.len() - i,
        {
            proof {
                lemma_dir_paths_push(all, i as int);
                assert(all[i as int] == rows@[i as int]@);
            }
            match &rows[i] {
                Row::Directory { path, .. } => {
                    collapsed.insert(path.as_str());
                    assert(collapsed@ =~= old(collapsed)@.union(dir_paths(all.take(i + 1))));
                },
                Row::File { .. } => {},
            }
            i += 1;
        }
        assert(all.take(i as int) =~= all);
    }
}

proof fn lemma_dir_paths_push(rows: Seq<RowView>, i: int)
    requires
        0 <= i < rows.len(),
    ensures
        dir_paths(rows.take(i + 1)) == (match rows[i] {
            RowView::Directory { path, .. } => dir_paths(rows.take(i)).insert(path),
            RowView::File { .. } => dir_paths(rows.take(i)),
        }),
{
    let a = rows.take(i);
    let b = rows.take(i + 1);
    assert forall|p: Seq<char>| dir_paths(b).contains(p) == (dir_paths(a).contains(p) || (
    rows[i] is Directory && rows[i]->path == p)) by {
        if dir_paths(a).contains(p) {
            let k = choose|k: int| 0 <= k < a.len() && (#[trigger] a[k]) is Directory && a[k]->path == p;
            assert(b[k] == a[k]);
        }
        if rows[i] is Directory && rows[i]->path == p {
            assert(b[i] == rows[i]);
        }
        if dir_paths(b).contains(p) {
            let k = choose|k: int| 0 <= k < b.len() && (#[trigger] b[k]) is Directory && b[k]->path == p;
            if k < i {
                assert(a[k] == b[k]);
            }
        }
    }
    match rows[i] {
        RowView::Directory { path, .. } => {
            assert(dir_paths(b) =~= dir_paths(a).insert(path));
        },
        RowView::File { .. } => {
            assert(dir_paths(b) =~= dir_paths(a));
        },
    }
}

} // verus!

//! Where the parts of a row stand, and what the mouse hits in it.

use vstd::prelude::*;

use crate::bytes::byte_len;
use crate::cells::{text_width, width_of};
use crate::change_tree::{at_or_above, is_expanded, row_depth, rows_view, Row as TreeRow, RowView, Tree};
use crate::git::{entries, no_stat, DiffStat, EntryView, FileEntry};
use crate::input::{cells_off, larger, least, monus, most, smaller, take_off, Platform};
use crate::path_set::PathSet;
use crate::paths::{native, native_path};
use crate::scan::{digits, digits_of, utf8_len};
use crate::scm_app::drawers::Drawer;
use crate::text::{cat3, chars_of, has_prefix, holds, starts_with, text_slice, texts};
use crate::viewer::rows::{add_up, plus};

verus! {

/// How the files of a list are shown.
#[derive(Clone, Copy, PartialEq, Eq, Debug, Structural)]
pub enum ScmFileView {
    List,
    Tree,
}

/// A row of the view. The first number is the repository's.
#[derive(Clone, Copy, PartialEq, Eq, Debug, Structural)]
pub enum Row {
    /// Only where more than one repository is shown.
    RepoHeader(usize),
    /// The repository's message box, where more than one is shown.
    Message(usize),
    /// The repository's button, where more than one is shown.
    Commit(usize),
    StagedHeader(usize),
    ChangesHeader(usize),
    Staged(usize, usize),
    Unstaged(usize, usize),
    /// Parts repositories from each other and from the drawers.
    RepoSeparator,
    DrawerHeader(Drawer),
    DrawerLine(Drawer, usize),
    HistoryTree(usize),
    HistoryNotice,
}

/// The repository that a row belongs to.
pub open spec fn row_repo(row: Row) -> Option<usize> {
    match row {
        Row::RepoHeader(r) => Some(r),
        Row::Message(r) => Some(r),
        Row::Commit(r) => Some(r),
        Row::StagedHeader(r) => Some(r),
        Row::ChangesHeader(r) => Some(r),
        Row::Staged(r, _) => Some(r),
        Row::Unstaged(r, _) => Some(r),
        _ => None,
    }
}

/// Whether keys stop at a row.
pub open spec fn row_selectable(row: Row) -> bool {
    !(row is Message || row is Commit || row is RepoSeparator || row is HistoryNotice)
}

impl Row {
    pub fn repo(self) -> (r: Option<usize>)
        ensures
            r == row_repo(self),
    {
        match self {
            Row::RepoHeader(r)
            | Row::Message(r)
            | Row::Commit(r)
            | Row::StagedHeader(r)
            | Row::ChangesHeader(r)
            | Row::Staged(r, _)
            | Row::Unstaged(r, _) => Some(r),
            _ => None,
        }
    }

    pub fn selectable(self) -> (r: bool)
        ensures
            r == row_selectable(self),
    {
        match self {
            Row::Message(_) | Row::Commit(_) | Row::RepoSeparator | Row::HistoryNotice => false,
            _ => true,
        }
    }
}

pub fn same_row(left: Row, right: Row) -> (r: bool)
    ensures
        r == (left == right),
{
    left == right
}

/// The first row at or after `i` that is this one, or the number of rows.
pub open spec fn row_place(rows: Seq<Row>, row: Row, i: int) -> int
    decreases rows.len() - i,
{
    if i >= rows.len() {
        rows.len() as int
    } else if rows[i] == row {
        i
    } else {
        row_place(rows, row, i + 1)
    }
}

pub open spec fn place_of(rows: Seq<Row>, row: Row) -> Option<usize> {
    let i = row_place(rows, row, 0);
    if i < rows.len() {
        Some(i as usize)
    } else {
        None
    }
}

/// The place of a row.
pub fn find_row(rows: &[Row], row: Row) -> (r: Option<usize>)
    ensures
        r == place_of(rows@, row),
{
    let mut i: usize = 0;
    while i < rows.len()
        invariant
            i <= rows@.len(),
            row_place(rows@, row, 0) == row_place(rows@, row, i as int),
        decreases rows@.len() - i,
    {
        if same_row(rows[i], row) {
            return Some(i);
        }
        i += 1;
    }
    None
}

/// The header of a repository's staged or other changes.
pub open spec fn header_row(repo: usize, staged: bool) -> Row {
    if staged {
        Row::StagedHeader(repo)
    } else {
        Row::ChangesHeader(repo)
    }
}

pub fn status_header_index(rows: &[Row], repo: usize, staged: bool) -> (r: Option<usize>)
    ensures
        r == place_of(rows@, header_row(repo, staged)),
{
    find_row(
        rows,
        if staged {
            Row::StagedHeader(repo)
        } else {
            Row::ChangesHeader(repo)
        },
    )
}

// ---- Trees of changes ----

/// The last of the rows before `n` that is less deep, or -1.
pub open spec fn parent_row(rows: Seq<RowView>, depth: int, n: int) -> int
    decreases n,
{
    if n <= 0 {
        -1
    } else if row_depth(rows[n - 1]) < depth {
        n - 1
    } else {
        parent_row(rows, depth, n - 1)
    }
}

pub open spec fn row_open(row: RowView) -> bool {
    row matches RowView::Directory { expanded, .. } && expanded
}

/// Where the right and left arrow keys go from a row: into an open directory,
/// and from what is not open to its parent.
pub open spec fn nav_target(row: RowView, rows: Seq<RowView>, index: int, expand: bool) -> Option<
    usize,
> {
    let depth = row_depth(row);
    if expand {
        if row_open(row) && index + 1 < rows.len() && row_depth(rows[index + 1]) > depth {
            Some((index + 1) as usize)
        } else {
            None
        }
    } else if row_open(row) {
        None
    } else {
        let p = parent_row(rows, depth, index);
        if p >= 0 {
            Some(p as usize)
        } else {
            None
        }
    }
}

pub fn tree_nav_target(row: &TreeRow, rows: &[TreeRow], index: usize, expand: bool) -> (r: Option<
    usize,
>)
    requires
        index <= rows@.len(),
    ensures
        r == nav_target(row@, rows_view(rows@), index as int, expand),
{
    let ghost all = rows_view(rows@);
    assert(all.len() == rows@.len());
    let depth = row.depth();
    let open = match row.expanded() {
        Some(open) => open,
        None => false,
    };
    let total = rows.len();
    if expand {
        if open && index < total && index + 1 < total {
            assert(all[index + 1] == rows@[index + 1]@);
            if rows[index + 1].depth() > depth {
                return Some(index + 1);
            }
        }
        return None;
    }
    if open {
        return None;
    }
    let mut n = index;
    while n > 0
        invariant
            n <= rows@.len(),
            all == rows_view(rows@),
            depth == row_depth(row@),
            !row_open(row@),
            !expand,
            parent_row(all, depth as int, index as int) == parent_row(all, depth as int, n as int),
        decreases n,
    {
        assert(all[n - 1] == rows@[n - 1]@);
        if rows[n - 1].depth() < depth {
            return Some(n - 1);
        }
        n -= 1;
    }
    None
}

/// The rows of so many files, one after the other.
pub open spec fn plain_rows(n: int) -> Seq<RowView> {
    Seq::new(n as nat, |i: int| RowView::File { index: i as usize, depth: 0 })
}

/// The files of a list with their places.
pub open spec fn numbered_paths(list: Seq<EntryView>) -> Seq<(usize, Seq<char>)> {
    Seq::new(list.len(), |i: int| (i as usize, list[i].path))
}

/// The shown rows of a list of changes.
pub open spec fn shown_rows(view: ScmFileView, list: Seq<EntryView>, collapsed: Set<Seq<char>>) -> Seq<
    RowView,
> {
    match view {
        ScmFileView::Tree => crate::change_tree::walk(
            crate::change_tree::tree_items(numbered_paths(list)),
            Seq::empty(),
            0,
            collapsed,
        ),
        ScmFileView::List => plain_rows(list.len() as int),
    }
}

/// The rows of a list of changes: a tree, or one row for each of `len` files.
pub fn visible_change_rows(view: ScmFileView, tree: &Tree, collapsed: &PathSet, len: usize) -> (r: Vec<
    TreeRow,
>)
    ensures
        rows_view(r@) == (match view {
            ScmFileView::Tree => crate::change_tree::walk(tree@, Seq::empty(), 0, collapsed@),
            ScmFileView::List => plain_rows(len as int),
        }),
{
    match view {
        ScmFileView::Tree => tree.rows(collapsed),
        ScmFileView::List => {
            let mut out: Vec<TreeRow> = Vec::new();
            let mut i: usize = 0;
            while i < len
                invariant
                    i <= len,
                    rows_view(out@) =~= plain_rows(i as int),
                decreases len - i,
            {
                let ghost before = rows_view(out@);
                out.push(TreeRow::File { index: i, depth: 0 });
                assert(rows_view(out@) =~= before.push(RowView::File { index: i, depth: 0 }));
                i += 1;
            }
            out
        },
    }
}

pub open spec fn toggled_path(collapsed: Set<Seq<char>>, path: Seq<char>, was_expanded: bool) -> Set<
    Seq<char>,
> {
    if was_expanded {
        collapsed.insert(path)
    } else {
        collapsed.filter(|c: Seq<char>| !at_or_above(c, path))
    }
}

/// Collapses a directory, or opens it with every directory above it.
pub fn toggle_collapsed_path(collapsed: &mut PathSet, path: &str, was_expanded: bool)
    ensures
        final(collapsed)@ == toggled_path(old(collapsed)@, path@, was_expanded),
{
    if was_expanded {
        collapsed.insert(path);
    } else {
        collapsed.remove_with_parents(path);
    }
}

/// Opening a directory leaves it open, whatever above it was collapsed, and
/// touches no directory elsewhere; collapsing it leaves it collapsed.
pub proof fn law_toggling_decides(collapsed: Set<Seq<char>>, path: Seq<char>, other: Seq<char>)
    ensures
        is_expanded(path, toggled_path(collapsed, path, false)),
        !is_expanded(path, toggled_path(collapsed, path, true)),
        !at_or_above(other, path) ==> toggled_path(collapsed, path, false).contains(other)
            == collapsed.contains(other),
        other != path ==> toggled_path(collapsed, path, true).contains(other)
            == collapsed.contains(other),
{
    assert(toggled_path(collapsed, path, true).contains(path));
    assert(at_or_above(path, path));
}

// ---- Columns ----

/// Whether the disclosure arrow of a directory's row is in this column.
pub open spec fn chevron_at(x: u16, row: Option<RowView>, base_indent: usize) -> bool {
    match row {
        Some(RowView::Directory { depth, .. }) => x == 1 + base_indent + 2 * depth,
        _ => false,
    }
}

pub fn change_tree_chevron_hit_at(x: u16, row: Option<&TreeRow>, base_indent: usize) -> (r: bool)
    ensures
        r == chevron_at(
            x,
            match row {
                Some(row) => Some(row@),
                None => None,
            },
            base_indent,
        ),
{
    match row {
        Some(TreeRow::Directory { depth, .. }) => {
            let at = x as usize;
            at > base_indent && (at - base_indent - 1) % 2 == 0 && (at - base_indent - 1) / 2
                == *depth
        },
        _ => false,
    }
}

pub fn change_tree_chevron_hit(x: u16, row: Option<&TreeRow>) -> (r: bool)
    ensures
        r == chevron_at(
            x,
            match row {
                Some(row) => Some(row@),
                None => None,
            },
            0,
        ),
{
    change_tree_chevron_hit_at(x, row, 0)
}

/// The columns at the end of a change's row: its buttons while they are shown, and
/// its letter.
pub open spec fn tail_columns(action_slot: bool, buttons_visible: bool, status_slot: bool) -> int {
    (if buttons_visible {
        if action_slot {
            6int
        } else {
            3
        }
    } else {
        0
    }) + if status_slot {
        2int
    } else {
        0
    }
}

pub fn change_tail_width(action_slot: bool, buttons_visible: bool, status_slot: bool) -> (r: usize)
    ensures
        r == tail_columns(action_slot, buttons_visible, status_slot),
        r <= 8,
{
    let buttons: usize = if buttons_visible {
        if action_slot {
            6
        } else {
            3
        }
    } else {
        0
    };
    let status: usize = if status_slot {
        2
    } else {
        0
    };
    buttons + status
}

pub open spec fn on_action(x: u16, width: u16) -> bool {
    let start = monus(width as int, 5);
    start <= x < start + 3
}

pub fn change_action_hit(x: u16, width: u16) -> (r: bool)
    ensures
        r == on_action(x, width),
{
    let start = cells_off(width, 5);
    x >= start && x - start < 3
}

pub open spec fn on_menu(x: u16, width: u16, action_slot: bool) -> bool {
    let start = monus(width as int, tail_columns(action_slot, true, true));
    start <= x < start + 3
}

pub fn change_menu_hit(x: u16, width: u16, action_slot: bool) -> (r: bool)
    ensures
        r == on_menu(x, width, action_slot),
{
    let start = cells_off(width, change_tail_width(action_slot, true, true) as u16);
    x >= start && x - start < 3
}

/// Where the sign stands that stages or unstages a whole section: before the
/// count.
pub open spec fn sign_column(title: Seq<char>, width: int, count: nat) -> int {
    most(
        monus(width, digits(count).len() as int + 5),
        utf8_len(title) as int + 4,
    )
}

pub fn section_action_start(title: &str, width: usize, count: usize) -> (r: usize)
    requires
        utf8_len(title@) + 4 <= usize::MAX,
    ensures
        r == sign_column(title@, width as int, count as nat),
{
    let d = digits_of(count);
    let n = d.len();
    let kept = if width < 5 || width - 5 < n {
        0
    } else {
        width - 5 - n
    };
    larger(kept, byte_len(title) + 4)
}

pub open spec fn on_sign(x: u16, title: Seq<char>, width: u16, count: nat) -> bool {
    let at = sign_column(title, width as int, count);
    monus(at, 1) <= x < at + 2
}

pub fn section_action_hit(x: u16, title: &str, width: u16, count: usize) -> (r: bool)
    requires
        utf8_len(title@) + 6 <= u16::MAX,
    ensures
        r == on_sign(x, title@, width, count as nat),
{
    let at = section_action_start(title, width as usize, count);
    let left = take_off(at, 1);
    let column = x as usize;
    column >= left && column < at + 2
}

/// How wide the rows are: one column less where a scrollbar is shown.
pub open spec fn content_columns(width: u16, total: int, visible: int) -> u16 {
    if width == 0 {
        0
    } else if total > visible {
        most(width - 1, 1) as u16
    } else {
        width
    }
}

pub fn list_content_width(width: u16, total: usize, visible: usize) -> (r: u16)
    ensures
        r == content_columns(width, total as int, visible as int),
{
    if width == 0 {
        0
    } else if total > visible && width > 1 {
        width - 1
    } else {
        width
    }
}

/// A change's menu, its action and its letter never share a column, in rows that
/// are wide enough for them.
pub proof fn law_buttons_do_not_overlap(x: u16, width: u16)
    requires
        width >= 8,
    ensures
        !(on_menu(x, width, true) && on_action(x, width)),
        on_action(x, width) ==> x < width - 2,
        on_menu(x, width, false) ==> x < width - 2,
{
}

// ---- Whole directories ----

/// Whether a path lies below a directory.
pub open spec fn lies_below(path: Seq<char>, dir: Seq<char>) -> bool {
    has_prefix(path, dir) && path.len() > dir.len() && path[dir.len() as int] == '/'
}

fn is_inside(path: &str, dir: &[char]) -> (r: bool)
    ensures
        r == lies_below(path@, dir@),
{
    let v = chars_of(path);
    starts_with(&v, dir) && v.len() > dir.len() && v[dir.len()] == '/'
}

/// What is added to stand for the first `n` changes below a directory: the sources of renames
/// from elsewhere.
pub open spec fn outside_sources(dir: Seq<char>, list: Seq<EntryView>, n: int) -> Seq<Seq<char>>
    decreases n,
{
    if n <= 0 {
        seq![dir]
    } else {
        let rest = outside_sources(dir, list, n - 1);
        let e = list[n - 1];
        match e.orig {
            Some(orig) => if lies_below(e.path, dir) && !lies_below(orig, dir) && !rest.contains(
                orig,
            ) {
                rest.push(orig)
            } else {
                rest
            },
            None => rest,
        }
    }
}

/// The paths that stand for every change below a directory: the directory, and
/// where files were renamed from outside.
pub fn directory_pathspecs(path: &str, list: &[FileEntry]) -> (r: Vec<String>)
    ensures
        texts(r@) == outside_sources(path@, entries(list@), list@.len() as int),
{
    let dir = chars_of(path);
    let ghost all = entries(list@);
    let mut out: Vec<String> = Vec::new();
    out.push(path.to_string());
    assert(texts(out@) =~= seq![path@]);
    let mut i: usize = 0;
    while i < list.len()
        invariant
            i <= list@.len(),
            all == entries(list@),
            dir@ == path@,
            texts(out@) == outside_sources(path@, all, i as int),
        decreases list@.len() - i,
    {
        let e = &list[i];
        assert(all[i as int] == e@);
        let ghost before = texts(out@);
        if let Some(orig) = &e.orig {
            if is_inside(e.path.as_str(), &dir) && !is_inside(orig.as_str(), &dir) && !holds(
                &out,
                orig.as_str(),
            ) {
                out.push(orig.clone());
                assert(texts(out@) =~= before.push(orig@));
            }
        }
        i += 1;
    }
    out
}

/// `a + b` where both are known, capped; what is known of one alone.
pub open spec fn counted_up(sum: Option<usize>, more: Option<usize>) -> Option<usize> {
    match (sum, more) {
        (Some(a), Some(b)) => Some(plus(a as int, b as int)),
        (None, Some(b)) => Some(b),
        (_, None) => sum,
    }
}

/// The counts of the first `n` changes below a directory together.
pub open spec fn stat_below(dir: Seq<char>, list: Seq<EntryView>, n: int) -> DiffStat
    decreases n,
{
    if n <= 0 {
        no_stat()
    } else {
        let rest = stat_below(dir, list, n - 1);
        if lies_below(list[n - 1].path, dir) {
            DiffStat {
                added: counted_up(rest.added, list[n - 1].stat.added),
                deleted: counted_up(rest.deleted, list[n - 1].stat.deleted),
            }
        } else {
            rest
        }
    }
}

fn count_up(sum: Option<usize>, more: Option<usize>) -> (r: Option<usize>)
    ensures
        r == counted_up(sum, more),
{
    match (sum, more) {
        (Some(a), Some(b)) => Some(add_up(a, b)),
        (None, Some(b)) => Some(b),
        (_, None) => sum,
    }
}

/// The counts of all changes below a directory together.
pub fn directory_diff_stat(path: &str, list: &[FileEntry]) -> (r: DiffStat)
    ensures
        r == stat_below(path@, entries(list@), list@.len() as int),
{
    let dir = chars_of(path);
    let ghost all = entries(list@);
    let mut sum = DiffStat::default();
    let mut i: usize = 0;
    while i < list.len()
        invariant
            i <= list@.len(),
            all == entries(list@),
            dir@ == path@,
            sum == stat_below(path@, all, i as int),
        decreases list@.len() - i,
    {
        let e = &list[i];
        assert(all[i as int] == e@);
        if is_inside(e.path.as_str(), &dir) {
            sum = DiffStat {
                added: count_up(sum.added, e.stat.added),
                deleted: count_up(sum.deleted, e.stat.deleted),
            };
        }
        i += 1;
    }
    sum
}

/// What is shown of a change under the mouse: its whole path, and its counts.
pub struct ChangeTooltip {
    pub path: String,
    pub stat: DiffStat,
}

#[verifier::ext_equal]
pub struct TooltipView {
    pub path: Seq<char>,
    pub stat: DiffStat,
}

impl View for ChangeTooltip {
    type V = TooltipView;

    open spec fn view(&self) -> TooltipView {
        TooltipView { path: self.path@, stat: self.stat }
    }
}

pub open spec fn tooltip_of(
    row: RowView,
    entry: Option<EntryView>,
    list: Seq<EntryView>,
    platform: Platform,
) -> Option<TooltipView> {
    match row {
        RowView::Directory { path, .. } => Some(
            TooltipView {
                path: native(path, platform),
                stat: stat_below(path, list, list.len() as int),
            },
        ),
        RowView::File { .. } => match entry {
            None => None,
            Some(e) => Some(
                TooltipView {
                    path: match e.orig {
                        Some(orig) => native(e.path, platform) + " ← "@ + native(orig, platform),
                        None => native(e.path, platform),
                    },
                    stat: e.stat,
                },
            ),
        },
    }
}

/// What to show of a change under the mouse.
pub fn change_tree_tooltip(
    row: &TreeRow,
    entry: Option<&FileEntry>,
    list: &[FileEntry],
    platform: Platform,
) -> (r: Option<ChangeTooltip>)
    ensures
        (match r {
            Some(t) => Some(t@),
            None => None,
        }) == tooltip_of(
            row@,
            match entry {
                Some(e) => Some(e@),
                None => None,
            },
            entries(list@),
            platform,
        ),
{
    match row {
        TreeRow::Directory { path, .. } => {
            assert(entries(list@).len() == list@.len());
            Some(
                ChangeTooltip {
                    path: native_path(path.as_str(), platform),
                    stat: directory_diff_stat(path.as_str(), list),
                },
            )
        },
        TreeRow::File { .. } => match entry {
            None => None,
            Some(e) => {
                let path = native_path(e.path.as_str(), platform);
                let path = match &e.orig {
                    Some(orig) => cat3(
                        path.as_str(),
                        " ← ",
                        native_path(orig.as_str(), platform).as_str(),
                    ),
                    None => path,
                };
                Some(ChangeTooltip { path, stat: e.stat })
            },
        },
    }
}

// ---- Message boxes ----

/// How many rows of a message are shown before it scrolls.
pub const MESSAGE_MAX_ROWS: usize = 4;

/// The columns of the message between the border and the button.
pub fn inline_field_width(pane_width: u16) -> (r: u16)
    ensures
        r == monus(pane_width as int, 5),
{
    cells_off(pane_width, 5)
}

/// The button that suggests a message: its icon between spaces.
pub fn inline_sparkle(icon: &str) -> (r: String)
    ensures
        r@ == " "@ + icon@ + " "@,
{
    cat3(" ", icon, " ")
}

/// `s` in pieces of `n` characters; the last may be shorter.
pub open spec fn chunks(s: Seq<char>, n: int) -> Seq<Seq<char>>
    decreases s.len(),
{
    if s.len() == 0 || n <= 0 {
        Seq::empty()
    } else if s.len() <= n {
        seq![s]
    } else {
        seq![s.take(n)] + chunks(s.skip(n), n)
    }
}

/// The rows of a message in a field. A cursor behind a full last row opens a new
/// one.
pub open spec fn message_rows(message: Seq<char>, cursor: int, field: int) -> Seq<Seq<char>> {
    let f = most(field, 1);
    let rows = if message.len() == 0 {
        seq![Seq::empty()]
    } else {
        chunks(message, f)
    };
    if message.len() > 0 && message.len() as int % f == 0 && cursor == message.len() {
        rows.push(Seq::empty())
    } else {
        rows
    }
}

/// The rows of a message in a field, and the row and column of the cursor.
pub fn wrap_message(message: &[char], cursor: usize, field: usize) -> (r: (Vec<String>, usize, usize))
    ensures
        texts((r.0)@) == message_rows(message@, cursor as int, field as int),
        r.1 == cursor as int / most(field as int, 1),
        r.2 == cursor as int % most(field as int, 1),
{
    let f = larger(field, 1);
    let total = message.len();
    let mut rows: Vec<String> = Vec::new();
    assert(texts(rows@) =~= Seq::empty());
    let mut at: usize = 0;
    let ghost want = chunks(message@, f as int);
    assert(message@.skip(0) =~= message@);
    while at < total
        invariant
            at <= total,
            total == message@.len(),
            f >= 1,
            want == chunks(message@, f as int),
            texts(rows@) + chunks(message@.skip(at as int), f as int) =~= want,
        decreases total - at,
    {
        let end = if total - at <= f {
            total
        } else {
            at + f
        };
        let ghost before = texts(rows@);
        let ghost rest = message@.skip(at as int);
        let row = text_slice(message, at, end);
        rows.push(row);
        proof {
            assert(texts(rows@) =~= before.push(row@));
            assert(message@.skip(end as int) =~= rest.skip(end - at));
            assert(row@ =~= rest.take(end - at));
            if total - at <= f {
                assert(rest.take(end - at) =~= rest);
                assert(chunks(rest.skip(end - at), f as int) =~= Seq::empty());
            }
        }
        at = end;
    }
    assert(chunks(message@.skip(at as int), f as int) =~= Seq::empty());
    assert(texts(rows@) =~= want);
    let ghost filled = texts(rows@);
    if total == 0 {
        rows.push(String::new());
        assert(texts(rows@) =~= seq![Seq::<char>::empty()]);
    } else if total % f == 0 && cursor == total {
        rows.push(String::new());
        assert(texts(rows@) =~= filled.push(Seq::empty()));
    }
    (rows, cursor / f, cursor % f)
}

/// The rows of a message hold it, one after the other, and none is wider than
/// the field.
pub proof fn law_message_rows_hold_the_message(message: Seq<char>, cursor: int, field: int)
    ensures
        crate::cells::concat(message_rows(message, cursor, field)) == message,
        forall|i: int|
            0 <= i < message_rows(message, cursor, field).len() ==> #[trigger] message_rows(
                message,
                cursor,
                field,
            )[i].len() <= most(field, 1),
{
    let f = most(field, 1);
    lemma_chunks(message, f);
    let rows = if message.len() == 0 {
        seq![Seq::<char>::empty()]
    } else {
        chunks(message, f)
    };
    if message.len() == 0 {
        crate::cells::lemma_concat_push(Seq::empty(), Seq::empty());
        assert(Seq::<Seq<char>>::empty().push(Seq::empty()) =~= rows);
        assert(crate::cells::concat(rows) =~= message);
    }
    if message.len() > 0 && message.len() as int % f == 0 && cursor == message.len() {
        crate::cells::lemma_concat_push(rows, Seq::empty());
        assert(crate::cells::concat(rows.push(Seq::empty())) =~= message);
    }
}

proof fn lemma_chunks(s: Seq<char>, n: int)
    requires
        n > 0,
    ensures
        crate::cells::concat(chunks(s, n)) == s,
        forall|i: int| 0 <= i < chunks(s, n).len() ==> (#[trigger] chunks(s, n)[i]).len() <= n,
    decreases s.len(),
{
    if s.len() == 0 {
        assert(crate::cells::concat(chunks(s, n)) =~= s);
    } else if s.len() <= n {
        crate::cells::lemma_concat_push(Seq::empty(), s);
        assert(Seq::<Seq<char>>::empty().push(s) =~= seq![s]);
        assert(crate::cells::concat(chunks(s, n)) =~= s);
    } else {
        lemma_chunks(s.skip(n), n);
        crate::cells::lemma_concat_add(seq![s.take(n)], chunks(s.skip(n), n));
        crate::cells::lemma_concat_push(Seq::empty(), s.take(n));
        assert(Seq::<Seq<char>>::empty().push(s.take(n)) =~= seq![s.take(n)]);
        assert(s.take(n) + s.skip(n) =~= s);
        assert(crate::cells::concat(Seq::<Seq<char>>::empty()) =~= Seq::empty());
        assert(Seq::<char>::empty() + s.take(n) =~= s.take(n));
        assert forall|i: int| 0 <= i < chunks(s, n).len() implies (#[trigger] chunks(
            s,
            n,
        )[i]).len() <= n by {
            if i > 0 {
                assert(chunks(s, n)[i] == chunks(s.skip(n), n)[i - 1]);
            }
        }
    }
}

/// The first of the rows that are shown, and how many are.
pub fn message_window(rows: usize, cursor_row: usize, focused: bool) -> (r: (usize, usize))
    requires
        cursor_row < usize::MAX,
    ensures
        r.1 == least(rows as int, MESSAGE_MAX_ROWS as int),
        r.0 == (if focused {
            monus(cursor_row + 1, r.1 as int)
        } else {
            0
        }),
{
    let visible = smaller(rows, MESSAGE_MAX_ROWS);
    let top = if focused {
        take_off(cursor_row + 1, visible)
    } else {
        0
    };
    (top, visible)
}

/// The longest of the hints that fits.
pub open spec fn placeholder_for(branch: Seq<char>, width: int) -> Seq<char> {
    let long = "Message (⏎ to commit on \""@ + branch + "\")"@;
    if width_of(long) <= width {
        long
    } else if width_of("Message (⏎ to commit)"@) <= width {
        "Message (⏎ to commit)"@
    } else if width_of("Message"@) <= width {
        "Message"@
    } else {
        ""@
    }
}

/// What an empty message box says: less where it is narrow, and no cut word.
pub fn message_placeholder(branch: &str, width: usize) -> (r: String)
    ensures
        r@ == placeholder_for(branch@, width as int),
{
    let long = cat3("Message (⏎ to commit on \"", branch, "\")");
    if text_width(long.as_str()) <= width {
        return long;
    }
    if text_width("Message (⏎ to commit)") <= width {
        return "Message (⏎ to commit)".to_string();
    }
    if text_width("Message") <= width {
        return "Message".to_string();
    }
    "".to_string()
}

} // verus!

//! What a repository's status says of what git wrote.

use vstd::prelude::*;

use crate::git::{
    conflicting, count_tagged, entry_parts, header_branch, header_counts, law_status_texts_add,
    named, records, sources_follow, staged_list, staged_of, status_of, unstaged_list, unstaged_of,
    DiffStat, EntryView, Record, StatusView,
};
use crate::laws::text::{lemma_trim_edges, lemma_trim_ends};
use crate::scan::{digits, is_digit, is_white, law_digits_read_back, number, trim, trim_end, Class};
use crate::text::{
    after, find_seq, has_char, has_prefix, lemma_find_seq, lemma_rfind_char, lemma_split_head,
    lemma_split_whole, occurs_at, rfind_char, split,
};

verus! {

/// A path that git lists as changed: the letters of the index and of the working tree, and
/// where it was moved or copied from.
pub struct Change {
    pub x: char,
    pub y: char,
    pub path: Seq<char>,
    pub from: Seq<char>,
}

/// Whether git writes where such a path comes from.
pub open spec fn has_source(c: Change) -> bool {
    c.x == 'R' || c.x == 'C' || c.y == 'R' || c.y == 'C'
}

/// What git writes of a changed path.
pub open spec fn change_text(c: Change) -> Seq<char> {
    let own = seq![c.x, c.y, ' '] + c.path + seq!['\0'];
    if has_source(c) {
        own + c.from + seq!['\0']
    } else {
        own
    }
}

/// A letter of the index or the working tree.
pub open spec fn state(c: char) -> bool {
    c == ' ' || c == 'M' || c == 'T' || c == 'A' || c == 'D' || c == 'R' || c == 'C' || c == 'U' || c
        == '?' || c == '!'
}

/// Whether git can list a path like this.
pub open spec fn listable(c: Change) -> bool {
    &&& state(c.x) && state(c.y)
    &&& c.path.len() > 0 && !has_char(c.path, '\0')
    &&& c.from.len() > 0 && !has_char(c.from, '\0')
}

/// What git writes of changed paths, one after the other.
pub open spec fn changes_text(list: Seq<Change>) -> Seq<char>
    decreases list.len(),
{
    if list.len() == 0 {
        Seq::empty()
    } else {
        change_text(list[0]) + changes_text(list.skip(1))
    }
}

/// An entry for a path, with this letter; a change of type counts as a modification.
pub open spec fn entry_for(c: Change, letter: char) -> EntryView {
    EntryView {
        path: c.path,
        orig: if has_source(c) {
            Some(c.from)
        } else {
            None
        },
        letter: if letter == 'T' {
            'M'
        } else {
            letter
        },
        stat: DiffStat { added: None, deleted: None },
    }
}

/// Whether a path is in conflict: both sides added or deleted it, or one side left it
/// unmerged.
pub open spec fn unmerged(c: Change) -> bool {
    (c.x == 'A' && c.y == 'A') || (c.x == 'D' && c.y == 'D') || (c.x == 'U' && (c.y == 'U' || c.y
        == 'A' || c.y == 'D')) || (c.y == 'U' && (c.x == 'A' || c.x == 'D'))
}

/// The staged entries of a path: one with the letter of the index, where that has one.
pub open spec fn staged_for(c: Change) -> Seq<EntryView> {
    if c.x == ' ' || c.x == '!' || (c.x == '?' && c.y == '?') || unmerged(c) {
        Seq::empty()
    } else {
        seq![entry_for(c, c.x)]
    }
}

/// The unstaged entries of a path: an untracked path and a conflict have one of their own, any
/// other that is not ignored has one with the letter of the working tree, where that has one.
pub open spec fn unstaged_for(c: Change) -> Seq<EntryView> {
    if c.x == '?' && c.y == '?' {
        seq![EntryView { letter: 'U', orig: None, ..entry_for(c, 'U') }]
    } else if c.x == '!' {
        Seq::empty()
    } else if unmerged(c) {
        seq![entry_for(c, '!')]
    } else if c.y == ' ' {
        Seq::empty()
    } else {
        seq![entry_for(c, c.y)]
    }
}

pub open spec fn all_staged(list: Seq<Change>) -> Seq<EntryView>
    decreases list.len(),
{
    if list.len() == 0 {
        Seq::empty()
    } else {
        staged_for(list[0]) + all_staged(list.skip(1))
    }
}

pub open spec fn all_unstaged(list: Seq<Change>) -> Seq<EntryView>
    decreases list.len(),
{
    if list.len() == 0 {
        Seq::empty()
    } else {
        unstaged_for(list[0]) + all_unstaged(list.skip(1))
    }
}

/// The status that is read from a text.
pub open spec fn status_read(text: Seq<char>) -> StatusView {
    status_of(records(split(text, '\0'), 0))
}

proof fn lemma_one_change(c: Change)
    requires
        listable(c),
    ensures
        change_text(c).len() > 0,
        change_text(c).last() == '\0',
        sources_follow(split(change_text(c), '\0').drop_last(), 0),
        status_read(change_text(c)).staged == staged_for(c),
        status_read(change_text(c)).unstaged == unstaged_for(c),
{
    let none = Seq::<char>::empty();
    let own = seq![c.x, c.y, ' '] + c.path;
    assert(!has_char(own, '\0')) by {
        if has_char(own, '\0') {
            let i = choose|i: int| 0 <= i < own.len() && own[i] == '\0';
            if i >= 3 {
                assert(c.path[i - 3] == '\0');
            }
        }
    }
    lemma_split_whole(none, '\0');
    reveal_strlit("## ");
    assert(own[0] == c.x);
    assert(!has_prefix(own, "## "@)) by {
        if has_prefix(own, "## "@) {
            assert(own.subrange(0, 3)[0] == "## "@[0]);
        }
    }
    assert(after(own, 3) =~= c.path);
    assert(entry_parts(own) == Some((c.x, c.y, c.path)));
    let text = change_text(c);
    if has_source(c) {
        let tail = c.from + seq!['\0'];
        assert(c.from + seq!['\0'] + none =~= tail);
        lemma_split_head(c.from, '\0', none);
        lemma_split_head(own, '\0', tail);
        assert(own + seq!['\0'] + tail =~= text);
        let parts = split(text, '\0');
        assert(parts =~= seq![own, c.from, none]);
        lemma_last_part(parts, 2);
        lemma_moved(c, parts);
        assert(parts.drop_last() =~= seq![own, c.from]);
        let p = parts.drop_last();
        assert(sources_follow(p, 2));
        lemma_follow(p, c.x, c.y, c.path);
    } else {
        lemma_split_head(own, '\0', none);
        assert(own + seq!['\0'] + none =~= text);
        let parts = split(text, '\0');
        assert(parts =~= seq![own, none]);
        lemma_last_part(parts, 1);
        lemma_unmoved(c, parts);
        let p = parts.drop_last();
        assert(p =~= seq![own]);
        assert(sources_follow(p, 1));
        lemma_follow(p, c.x, c.y, c.path);
    }
}

proof fn lemma_follow(p: Seq<Seq<char>>, x: char, y: char, path: Seq<char>)
    requires
        p.len() > 0,
        !has_prefix(p[0], "## "@),
        entry_parts(p[0]) == Some((x, y, path)),
        if x == 'R' || x == 'C' || y == 'R' || y == 'C' {
            p.len() == 2 && sources_follow(p, 2)
        } else {
            p.len() == 1 && sources_follow(p, 1)
        },
    ensures
        sources_follow(p, 0),
{
}

proof fn lemma_last_part(parts: Seq<Seq<char>>, i: int)
    requires
        parts.len() == i + 1,
        0 <= i,
        parts[i].len() == 0,
    ensures
        records(parts, i) == Seq::<Record>::empty(),
{
    reveal_strlit("## ");
    assert(records(parts, i + 1) =~= Seq::empty());
}

proof fn lemma_record(r: Record, c: Change)
    requires
        listable(c),
        r == (Record::Entry {
            x: c.x,
            y: c.y,
            path: c.path,
            orig: if has_source(c) {
                Some(c.from)
            } else {
                None
            },
        }),
    ensures
        status_of(seq![r]).staged == staged_for(c),
        status_of(seq![r]).unstaged == unstaged_for(c),
{
    let rs = seq![r];
    assert(rs.drop_last() =~= Seq::empty());
    assert(rs.last() == r);
    assert(conflicting(c.x, c.y) == unmerged(c));
    let before = rs.drop_last();
    assert(staged_list(before) =~= Seq::empty());
    assert(unstaged_list(before) =~= Seq::empty());
    match staged_of(r) {
        Some(e) => assert(e =~= entry_for(c, c.x)),
        None => {},
    }
    match unstaged_of(r) {
        Some(e) => {
            assert(unstaged_for(c).len() == 1);
            assert(e =~= unstaged_for(c)[0]);
        },
        None => {},
    }
    assert(staged_list(rs) =~= staged_for(c));
    assert(unstaged_list(rs) =~= unstaged_for(c));
}

proof fn lemma_moved(c: Change, parts: Seq<Seq<char>>)
    requires
        listable(c),
        has_source(c),
        parts.len() == 3,
        !has_prefix(parts[0], "## "@),
        entry_parts(parts[0]) == Some((c.x, c.y, c.path)),
        parts[1] == c.from,
        records(parts, 2) == Seq::<Record>::empty(),
    ensures
        status_of(records(parts, 0)).staged == staged_for(c),
        status_of(records(parts, 0)).unstaged == unstaged_for(c),
{
    assert(named(parts, 1) == Some(c.from));
    let r = Record::Entry { x: c.x, y: c.y, path: c.path, orig: Some(c.from) };
    assert(records(parts, 0) =~= seq![r]);
    lemma_record(r, c);
}

proof fn lemma_unmoved(c: Change, parts: Seq<Seq<char>>)
    requires
        listable(c),
        !has_source(c),
        parts.len() == 2,
        !has_prefix(parts[0], "## "@),
        entry_parts(parts[0]) == Some((c.x, c.y, c.path)),
        records(parts, 1) == Seq::<Record>::empty(),
    ensures
        status_of(records(parts, 0)).staged == staged_for(c),
        status_of(records(parts, 0)).unstaged == unstaged_for(c),
{
    let r = Record::Entry { x: c.x, y: c.y, path: c.path, orig: None };
    assert(records(parts, 0) =~= seq![r]);
    lemma_record(r, c);
}

/// Every path that git lists has its entries, in the order of the list: a staged one with the
/// letter of the index and an unstaged one with that of the working tree, where these have
/// one; a conflict and an untracked path have one unstaged entry, and an ignored one none.
pub proof fn law_every_change_is_listed(list: Seq<Change>)
    requires
        forall|i: int| 0 <= i < list.len() ==> listable(#[trigger] list[i]),
    ensures
        status_read(changes_text(list)).staged == all_staged(list),
        status_read(changes_text(list)).unstaged == all_unstaged(list),
    decreases list.len(),
{
    let none = Seq::<char>::empty();
    if list.len() == 0 {
        lemma_split_whole(none, '\0');
        let parts = split(changes_text(list), '\0');
        assert(changes_text(list) =~= none);
        assert(parts =~= seq![none]);
        lemma_last_part(parts, 0);
        assert(staged_list(Seq::empty()) =~= Seq::empty());
        assert(unstaged_list(Seq::empty()) =~= Seq::empty());
    } else {
        let rest = list.skip(1);
        assert forall|i: int| 0 <= i < rest.len() implies listable(#[trigger] rest[i]) by {
            assert(rest[i] == list[i + 1]);
        }
        assert(listable(list[0]));
        law_every_change_is_listed(rest);
        lemma_one_change(list[0]);
        law_status_texts_add(change_text(list[0]), changes_text(rest));
    }
}

/// Each path that git lists is shown, unless it is ignored or has no letter at all.
pub proof fn law_no_change_is_lost(c: Change)
    requires
        listable(c),
        c.x != '!',
        c.x != ' ' || c.y != ' ',
    ensures
        ({
            let s = status_read(change_text(c));
            &&& s.staged.len() + s.unstaged.len() >= 1
            &&& forall|i: int| 0 <= i < s.staged.len() ==> (#[trigger] s.staged[i]).path == c.path
            &&& forall|i: int| 0 <= i < s.unstaged.len() ==> (#[trigger] s.unstaged[i]).path == c.path
        }),
{
    lemma_one_change(c);
}

// ---- The branch ----

/// Whether a branch can have this name: it is not empty, has no two dots in a row and none
/// at its end, no bracket, and no NUL.
pub open spec fn branch_name(s: Seq<char>) -> bool {
    &&& s.len() > 0
    &&& s.last() != '.'
    &&& forall|i: int| 0 <= i < s.len() - 1 ==> !(#[trigger] s[i] == '.' && s[i + 1] == '.')
    &&& forall|i: int| 0 <= i < s.len() ==> s[i] != '[' && s[i] != '\0'
}

/// What git writes of how far a branch is from its upstream.
pub open spec fn distance_text(ahead: nat, behind: nat) -> Seq<char> {
    if ahead > 0 && behind > 0 {
        " [ahead "@ + digits(ahead) + ", behind "@ + digits(behind) + "]"@
    } else if ahead > 0 {
        " [ahead "@ + digits(ahead) + "]"@
    } else if behind > 0 {
        " [behind "@ + digits(behind) + "]"@
    } else {
        ""@
    }
}

proof fn lemma_dots(branch: Seq<char>, rest: Seq<char>)
    requires
        branch_name(branch),
    ensures
        find_seq(branch + "..."@ + rest, "..."@, 0) == branch.len(),
{
    let s = branch + "..."@ + rest;
    reveal_strlit("...");
    lemma_find_seq(s, "..."@, 0);
    let n = branch.len() as int;
    assert(s.subrange(n, n + 3) =~= "..."@);
    assert(occurs_at(s, "..."@, n));
    let k = find_seq(s, "..."@, 0);
    assert(0 <= k <= n);
    if k < n {
        assert(s.subrange(k, k + 3)[0] == '.' && s.subrange(k, k + 3)[1] == '.');
        assert(s[k] == '.' && s[k + 1] == '.');
        if k + 1 < n {
            assert(branch[k] == '.' && branch[k + 1] == '.');
        } else {
            assert(branch[k] == '.');
        }
    }
}

proof fn lemma_no_dots(branch: Seq<char>)
    requires
        branch_name(branch),
    ensures
        find_seq(branch, "..."@, 0) == -1,
{
    reveal_strlit("...");
    lemma_find_seq(branch, "..."@, 0);
    let k = find_seq(branch, "..."@, 0);
    if k >= 0 {
        assert(branch.subrange(k, k + 3)[0] == '.' && branch.subrange(k, k + 3)[1] == '.');
        assert(branch[k] == '.' && branch[k + 1] == '.');
    }
}

proof fn lemma_number_clean(n: nat)
    ensures
        digits(n).len() >= 1,
        forall|i: int|
            0 <= i < digits(n).len() ==> !is_white(#[trigger] digits(n)[i]) && digits(n)[i] != ','
                && digits(n)[i] != '+' && digits(n)[i] != ']' && digits(n)[i] != '['
                && digits(n)[i] != '\0',
        n <= usize::MAX ==> number(digits(n)) == Some(n as usize),
{
    law_digits_read_back(n);
    assert forall|i: int| 0 <= i < digits(n).len() implies !is_white(#[trigger] digits(n)[i])
        && digits(n)[i] != ',' && digits(n)[i] != '+' && digits(n)[i] != ']' && digits(n)[i] != '['
        && digits(n)[i] != '\0' by {
        assert(is_digit(digits(n)[i]));
    }
}

/// One part of the distance, such as `ahead 3`, with blanks before it or none.
proof fn lemma_tagged(lead: Seq<char>, tag: Seq<char>, n: nat)
    requires
        n <= usize::MAX,
        forall|i: int| 0 <= i < lead.len() ==> is_white(#[trigger] lead[i]),
        tag.len() > 0,
        !is_white(tag[0]),
    ensures
        trim(lead + tag + digits(n), Class::White) == tag + digits(n),
        has_prefix(tag + digits(n), tag),
        number(trim(after(tag + digits(n), tag.len() as int), Class::White)) == Some(n as usize),
{
    let d = digits(n);
    let s = tag + d;
    lemma_number_clean(n);
    assert(lead + tag + d =~= lead + s);
    assert(s[0] == tag[0]);
    assert(s.last() == d[d.len() - 1]);
    lemma_trim_ends(lead, s);
    assert(s.subrange(0, tag.len() as int) =~= tag);
    assert(after(s, tag.len() as int) =~= d);
    lemma_trim_edges(d);
}

proof fn lemma_bracket(head: Seq<char>, inner: Seq<char>)
    requires
        !has_char(inner, '['),
        inner.len() > 0,
        inner.last() != ']',
    ensures
        header_counts(head + " ["@ + inner + "]"@) == (
            count_tagged(split(inner, ','), "ahead "@),
            count_tagged(split(inner, ','), "behind "@),
        ),
{
    let s = head + " ["@ + inner + "]"@;
    reveal_strlit(" [");
    reveal_strlit("]");
    let at = head.len() as int + 1;
    let n = s.len() as int;
    assert(s[at] == '[');
    lemma_rfind_char(s, '[', n);
    let r = rfind_char(s, '[', n);
    assert forall|k: int| at < k < n implies s[k] != '[' by {
        if k < n - 1 {
            assert(s[k] == inner[k - at - 1]);
        }
    }
    assert(r == at);
    let tail = after(s, r + 1);
    assert(tail =~= inner + seq![']']);
    lemma_close(inner);
}

proof fn lemma_close(inner: Seq<char>)
    requires
        inner.len() > 0,
        inner.last() != ']',
    ensures
        trim_end(inner + seq![']'], Class::One(']')) == inner,
{
    let s = inner + seq![']'];
    assert(s[s.len() - 1] == ']');
    assert(s[s.len() - 2] == inner.last());
    assert(crate::scan::skip_back(s, Class::One(']'), s.len() as int) == crate::scan::skip_back(
        s,
        Class::One(']'),
        s.len() - 1,
    ));
    assert(crate::scan::skip_back(s, Class::One(']'), s.len() - 1) == s.len() - 1);
    assert(s.subrange(0, s.len() - 1) =~= inner);
}

proof fn lemma_distance(head: Seq<char>, ahead: nat, behind: nat)
    requires
        !has_char(head, '['),
        ahead <= usize::MAX,
        behind <= usize::MAX,
    ensures
        header_counts(head + distance_text(ahead, behind)) == (ahead as usize, behind as usize),
{
    reveal_strlit(" [ahead ");
    reveal_strlit(", behind ");
    reveal_strlit(" [behind ");
    reveal_strlit("]");
    reveal_strlit(" [");
    reveal_strlit("ahead ");
    reveal_strlit("behind ");
    reveal_strlit("");
    lemma_number_clean(ahead);
    lemma_number_clean(behind);
    let none = Seq::<char>::empty();
    let s = head + distance_text(ahead, behind);
    let a = "ahead "@ + digits(ahead);
    let b = "behind "@ + digits(behind);
    lemma_tagged(none, "ahead "@, ahead);
    lemma_tagged(none, "behind "@, behind);
    lemma_tagged(seq![' '], "behind "@, behind);
    assert(none + "ahead "@ + digits(ahead) =~= a);
    assert(none + "behind "@ + digits(behind) =~= b);
    assert(!has_prefix(a, "behind "@)) by {
        if has_prefix(a, "behind "@) {
            assert(a.subrange(0, 7)[0] == "behind "@[0]);
        }
    }
    assert(!has_prefix(b, "ahead "@)) by {
        if has_prefix(b, "ahead "@) {
            assert(b.subrange(0, 6)[0] == "ahead "@[0]);
        }
    }
    assert(!has_char(a, ',') && !has_char(a, '[')) by {
        assert forall|i: int| 0 <= i < a.len() implies a[i] != ',' && a[i] != '[' by {
            if i >= 6 {
                assert(a[i] == digits(ahead)[i - 6]);
            }
        }
    }
    assert(!has_char(b, ',') && !has_char(b, '[')) by {
        assert forall|i: int| 0 <= i < b.len() implies b[i] != ',' && b[i] != '[' by {
            if i >= 7 {
                assert(b[i] == digits(behind)[i - 7]);
            }
        }
    }
    assert(a.last() == digits(ahead).last());
    assert(b.last() == digits(behind).last());
    assert(digits(ahead).last() == digits(ahead)[digits(ahead).len() - 1]);
    assert(digits(behind).last() == digits(behind)[digits(behind).len() - 1]);
    if ahead > 0 && behind > 0 {
        let inner = a + seq![','] + (seq![' '] + b);
        let spaced = seq![' '] + b;
        assert(s =~= head + " ["@ + inner + "]"@);
        assert(!has_char(inner, '[')) by {
            assert forall|i: int| 0 <= i < inner.len() implies inner[i] != '[' by {
                if i < a.len() {
                    assert(inner[i] == a[i]);
                } else if i >= a.len() + 2 {
                    assert(inner[i] == b[i - a.len() - 2]);
                }
            }
        }
        lemma_bracket(head, inner);
        lemma_split_head(a, ',', spaced);
        assert(!has_char(spaced, ',')) by {
            assert forall|i: int| 0 <= i < spaced.len() implies spaced[i] != ',' by {
                if i > 0 {
                    assert(spaced[i] == b[i - 1]);
                }
            }
        }
        lemma_split_whole(spaced, ',');
        let parts = split(inner, ',');
        assert(parts =~= seq![a, spaced]);
        assert(seq![' '] + "behind "@ + digits(behind) =~= spaced);
        let rest = parts.subrange(1, 2);
        assert(rest =~= seq![spaced]);
        assert(count_tagged(parts, "behind "@) == count_tagged(rest, "behind "@));
    } else if ahead > 0 {
        assert(s =~= head + " ["@ + a + "]"@);
        lemma_bracket(head, a);
        lemma_split_whole(a, ',');
        let parts = split(a, ',');
        assert(parts.subrange(1, 1) =~= Seq::empty());
        assert(count_tagged(parts.subrange(1, 1), "behind "@) == 0);
    } else if behind > 0 {
        assert(s =~= head + " ["@ + b + "]"@);
        lemma_bracket(head, b);
        lemma_split_whole(b, ',');
        let parts = split(b, ',');
        assert(parts.subrange(1, 1) =~= Seq::empty());
        assert(count_tagged(parts.subrange(1, 1), "ahead "@) == 0);
    } else {
        assert(s =~= head);
        lemma_rfind_char(s, '[', s.len() as int);
    }
}

/// The header of a status names the branch, whether it has an upstream, and how far ahead
/// of it and behind it the branch is.
pub proof fn law_header_names_the_branch(
    branch: Seq<char>,
    upstream: Seq<char>,
    ahead: nat,
    behind: nat,
)
    requires
        branch_name(branch),
        branch_name(upstream),
        !has_prefix(branch, "No commits yet on "@),
        ahead <= usize::MAX,
        behind <= usize::MAX,
    ensures
        ({
            let s = status_read(
                "## "@ + branch + "..."@ + upstream + distance_text(ahead, behind) + seq!['\0'],
            );
            &&& s.branch == branch
            &&& s.has_upstream
            &&& s.ahead == ahead
            &&& s.behind == behind
            &&& s.staged.len() == 0 && s.unstaged.len() == 0
        }),
{
    let d = distance_text(ahead, behind);
    let h = branch + "..."@ + upstream + d;
    reveal_strlit("...");
    lemma_dots(branch, upstream + d);
    assert(branch + "..."@ + (upstream + d) =~= h);
    let head = branch + "..."@ + upstream;
    assert(!has_char(head, '[')) by {
        assert forall|i: int| 0 <= i < head.len() implies head[i] != '[' by {
            if i < branch.len() {
                assert(head[i] == branch[i]);
            } else if i >= branch.len() + 3 {
                assert(head[i] == upstream[i - branch.len() - 3]);
            }
        }
    }
    lemma_distance(head, ahead, behind);
    assert(h.take(branch.len() as int) =~= branch);
    assert(!has_char(h, '\0')) by {
        lemma_distance_clean(ahead, behind);
        assert forall|i: int| 0 <= i < h.len() implies h[i] != '\0' by {
            if i < branch.len() {
                assert(h[i] == branch[i]);
            } else if i < branch.len() + 3 {
            } else if i < head.len() {
                assert(h[i] == upstream[i - branch.len() - 3]);
            } else {
                assert(h[i] == d[i - head.len()]);
            }
        }
    }
    lemma_header(h);
    assert("## "@ + h + seq!['\0'] =~= "## "@ + branch + "..."@ + upstream + d + seq!['\0']);
}

proof fn lemma_distance_clean(ahead: nat, behind: nat)
    ensures
        !has_char(distance_text(ahead, behind), '\0'),
{
    reveal_strlit(" [ahead ");
    reveal_strlit(", behind ");
    reveal_strlit(" [behind ");
    reveal_strlit("]");
    reveal_strlit("");
    lemma_number_clean(ahead);
    lemma_number_clean(behind);
    let d = distance_text(ahead, behind);
    assert forall|i: int| 0 <= i < d.len() implies d[i] != '\0' by {
        let a = digits(ahead).len();
        if ahead > 0 && behind > 0 {
            if 8 <= i < 8 + a {
                assert(d[i] == digits(ahead)[i - 8]);
            } else if 17 + a <= i < d.len() - 1 {
                assert(d[i] == digits(behind)[i - 17 - a]);
            }
        } else if ahead > 0 {
            if 8 <= i < 8 + a {
                assert(d[i] == digits(ahead)[i - 8]);
            }
        } else if behind > 0 {
            if 9 <= i < d.len() - 1 {
                assert(d[i] == digits(behind)[i - 9]);
            }
        }
    }
}

/// What a header alone says.
proof fn lemma_header(h: Seq<char>)
    requires
        !has_char(h, '\0'),
    ensures
        ({
            let s = status_read("## "@ + h + seq!['\0']);
            &&& s.branch == header_branch(h)
            &&& s.ahead == header_counts(h).0
            &&& s.behind == header_counts(h).1
            &&& s.has_upstream == (find_seq(h, "..."@, 0) >= 0)
            &&& s.staged.len() == 0 && s.unstaged.len() == 0
        }),
{
    let none = Seq::<char>::empty();
    reveal_strlit("## ");
    let own = "## "@ + h;
    assert(!has_char(own, '\0')) by {
        assert forall|i: int| 0 <= i < own.len() implies own[i] != '\0' by {
            if i >= 3 {
                assert(own[i] == h[i - 3]);
            }
        }
    }
    lemma_split_whole(none, '\0');
    lemma_split_head(own, '\0', none);
    let text = "## "@ + h + seq!['\0'];
    assert(own + seq!['\0'] + none =~= text);
    let parts = split(text, '\0');
    assert(parts =~= seq![own, none]);
    lemma_last_part(parts, 1);
    assert(own.subrange(0, 3) =~= "## "@);
    assert(after(own, 3) =~= h);
    let rs = records(parts, 0);
    assert(rs =~= seq![Record::Header(h)]);
    assert(rs.drop_last() =~= Seq::empty());
    assert(staged_list(Seq::empty()) =~= Seq::empty());
    assert(unstaged_list(Seq::empty()) =~= Seq::empty());
}

/// A branch without an upstream, with commits or without, is named all the same.
pub proof fn law_header_without_upstream(branch: Seq<char>)
    requires
        branch_name(branch),
        !has_prefix(branch, "No commits yet on "@),
    ensures
        ({
            let s = status_read("## "@ + branch + seq!['\0']);
            s.branch == branch && !s.has_upstream && s.ahead == 0 && s.behind == 0
        }),
        status_read("## No commits yet on "@ + branch + seq!['\0']).branch == branch,
{
    assert(!has_char(branch, '\0'));
    lemma_header(branch);
    lemma_no_dots(branch);
    lemma_rfind_char(branch, '[', branch.len() as int);
    reveal_strlit("No commits yet on ");
    reveal_strlit("## No commits yet on ");
    reveal_strlit("## ");
    let h = "No commits yet on "@ + branch;
    assert(branch_name(h)) by {
        assert forall|i: int| 0 <= i < h.len() - 1 implies !(#[trigger] h[i] == '.' && h[i + 1]
            == '.') by {
            if i >= 18 {
                assert(h[i] == branch[i - 18] && h[i + 1] == branch[i - 17]);
            }
        }
        assert forall|i: int| 0 <= i < h.len() implies h[i] != '[' && h[i] != '\0' by {
            if i >= 18 {
                assert(h[i] == branch[i - 18]);
            }
        }
    }
    assert(!has_char(h, '\0'));
    lemma_header(h);
    lemma_no_dots(h);
    assert("## "@ + h + seq!['\0'] =~= "## No commits yet on "@ + branch + seq!['\0']);
    assert(h.subrange(0, 18) =~= "No commits yet on "@);
    assert(after(h, 18) =~= branch);
}

} // verus!

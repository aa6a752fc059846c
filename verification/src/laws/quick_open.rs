//! What is found for a few letters, and in which order.

use vstd::prelude::*;

use crate::bytes::lossy;
use crate::git::{file_name, path_parts};
use crate::input::{no_modifiers, Key, KeyCode};
use crate::open_mailbox::TargetView;
use crate::quick_open::{
    best_matches, find_zero, indexed, key_step, letter_places, letters_rank, match_key, matching,
    moved, rank_of, retried, rg_failure, shown_parts, zero_parts, ActionView, AppView, FoundView,
    RgReply,
};
use crate::scan::{trim, Class};
use crate::sort::{precedes, SortKeyView};
use crate::text::{
    find_char, has_char, lemma_find_char, lemma_split_last, lemma_split_whole, lower, split,
};

verus! {

/// Whether five numbers come before five others or are the same, the first that differs
/// deciding.
pub open spec fn five_le(a: (int, int, int, int, int), b: (int, int, int, int, int)) -> bool {
    a.0 < b.0 || (a.0 == b.0 && (a.1 < b.1 || (a.1 == b.1 && (a.2 < b.2 || (a.2 == b.2 && (a.3 < b.3
        || (a.3 == b.3 && a.4 <= b.4)))))))
}

/// Whether results are the best of the entries that match, the best first: each of them
/// matches and is there once, none has a better rank than one before it, there are five
/// hundred at most, and an entry that matches is left out only where there are that many, none
/// of them worse than it.
pub open spec fn best_first(
    entries: Seq<FoundView>,
    query: Seq<char>,
    results: Seq<usize>,
) -> bool {
    &&& results.len() <= 500
    &&& results.no_duplicates()
    &&& forall|i: int|
        0 <= i < results.len() ==> #[trigger] results[i] < entries.len() && rank_of(
            entries[results[i] as int],
            query,
        ) is Some
    &&& forall|i: int, j: int|
        0 <= i < j < results.len() ==> five_le(
            rank_of(entries[#[trigger] results[i] as int], query)->0,
            rank_of(entries[#[trigger] results[j] as int], query)->0,
        )
    &&& forall|p: usize|
        p < entries.len() && rank_of(#[trigger] entries[p as int], query) is Some
            ==> results.contains(p) || (results.len() == 500 && forall|i: int|
            0 <= i < 500 ==> five_le(
                rank_of(entries[#[trigger] results[i] as int], query)->0,
                rank_of(entries[p as int], query)->0,
            ))
}

/// Whether a rank can be counted with.
pub open spec fn countable(r: (int, int, int, int, int)) -> bool {
    &&& 0 <= r.0 <= usize::MAX
    &&& 0 <= r.1 <= usize::MAX
    &&& 0 <= r.2 <= usize::MAX
    &&& 0 <= r.3 <= usize::MAX
    &&& 0 <= r.4 <= usize::MAX
}

pub proof fn lemma_key_order(a: FoundView, b: FoundView, query: Seq<char>, keys: Seq<SortKeyView>, i: int, j: int)
    requires
        rank_of(a, query) matches Some(r) && countable(r),
        rank_of(b, query) matches Some(r) && countable(r),
        keys[i] == match_key(a, query),
        keys[j] == match_key(b, query),
        precedes(keys, i, j),
    ensures
        five_le(rank_of(a, query)->0, rank_of(b, query)->0),
{
}

/// The places of the entries that match are those whose entry has a rank, each once.
pub proof fn law_every_match_is_counted(entries: Seq<FoundView>, query: Seq<char>, n: int)
    requires
        0 <= n <= entries.len() <= usize::MAX,
    ensures
        matching(entries, query, n).no_duplicates(),
        forall|p: usize| #[trigger]
            matching(entries, query, n).contains(p) <==> p < n && rank_of(entries[p as int], query) is Some,
    decreases n,
{
    let all = matching(entries, query, n);
    if n > 0 {
        law_every_match_is_counted(entries, query, n - 1);
        let less = matching(entries, query, n - 1);
        let last = (n - 1) as usize;
        assert forall|p: usize| #[trigger] all.contains(p) <==> p < n && rank_of(
            entries[p as int],
            query,
        ) is Some by {
            if all.contains(p) {
                let k = choose|k: int| 0 <= k < all.len() && all[k] == p;
                if k < less.len() {
                    assert(less[k] == p);
                    assert(less.contains(p));
                }
            }
            if less.contains(p) {
                let k = choose|k: int| 0 <= k < less.len() && less[k] == p;
                assert(all[k] == p);
            }
            if p == last && rank_of(entries[p as int], query) is Some {
                assert(all[all.len() - 1] == p);
            }
        }
        assert forall|i: int, j: int| 0 <= i < all.len() && 0 <= j < all.len() && i != j implies all[i]
            != all[j] by {
            if i < less.len() {
                assert(less.contains(less[i]));
            }
            if j < less.len() {
                assert(less.contains(less[j]));
            }
        }
    }
}

// ---- Ranks ----

/// Whether the letters of a query are found at these places of a candidate, one behind the
/// other.
pub open spec fn embeds(candidate: Seq<char>, query: Seq<char>, places: Seq<int>) -> bool {
    &&& places.len() == query.len()
    &&& forall|k: int|
        0 <= k < places.len() ==> 0 <= #[trigger] places[k] < candidate.len() && candidate[places[k]]
            == query[k]
    &&& forall|j: int, k: int|
        0 <= j < k < places.len() ==> #[trigger] places[j] < #[trigger] places[k]
}

proof fn lemma_places(candidate: Seq<char>, query: Seq<char>, from: int)
    requires
        0 <= from <= candidate.len(),
    ensures
        letter_places(candidate, query, from) matches Some(p) ==> embeds(candidate, query, p) && (
        forall|k: int| 0 <= k < p.len() ==> from <= #[trigger] p[k]),
        forall|q: Seq<int>|
            #![trigger embeds(candidate, query, q)]
            embeds(candidate, query, q) && (q.len() > 0 ==> from <= q[0]) ==> (letter_places(
                candidate,
                query,
                from,
            ) matches Some(p) && forall|k: int| 0 <= k < p.len() ==> #[trigger] p[k] <= q[k]),
    decreases query.len(),
{
    if query.len() > 0 {
        let at = find_char(candidate, query[0], from);
        let more = query.subrange(1, query.len() as int);
        lemma_find_char(candidate, query[0], from);
        if at < candidate.len() {
            lemma_places(candidate, more, at + 1);
        }
        match letter_places(candidate, query, from) {
            Some(p) => {
                let rest = letter_places(candidate, more, at + 1)->0;
                assert(p == seq![at] + rest);
                assert forall|k: int| 0 <= k < p.len() implies 0 <= #[trigger] p[k] < candidate.len()
                    && candidate[p[k]] == query[k] && from <= p[k] by {
                    if k > 0 {
                        assert(p[k] == rest[k - 1]);
                        assert(more[k - 1] == query[k]);
                    }
                }
                assert forall|j: int, k: int| 0 <= j < k < p.len() implies #[trigger] p[j]
                    < #[trigger] p[k] by {
                    assert(p[k] == rest[k - 1]);
                    if j > 0 {
                        assert(p[j] == rest[j - 1]);
                    }
                }
            },
            None => {},
        }
        assert forall|q: Seq<int>|
            #![trigger embeds(candidate, query, q)]
            embeds(candidate, query, q) && (q.len() > 0 ==> from <= q[0]) implies (letter_places(
            candidate,
            query,
            from,
        ) matches Some(p) && forall|k: int| 0 <= k < p.len() ==> #[trigger] p[k] <= q[k]) by {
            let t = q.subrange(1, q.len() as int);
            assert(at <= q[0]) by {
                if q[0] < at {
                    assert(candidate[q[0]] != query[0]);
                }
            }
            assert(embeds(candidate, more, t)) by {
                assert forall|k: int| 0 <= k < t.len() implies 0 <= #[trigger] t[k] < candidate.len()
                    && candidate[t[k]] == more[k] by {
                    assert(t[k] == q[k + 1]);
                }
                assert forall|j: int, k: int| 0 <= j < k < t.len() implies #[trigger] t[j]
                    < #[trigger] t[k] by {
                    assert(t[j] == q[j + 1] && t[k] == q[k + 1]);
                }
            }
            if t.len() > 0 {
                assert(t[0] == q[1]);
                assert(q[0] < q[1]);
            }
            let rest = letter_places(candidate, more, at + 1);
            assert(rest is Some);
            let p = letter_places(candidate, query, from)->0;
            assert forall|k: int| 0 <= k < p.len() implies #[trigger] p[k] <= q[k] by {
                if k > 0 {
                    assert(p[k] == rest->0[k - 1]);
                    assert(t[k - 1] == q[k]);
                }
            }
        }
    } else {
        assert(letter_places(candidate, query, from)->0 =~= Seq::empty());
    }
}

/// A candidate matches a query exactly where the query's letters are found in it one behind
/// the other. Its rank counts the letters between those of the earliest such places, then
/// where the first of these is, and then the length of the candidate.
pub proof fn law_rank_counts_the_gaps(candidate: Seq<char>, query: Seq<char>)
    requires
        query.len() > 0,
    ensures
        match letters_rank(candidate, query) {
            Some((gaps, start, len)) => exists|p: Seq<int>| #[trigger]
                embeds(candidate, query, p) && (forall|q: Seq<int>, k: int|
                    embeds(candidate, query, q) && 0 <= k < p.len() ==> p[k] <= #[trigger] q[k])
                    && start == p[0] && gaps + query.len() == p.last() - p[0] + 1 && len
                    == candidate.len(),
            None => forall|q: Seq<int>| !embeds(candidate, query, q),
        },
{
    lemma_places(candidate, query, 0);
    match letter_places(candidate, query, 0) {
        Some(p) => {
            assert(embeds(candidate, query, p));
            assert forall|q: Seq<int>, k: int|
                embeds(candidate, query, q) && 0 <= k < p.len() implies p[k] <= #[trigger] q[k] by {
                assert(0 <= q[0]);
                assert(p[k] <= q[k]);
            }
        },
        None => {
            assert forall|q: Seq<int>| !embeds(candidate, query, q) by {
                if embeds(candidate, query, q) {
                    assert(0 <= q[0]);
                }
            }
        },
    }
}

/// Letters that stand together rank before letters with others between them, wherever each
/// stands.
pub proof fn law_letters_together_rank_first(
    before: Seq<char>,
    query: Seq<char>,
    behind: Seq<char>,
    other: Seq<char>,
)
    requires
        query.len() > 0,
        !has_char(before, query[0]),
        letters_rank(other, query) is Some,
    ensures
        letters_rank(before + query + behind, query) == Some(
            (0int, before.len() as int, (before.len() + query.len() + behind.len()) as int),
        ),
        (letters_rank(other, query)->0).0 >= 0,
{
    let s = before + query + behind;
    let n = before.len() as int;
    let q = Seq::new(query.len(), |k: int| n + k);
    assert(embeds(s, query, q));
    law_rank_counts_the_gaps(s, query);
    assert(letters_rank(s, query) is Some);
    let (gaps, start, len) = letters_rank(s, query)->0;
    let p = choose|p: Seq<int>| #[trigger]
        embeds(s, query, p) && (forall|q: Seq<int>, k: int|
            embeds(s, query, q) && 0 <= k < p.len() ==> p[k] <= #[trigger] q[k]) && start == p[0]
            && gaps + query.len() == p.last() - p[0] + 1 && len == s.len();
    assert(p[0] <= q[0]);
    assert(s[p[0]] == query[0]);
    if p[0] < n {
        assert(before[p[0]] == query[0]);
    }
    let last = query.len() - 1;
    assert(p[last] <= q[last]);
    lemma_spread(p, last);
    law_rank_counts_the_gaps(other, query);
    let (g2, s2, l2) = letters_rank(other, query)->0;
    let r = choose|r: Seq<int>| #[trigger]
        embeds(other, query, r) && (forall|q: Seq<int>, k: int|
            embeds(other, query, q) && 0 <= k < r.len() ==> r[k] <= #[trigger] q[k]) && s2 == r[0]
            && g2 + query.len() == r.last() - r[0] + 1 && l2 == other.len();
    lemma_spread(r, last);
}

proof fn lemma_spread(p: Seq<int>, k: int)
    requires
        0 <= k < p.len(),
        forall|i: int, j: int| 0 <= i < j < p.len() ==> #[trigger] p[i] < #[trigger] p[j],
    ensures
        p[k] >= p[0] + k,
    decreases k,
{
    if k > 0 {
        lemma_spread(p, k - 1);
        assert(p[k - 1] < p[k]);
    }
}

/// The name of a path is what follows its last slash.
pub proof fn law_name_is_the_last_part(dir: Seq<char>, name: Seq<char>)
    requires
        name.len() > 0,
        !has_char(name, '/'),
        name != "."@,
        name != ".."@,
    ensures
        file_name(dir + seq!['/'] + name) == Some(name),
        file_name(name) == Some(name),
{
    let path = dir + seq!['/'] + name;
    lemma_split_last(path, '/', name, dir);
    lemma_split_whole(name, '/');
    assert(path_parts(split(path, '/')).last() == name);
    assert(seq![name].drop_last() =~= Seq::empty());
    assert(path_parts(seq![name]).last() == name);
}

/// How an entry ranks: by its name where the letters are found there, else by its whole path,
/// and not at all where they are found in neither; case makes no difference. What is
/// found in a name comes before what is found in a path alone.
pub proof fn law_entries_rank_by_name_first(e: FoundView, name: Seq<char>, query: Seq<char>)
    requires
        query.len() > 0,
        file_name(e.path) == Some(name),
    ensures
        match (letters_rank(lower(name), lower(query)), letters_rank(lower(e.path), lower(query))) {
            (Some((gaps, start, len)), _) => rank_of(e, query) == Some((0int, gaps, start, len, 0int)),
            (None, Some((gaps, start, len))) => rank_of(e, query) == Some(
                (1int, gaps, start, len, 0int),
            ),
            (None, None) => rank_of(e, query) is None,
        },
{
}

/// Without a query every entry is found: the shorter path first, and a file before a
/// folder of the same length.
pub proof fn law_all_entries_without_a_query(a: FoundView, b: FoundView)
    requires
        vstd::utf8::encode_utf8(a.path).len() <= usize::MAX,
        vstd::utf8::encode_utf8(b.path).len() <= usize::MAX,
    ensures
        rank_of(a, Seq::empty()) is Some,
        vstd::utf8::encode_utf8(a.path).len() < vstd::utf8::encode_utf8(b.path).len() ==> !five_le(
            rank_of(b, Seq::empty())->0,
            rank_of(a, Seq::empty())->0,
        ),
        vstd::utf8::encode_utf8(a.path).len() == vstd::utf8::encode_utf8(b.path).len() && !a.is_dir
            && b.is_dir ==> !five_le(rank_of(b, Seq::empty())->0, rank_of(a, Seq::empty())->0),
{
}

// ---- The view ----

/// What is typed is searched for at once, and the best result is selected; the results are
/// for what is typed without the blanks round it.
pub proof fn law_typing_searches_anew(a: AppView, c: char)
    requires
        a.error is None,
        c != 'u',
        c != 'n',
        c != 'p',
        c != 'c',
    ensures
        ({
            let (next, action) = key_step(
                a,
                Key { code: KeyCode::Char(c), modifiers: no_modifiers(), press: true },
            );
            let (back, _) = key_step(
                a,
                Key { code: KeyCode::Backspace, modifiers: no_modifiers(), press: true },
            );
            &&& next.query == a.query.push(c)
            &&& next.results == best_matches(a.entries, trim(a.query.push(c), Class::White))
            &&& next.selected == 0 && next.scroll == 0
            &&& next.entries == a.entries
            &&& action is Keep
            &&& a.query.len() > 0 ==> back.query == a.query.drop_last()
        }),
{
}

/// The key that opens asks the Explorer for the entry that is selected, by its path below the
/// Explorer's folder.
pub proof fn law_selected_entry_is_opened(a: AppView, target: TargetView)
    requires
        a.error is None,
        !a.indexing,
        a.target == Some(target),
        0 <= a.selected < a.results.len(),
        a.results[a.selected] < a.entries.len(),
    ensures
        ({
            let e = a.entries[a.results[a.selected] as int];
            let (next, action) = key_step(
                a,
                Key { code: KeyCode::Enter, modifiers: no_modifiers(), press: true },
            );
            &&& next == a
            &&& action matches ActionView::Send(pane, request) && pane == target.pane_id && request.root
                == target.root && request.path == e.path && request.is_dir == e.is_dir
        }),
{
}

/// The keys that move the selection move it by one result, and stop at both ends.
pub proof fn law_selection_moves_by_one(a: AppView)
    requires
        a.results.len() > 0,
        0 <= a.selected < a.results.len(),
    ensures
        moved(a, 1).selected == (if a.selected + 1 < a.results.len() {
            a.selected + 1
        } else {
            a.selected
        }),
        moved(a, -1).selected == (if a.selected > 0 {
            a.selected - 1
        } else {
            0
        }),
        moved(a, 1).results == a.results && moved(a, 1).query == a.query,
{
}

/// The name of an entry is shown, a folder's with a slash behind it.
pub proof fn law_results_show_their_name(dir: Seq<char>, name: Seq<char>)
    requires
        name.len() > 0,
        !has_char(name, '/'),
        name != "."@,
        name != ".."@,
    ensures
        shown_parts(FoundView { path: dir + seq!['/'] + name, is_dir: false }).0 == name,
        shown_parts(FoundView { path: dir + seq!['/'] + name, is_dir: true }).0 == name + seq!['/'],
{
    law_name_is_the_last_part(dir, name);
    reveal_strlit("/");
    assert("/"@ =~= seq!['/']);
}

// ---- Listing files ----

/// The names that ripgrep wrote with a zero byte behind each are read one by one.
pub proof fn law_names_end_at_zero_bytes(name: Seq<u8>, rest: Seq<u8>)
    requires
        forall|i: int| 0 <= i < name.len() ==> name[i] != 0,
    ensures
        zero_parts(Seq::empty(), 0).len() == 0,
        name.len() > 0 ==> zero_parts(name + seq![0u8] + rest, 0) == seq![lossy(name)] + zero_parts(
            rest,
            0,
        ),
        name.len() == 0 ==> zero_parts(name + seq![0u8] + rest, 0) == zero_parts(rest, 0),
        name.len() > 0 ==> zero_parts(name, 0) == seq![lossy(name)],
{
    let s = name + seq![0u8] + rest;
    let n = name.len() as int;
    lemma_zero_at(s, 0, n);
    assert(s.subrange(0, n) =~= name);
    lemma_parts_behind(name + seq![0u8], rest, 0);
    assert((name + seq![0u8]) + rest =~= s);
    lemma_zero_at(name, 0, n);
    assert(name.subrange(0, n) =~= name);
}

proof fn lemma_zero_at(s: Seq<u8>, from: int, to: int)
    requires
        0 <= from <= to <= s.len(),
        forall|i: int| from <= i < to ==> s[i] != 0,
        to < s.len() ==> s[to] == 0,
    ensures
        find_zero(s, from) == to,
    decreases to - from,
{
    if from < to {
        lemma_zero_at(s, from + 1, to);
    }
}

proof fn lemma_zero_behind(a: Seq<u8>, b: Seq<u8>, i: int)
    requires
        0 <= i <= b.len(),
    ensures
        find_zero(a + b, a.len() + i) == a.len() + find_zero(b, i),
        i <= find_zero(b, i) <= b.len(),
    decreases b.len() - i,
{
    if i < b.len() && b[i] != 0 {
        lemma_zero_behind(a, b, i + 1);
    }
}

proof fn lemma_parts_behind(a: Seq<u8>, b: Seq<u8>, i: int)
    requires
        0 <= i <= b.len(),
    ensures
        zero_parts(a + b, a.len() + i) == zero_parts(b, i),
    decreases b.len() - i,
{
    if i < b.len() {
        lemma_zero_behind(a, b, i);
        let z = find_zero(b, i);
        assert((a + b).subrange(a.len() + i, a.len() + z) =~= b.subrange(i, z));
        if z < b.len() {
            lemma_parts_behind(a, b, z + 1);
        }
    }
}

/// A list is had from ripgrep where it succeeded or found nothing, and only there; what it
/// complained of is told.
pub proof fn law_finding_nothing_is_no_failure(reply: RgReply)
    ensures
        rg_failure(reply) is None <==> reply is Ended && (reply->success || reply->code == Some(1i32)),
        reply is Ended && rg_failure(reply) is Some && trim(lossy(reply->stderr@), Class::White).len() > 0
            ==> rg_failure(reply) == Some(trim(lossy(reply->stderr@), Class::White)),
{
}

/// When the files were listed, the results for what is typed stand there; what was typed stays,
/// and a failure is told in their place. A list that nothing waits for changes nothing.
pub proof fn law_lists_are_searched_at_once(a: AppView, entries: Seq<FoundView>, e: Seq<char>)
    ensures
        a.indexing ==> ({
            let next = indexed(a, Ok(entries));
            &&& !next.indexing
            &&& next.entries == entries
            &&& next.query == a.query
            &&& next.results == best_matches(entries, trim(a.query, Class::White))
            &&& next.selected == 0
        }),
        a.indexing ==> indexed(a, Err(e)).error == Some(e) && !indexed(a, Err(e)).indexing,
        !a.indexing ==> indexed(a, Ok(entries)) == a && indexed(a, Err(e)) == a,
{
}

/// When the Explorer was found, its folder is listed and what was found elsewhere is gone; what
/// was typed stays.
pub proof fn law_found_explorer_is_listed(a: AppView, target: TargetView, e: Seq<char>)
    ensures
        ({
            let next = retried(a, Ok(target));
            &&& next.target == Some(target) && next.root == target.root
            &&& next.indexing && next.error is None
            &&& next.entries.len() == 0 && next.results.len() == 0 && next.match_count == 0
            &&& next.query == a.query
        }),
        retried(a, Err(e)).error == Some(e) && retried(a, Err(e)).target is None && !retried(
            a,
            Err(e),
        ).indexing,
{
}

} // verus!

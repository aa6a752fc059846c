//! Where links lead, and who is asked to open them.

use vstd::prelude::*;
use vstd::utf8::encode_utf8;

use crate::git::{EntryView, StatusView};
use crate::input::Platform;
use crate::laws::text::lemma_trim_edges;
use crate::open_mailbox::{
    diff_kind, digit_run, drive_path, entry_at, explorer_root, fresh_stamp, hex_value, hinted_line,
    line_suffix, link_resource, link_target, live_explorer, percent_decoded, unescaped, url_path,
    ContextView, LinkView, PaneView,
};
use crate::scan::{digits, is_digit, is_white, law_digits_read_back, number, same_letters};
use crate::text::{
    after, has_char, has_prefix, lemma_find_char_unique, lemma_rfind_char, rfind_char,
};

verus! {

// ---- Percent escapes ----

/// The digit for a value below sixteen.
pub open spec fn hex_digit(n: u8) -> u8 {
    if n < 10 {
        (48 + n) as u8
    } else {
        (55 + n) as u8
    }
}

/// Bytes with each written as a percent sign and two digits.
pub open spec fn escaped_bytes(bytes: Seq<u8>) -> Seq<u8>
    decreases bytes.len(),
{
    if bytes.len() == 0 {
        Seq::empty()
    } else {
        seq![37u8, hex_digit(bytes[0] / 16), hex_digit(bytes[0] % 16)] + escaped_bytes(bytes.skip(1))
    }
}

proof fn lemma_unescaped_from(p: Seq<u8>, q: Seq<u8>, k: int)
    requires
        0 <= k,
    ensures
        unescaped(p + q, p.len() + k) == unescaped(q, k),
    decreases q.len() + 3 - k,
{
    if k < q.len() {
        let all = p + q;
        assert(all[p.len() + k] == q[k]);
        if k + 1 < q.len() {
            assert(all[p.len() + k + 1] == q[k + 1]);
        }
        if k + 2 < q.len() {
            assert(all[p.len() + k + 2] == q[k + 2]);
        }
        lemma_unescaped_from(p, q, k + 1);
        lemma_unescaped_from(p, q, k + 3);
    }
}

/// Bytes that were escaped are read back, and bytes without a percent sign stay as they are.
pub proof fn law_escapes_are_read_back(bytes: Seq<u8>)
    ensures
        unescaped(escaped_bytes(bytes), 0) == Some(bytes),
        !bytes.contains(37u8) ==> unescaped(bytes, 0) == Some(bytes),
    decreases bytes.len(),
{
    if bytes.len() == 0 {
        assert(unescaped(escaped_bytes(bytes), 0)->0 =~= bytes);
        assert(unescaped(bytes, 0)->0 =~= bytes);
    } else {
        let b = bytes[0];
        let rest = bytes.skip(1);
        law_escapes_are_read_back(rest);
        let p = seq![37u8, hex_digit(b / 16), hex_digit(b % 16)];
        let q = escaped_bytes(rest);
        assert(escaped_bytes(bytes) == p + q);
        lemma_unescaped_from(p, q, 0);
        let all = p + q;
        assert(all[0] == 37 && all[1] == hex_digit(b / 16) && all[2] == hex_digit(b % 16));
        assert(hex_value(hex_digit(b / 16)) == Some((b / 16) as u8));
        assert(hex_value(hex_digit(b % 16)) == Some((b % 16) as u8));
        assert(((b / 16) * 16 + b % 16) as u8 == b);
        assert(unescaped(all, 3) == Some(rest));
        assert(seq![b] + rest =~= bytes);
        if !bytes.contains(37u8) {
            assert(bytes.contains(bytes[0]));
            assert(!rest.contains(37u8)) by {
                if rest.contains(37u8) {
                    let i = choose|i: int| 0 <= i < rest.len() && rest[i] == 37u8;
                    assert(bytes[i + 1] == 37u8);
                }
            }
            let one = seq![b];
            lemma_unescaped_from(one, rest, 0);
            assert(one + rest =~= bytes);
            assert(unescaped(bytes, 1) == Some(rest));
        }
    }
}

/// A text is decoded to the text whose bytes its escapes stand for.
pub proof fn law_decoding_gives_the_text(value: Seq<char>, text: Seq<char>)
    requires
        unescaped(encode_utf8(value), 0) == Some(encode_utf8(text)),
        !encode_utf8(text).contains(0u8),
    ensures
        percent_decoded(value) == Ok::<Seq<char>, Seq<char>>(text),
{
    vstd::utf8::encode_utf8_valid_utf8(text);
    vstd::utf8::encode_utf8_decode_utf8(text);
}

/// A percent sign without two digits behind it makes the address invalid.
pub proof fn law_broken_escapes_are_refused(before: Seq<u8>, behind: Seq<u8>)
    requires
        !before.contains(37u8),
        behind.len() < 2 || hex_value(behind[0]) is None || hex_value(behind[1]) is None,
    ensures
        unescaped(before + seq![37u8] + behind, 0) is None,
    decreases before.len(),
{
    let all = before + seq![37u8] + behind;
    if before.len() == 0 {
        assert(all[0] == 37u8);
        if behind.len() >= 2 {
            assert(all[1] == behind[0] && all[2] == behind[1]);
        }
    } else {
        let rest = before.skip(1);
        assert(before.contains(before[0]));
        assert(!rest.contains(37u8)) by {
            if rest.contains(37u8) {
                let i = choose|i: int| 0 <= i < rest.len() && rest[i] == 37u8;
                assert(before[i + 1] == 37u8);
            }
        }
        law_broken_escapes_are_refused(rest, behind);
        let one = seq![before[0]];
        let more = rest + seq![37u8] + behind;
        assert(one + more =~= all);
        lemma_unescaped_from(one, more, 0);
        assert(all[0] == before[0]);
    }
}

// ---- Lines ----

proof fn lemma_run(s: Seq<char>, i: int, n: int)
    requires
        0 <= i <= n <= s.len(),
        forall|k: int| i <= k < n ==> is_digit(#[trigger] s[k]),
        n < s.len() ==> !is_digit(s[n]),
    ensures
        digit_run(s, i) == n,
    decreases n - i,
{
    if i < n {
        assert(is_digit(s[i]));
        lemma_run(s, i + 1, n);
    }
}

proof fn lemma_number(n: nat)
    requires
        n <= usize::MAX,
    ensures
        digits(n).len() >= 1,
        forall|i: int| 0 <= i < digits(n).len() ==> is_digit(#[trigger] digits(n)[i]),
        number(digits(n)) == Some(n as usize),
{
    law_digits_read_back(n);
    assert(is_digit(digits(n)[0]));
}

/// A hint names its line with or without the letter before it, whatever stands behind it,
/// and also as the value of `line`.
pub proof fn law_hints_name_their_line(n: nat, behind: Seq<char>)
    requires
        0 < n <= usize::MAX,
        behind.len() > 0 ==> !is_digit(behind[0]),
    ensures
        hinted_line(digits(n) + behind) == Some(n as usize),
        hinted_line("L"@ + digits(n) + behind) == Some(n as usize),
        hinted_line("l"@ + digits(n) + behind) == Some(n as usize),
        hinted_line("line="@ + digits(n) + behind) == Some(n as usize),
{
    lemma_number(n);
    let s = digits(n) + behind;
    let k = digits(n).len() as int;
    reveal_strlit("L");
    reveal_strlit("l");
    reveal_strlit("line=");
    reveal_strlit("Line=");
    assert forall|i: int| 0 <= i < k implies is_digit(#[trigger] s[i]) by {
        assert(s[i] == digits(n)[i]);
    }
    if behind.len() > 0 {
        assert(s[k] == behind[0]);
    }
    lemma_run(s, 0, k);
    assert(s.take(k) =~= digits(n));
    assert(is_digit(s[0]));
    lemma_no_prefix(s);
    let a = "L"@ + digits(n) + behind;
    assert(a[0] == 'L' && a[1] == s[0]);
    assert(a.subrange(0, 1) =~= "L"@);
    assert(after(a, 1) =~= s);
    assert(!has_prefix(a, "line="@)) by {
        if has_prefix(a, "line="@) {
            assert(a.subrange(0, 5)[0] == 'l');
        }
    }
    assert(!has_prefix(a, "Line="@)) by {
        if has_prefix(a, "Line="@) {
            assert(a.subrange(0, 5)[1] == 'i');
        }
    }
    let b = "l"@ + digits(n) + behind;
    assert(b[0] == 'l' && b[1] == s[0]);
    assert(b.subrange(0, 1) =~= "l"@);
    assert(after(b, 1) =~= s);
    assert(!has_prefix(b, "line="@)) by {
        if has_prefix(b, "line="@) {
            assert(b.subrange(0, 5)[1] == 'i');
        }
    }
    assert(!has_prefix(b, "Line="@)) by {
        if has_prefix(b, "Line="@) {
            assert(b.subrange(0, 5)[0] == 'L');
        }
    }
    assert(!has_prefix(b, "L"@)) by {
        if has_prefix(b, "L"@) {
            assert(b.subrange(0, 1)[0] == 'L');
        }
    }
    let c = "line="@ + digits(n) + behind;
    assert(c.subrange(0, 5) =~= "line="@);
    assert(after(c, 5) =~= s);
}

proof fn lemma_no_prefix(s: Seq<char>)
    requires
        s.len() > 0,
        is_digit(s[0]),
    ensures
        !has_prefix(s, "L"@) && !has_prefix(s, "l"@) && !has_prefix(s, "line="@) && !has_prefix(
            s,
            "Line="@,
        ),
{
    reveal_strlit("L");
    reveal_strlit("l");
    reveal_strlit("line=");
    reveal_strlit("Line=");
    if has_prefix(s, "L"@) {
        assert(s.subrange(0, 1)[0] == 'L');
    }
    if has_prefix(s, "l"@) {
        assert(s.subrange(0, 1)[0] == 'l');
    }
    if has_prefix(s, "line="@) {
        assert(s.subrange(0, 5)[0] == 'l');
    }
    if has_prefix(s, "Line="@) {
        assert(s.subrange(0, 5)[0] == 'L');
    }
}

proof fn lemma_rfind(s: Seq<char>, c: char, at: int)
    requires
        0 <= at < s.len(),
        s[at] == c,
        forall|k: int| at < k < s.len() ==> s[k] != c,
    ensures
        rfind_char(s, c, s.len() as int) == at,
{
    lemma_rfind_char(s, c, s.len() as int);
}

/// A path with a line, or a line and a column, behind colons is taken apart.
pub proof fn law_line_suffixes_are_taken_off(path: Seq<char>, n: nat, column: nat)
    requires
        !has_char(path, ':'),
        0 < n <= usize::MAX,
        column <= usize::MAX,
    ensures
        line_suffix(path + seq![':'] + digits(n)) == Some((path, n as usize)),
        line_suffix(path + seq![':'] + digits(n) + seq![':'] + digits(column)) == Some(
            (path, n as usize),
        ),
        line_suffix(path) is None,
{
    lemma_number(n);
    lemma_number(column);
    let a = path + seq![':'] + digits(n);
    let p = path.len() as int;
    assert(a[p] == ':');
    assert forall|k: int| p < k < a.len() implies a[k] != ':' by {
        assert(a[k] == digits(n)[k - p - 1]);
    }
    lemma_rfind(a, ':', p);
    assert(a.take(p) =~= path);
    assert(after(a, p + 1) =~= digits(n));
    lemma_rfind_char(path, ':', p);
    let b = a + seq![':'] + digits(column);
    let q = a.len() as int;
    assert(b =~= path + seq![':'] + digits(n) + seq![':'] + digits(column));
    assert(b[q] == ':');
    assert forall|k: int| q < k < b.len() implies b[k] != ':' by {
        assert(b[k] == digits(column)[k - q - 1]);
    }
    lemma_rfind(b, ':', q);
    assert(b.take(q) =~= a);
    assert(after(b, q + 1) =~= digits(column));
}

/// A plain absolute path is a link to itself, at the line that its fragment names; where the
/// path is not there and no line is named, one is taken off its end. A relative path is none.
pub proof fn law_paths_are_links(path: Seq<char>, n: nat, platform: Platform)
    requires
        platform != Platform::Windows,
        path.len() > 0,
        !is_white(path[0]),
        !is_white(path.last()),
        !has_char(path, '#'),
        !has_char(path, ':'),
        0 < n <= usize::MAX,
    ensures
        path[0] == '/' ==> link_resource(path, platform) == Ok::<LinkView, Seq<char>>(
            LinkView { path, line: None },
        ),
        path[0] == '/' ==> link_resource(path + "#L"@ + digits(n), platform) == Ok::<
            LinkView,
            Seq<char>,
        >(LinkView { path, line: Some(n as usize) }),
        path[0] == '/' ==> link_target(path + seq![':'] + digits(n), false, platform) == Ok::<
            LinkView,
            Seq<char>,
        >(LinkView { path, line: Some(n as usize) }),
        path[0] == '/' ==> link_target(path + seq![':'] + digits(n), true, platform) == Ok::<
            LinkView,
            Seq<char>,
        >(LinkView { path: path + seq![':'] + digits(n), line: None }),
        path[0] != '/' ==> link_resource(path, platform) is Err,
{
    lemma_number(n);
    reveal_strlit("file://");
    reveal_strlit("#L");
    reveal_strlit("L");
    lemma_trim_edges(path);
    lemma_find_char_unique(path, '#', 0, path.len() as int);
    assert(!has_prefix(path, "file://"@)) by {
        if has_prefix(path, "file://"@) {
            assert(path.subrange(0, 7)[4] == ':');
            assert(path[4] == ':');
        }
    }
    let a = path + "#L"@ + digits(n);
    assert(a[0] == path[0]);
    assert(a.last() == digits(n)[digits(n).len() - 1]);
    assert(is_digit(a.last()));
    lemma_trim_edges(a);
    let p = path.len() as int;
    assert(a[p] == '#');
    assert forall|k: int| 0 <= k < p implies a[k] != '#' by {
        assert(a[k] == path[k]);
    }
    lemma_find_char_unique(a, '#', 0, p);
    assert(a.take(p) =~= path);
    assert(after(a, p + 1) =~= "L"@ + digits(n) + Seq::<char>::empty());
    law_hints_name_their_line(n, Seq::empty());
    let b = path + seq![':'] + digits(n);
    assert(b[0] == path[0]);
    assert(b.last() == digits(n)[digits(n).len() - 1]);
    assert(is_digit(b.last()));
    lemma_trim_edges(b);
    assert forall|k: int| 0 <= k < b.len() implies b[k] != '#' by {
        if k < p {
            assert(b[k] == path[k]);
        } else if k > p {
            assert(b[k] == digits(n)[k - p - 1]);
            assert(is_digit(b[k]));
        }
    }
    lemma_find_char_unique(b, '#', 0, b.len() as int);
    if path[0] == '/' {
        assert(!has_prefix(b, "file://"@)) by {
            if has_prefix(b, "file://"@) {
                assert(b.subrange(0, 7)[0] == 'f');
            }
        }
        assert(!has_prefix(a.take(p), "file://"@));
    }
    law_line_suffixes_are_taken_off(path, n, 0);
}

// ---- The Explorer ----

/// The Explorer that is asked is one of the workspace and the tab, no agent's pane, that said
/// it is there within the last seconds, and none that did so said it later; and one is
/// asked where there is one.
pub proof fn law_latest_explorer_is_asked(
    panes: Seq<PaneView>,
    workspace: Option<Seq<char>>,
    tab: Option<Seq<char>>,
    now: u64,
    stale: u64,
)
    ensures
        match live_explorer(panes, workspace, tab, now, stale) {
            Some((stamp, pane)) => {
                &&& panes.contains(pane)
                &&& !pane.is_agent && pane.workspace_id == workspace && pane.tab_id == tab
                &&& fresh_stamp(pane, now, stale) == Some(stamp)
                &&& forall|k: int|
                    0 <= k < panes.len() && !(#[trigger] panes[k]).is_agent && panes[k].workspace_id
                        == workspace && panes[k].tab_id == tab ==> (fresh_stamp(panes[k], now, stale) matches Some(
                        other,
                    ) ==> other <= stamp)
            },
            None => forall|k: int|
                0 <= k < panes.len() && !(#[trigger] panes[k]).is_agent && panes[k].workspace_id
                    == workspace && panes[k].tab_id == tab ==> fresh_stamp(panes[k], now, stale) is None,
        },
    decreases panes.len(),
{
    if panes.len() > 0 {
        let before = panes.drop_last();
        law_latest_explorer_is_asked(before, workspace, tab, now, stale);
        assert forall|k: int| 0 <= k < before.len() implies before[k] == panes[k] by {}
        assert forall|p: PaneView| before.contains(p) implies panes.contains(p) by {
            let k = choose|k: int| 0 <= k < before.len() && before[k] == p;
            assert(panes[k] == p);
        }
        assert(panes[panes.len() - 1] == panes.last());
        assert(panes.contains(panes.last()));
    }
}

/// A stamp counts while it is no older than the seconds that it may be, and one that is no
/// number does not count.
pub proof fn law_stamps_grow_old(pane: PaneView, stamp: nat, now: u64, stale: u64)
    requires
        stamp <= u64::MAX,
        pane.explorer_stamp == Some(digits(stamp)),
    ensures
        fresh_stamp(pane, now, stale) == (if now > stamp && now - stamp > stale {
            None
        } else {
            Some(stamp as u64)
        }),
        fresh_stamp(PaneView { explorer_stamp: None, ..pane }, now, stale) is None,
{
    law_digits_read_back(stamp);
    assert(is_digit(digits(stamp)[0]));
}

proof fn lemma_entry(v: Seq<EntryView>, path: Seq<char>, i: int)
    requires
        0 <= i <= v.len(),
    ensures
        i <= entry_at(v, path, i) <= v.len(),
        entry_at(v, path, i) < v.len() ==> v[entry_at(v, path, i)].path == path,
        forall|k: int| i <= k < entry_at(v, path, i) ==> (#[trigger] v[k]).path != path,
    decreases v.len() - i,
{
    if i < v.len() && v[i].path != path {
        lemma_entry(v, path, i + 1);
    }
}

/// Which change of a file a link shows: that of the working tree where there is one, else
/// what is staged, and none where the file did not change.
pub proof fn law_links_show_the_latest_change(status: StatusView, rel: Seq<char>)
    ensures
        (exists|k: int| 0 <= k < status.unstaged.len() && (#[trigger] status.unstaged[k]).path == rel)
            ==> diff_kind(status, rel) == Some("worktree"@) || diff_kind(status, rel) == Some(
            "untracked"@,
        ),
        (forall|k: int|
            0 <= k < status.unstaged.len() ==> (#[trigger] status.unstaged[k]).path != rel) && (exists|
            k: int,
        | 0 <= k < status.staged.len() && (#[trigger] status.staged[k]).path == rel) ==> diff_kind(
            status,
            rel,
        ) == Some("staged"@),
        (forall|k: int|
            0 <= k < status.unstaged.len() ==> (#[trigger] status.unstaged[k]).path != rel) && (forall|
            k: int,
        | 0 <= k < status.staged.len() ==> (#[trigger] status.staged[k]).path != rel) ==> diff_kind(
            status,
            rel,
        ) is None,
        forall|k: int|
            0 <= k < status.unstaged.len() && (#[trigger] status.unstaged[k]).path == rel && (forall|
                j: int,
            | 0 <= j < k ==> (#[trigger] status.unstaged[j]).path != rel) ==> diff_kind(status, rel)
                == Some(
                if status.unstaged[k].letter == 'U' {
                    "untracked"@
                } else {
                    "worktree"@
                },
            ),
{
    lemma_entry(status.unstaged, rel, 0);
    lemma_entry(status.staged, rel, 0);
}

/// The folder of the Explorer is that of its pane, where it is a directory.
pub proof fn law_explorer_shows_its_folder(
    pane: PaneView,
    context: ContextView,
    dirs: Seq<Seq<char>>,
    dir: Seq<char>,
)
    requires
        dirs.contains(dir),
    ensures
        pane.foreground_cwd == Some(dir) ==> explorer_root(pane, context, dirs) == Some(dir),
        pane.foreground_cwd is None && pane.cwd == Some(dir) ==> explorer_root(pane, context, dirs)
            == Some(dir),
        pane.foreground_cwd is None && pane.cwd is None && context.focused_pane_cwd == Some(dir)
            ==> explorer_root(pane, context, dirs) == Some(dir),
{
}

// ---- Digits and stamps ----

/// A hexadecimal digit stands for its value in either case, and every other byte for none.
pub proof fn law_hexadecimal_digits_have_values(byte: u8, n: u8)
    ensures
        n < 10 ==> hex_value((48 + n) as u8) == Some(n),
        10 <= n < 16 ==> hex_value((87 + n) as u8) == Some(n) && hex_value((55 + n) as u8) == Some(n),
        hex_value(byte) matches Some(v) ==> v < 16 && (byte == 48 + v || byte == 87 + v || byte == 55 + v),
        hex_value(byte) is None <==> !(48 <= byte <= 57) && !(65 <= byte <= 70) && !(97 <= byte <= 102),
{
}

/// An Explorer counts as long as its stamp is no older than it may be, to the second.
pub proof fn law_stamps_count_to_the_second(pane: PaneView, stamp: nat, now: u64, stale: u64)
    requires
        pane.explorer_stamp == Some(digits(stamp)),
        stamp <= u64::MAX,
    ensures
        fresh_stamp(pane, now, stale) is Some <==> now <= stamp + stale,
        fresh_stamp(pane, now, stale) matches Some(s) ==> s == stamp,
{
    law_digits_read_back(stamp);
}

// ---- File URLs ----

/// A file URL without a host names the path that it holds, decoded, and so does one of the local
/// host; a file of another host is refused.
pub proof fn law_file_urls_are_local(host: Seq<char>, path: Seq<char>, platform: Platform)
    requires
        platform != Platform::Windows,
        !has_char(host, '/'),
        !has_char(host, '?'),
        !has_char(path, '?'),
        path.len() > 0,
        path[0] == '/',
    ensures
        host.len() == 0 || same_letters(host, "localhost"@) ==> url_path(host + path, platform) == (
        match percent_decoded(path) {
            Ok(p) => Ok::<(Seq<char>, Option<usize>), Seq<char>>((p, None)),
            Err(e) => Err(e),
        }),
        host.len() > 0 && !same_letters(host, "localhost"@) ==> url_path(host + path, platform) is Err,
{
    let rest = host + path;
    assert forall|k: int| 0 <= k < rest.len() implies rest[k] != '?' by {
        if k < host.len() {
            assert(rest[k] == host[k]);
        } else {
            assert(rest[k] == path[k - host.len()]);
        }
    }
    lemma_find_char_unique(rest, '?', 0, rest.len() as int);
    assert(rest.take(rest.len() as int) =~= rest);
    assert(rest[host.len() as int] == '/');
    lemma_find_char_unique(rest, '/', 0, host.len() as int);
    assert(rest.take(host.len() as int) =~= host);
    assert(after(rest, host.len() as int) =~= path);
}

/// Where paths have drives, the slash before a drive goes and the others turn round; a host
/// leads its path.
pub proof fn law_drives_lead_their_path(drive: char, rest: Seq<char>, host: Seq<char>, i: int)
    requires
        drive < '\u{80}',
        drive != '/',
        0 <= i < rest.len(),
    ensures
        ({
            let path = drive_path(Seq::empty(), seq!['/', drive, ':'] + rest);
            &&& path.len() == rest.len() + 2
            &&& path[0] == drive && path[1] == ':'
            &&& path[i + 2] == (if rest[i] == '/' {
                '\\'
            } else {
                rest[i]
            })
        }),
        host.len() > 0 && !same_letters(host, "localhost"@) ==> has_prefix(
            drive_path(host, rest),
            seq!['\\', '\\'] + host,
        ) && drive_path(host, rest).len() == host.len() + rest.len() + 2,
{
    let p = seq!['/', drive, ':'] + rest;
    assert(p[i + 3] == rest[i]);
    if host.len() > 0 && !same_letters(host, "localhost"@) {
        let lead = seq!['\\', '\\'] + host;
        assert(drive_path(host, rest).subrange(0, lead.len() as int) =~= lead);
        assert(drive_path(host, rest).take(lead.len() as int) =~= lead);
    }
}

} // verus!

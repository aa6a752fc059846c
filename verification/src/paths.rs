//! Paths as `/`-separated text: joining, stripping a root, and staying below one.

use vstd::prelude::*;

use crate::git::path_parts;
use crate::input::{separator, Platform};
use crate::scan::{lex_less, replace, replaced};
use crate::text::{
    chars_of, has_char, has_prefix, join, law_join_of_split, law_split_pieces_lack_separator,
    lemma_find_char, lemma_join_push, lemma_split_after, lemma_split_join, pieces, push_all, same,
    slice_of, split, split_on, starts_with_str, text_of,
};

verus! {

/// `child` below `dir`; an absolute child stands for itself.
pub open spec fn under_dir(dir: Seq<char>, child: Seq<char>) -> Seq<char> {
    if child.len() > 0 && child[0] == '/' {
        child
    } else if dir.len() == 0 || dir.last() == '/' {
        dir + child
    } else {
        dir + seq!['/'] + child
    }
}

/// `child` below `dir`; an absolute child stands for itself.
pub fn join_path(dir: &str, child: &str) -> (r: String)
    ensures
        r@ == under_dir(dir@, child@),
{
    let mut v = chars_of(dir);
    let c = chars_of(child);
    if c.len() > 0 && c[0] == '/' {
        return text_of(&c);
    }
    let n = v.len();
    if n > 0 && v[n - 1] != '/' {
        v.push('/');
    }
    push_all(&mut v, &c);
    text_of(&v)
}

/// A path as the system writes it.
pub open spec fn native(path: Seq<char>, platform: Platform) -> Seq<char> {
    replaced(path, '/', separator(platform))
}

/// A path as the system writes it.
pub fn native_path(path: &str, platform: Platform) -> (r: String)
    ensures
        r@ == native(path@, platform),
{
    let v = chars_of(path);
    text_of(&replace(&v, '/', platform.separator()))
}

/// `child` below `dir`, as the system writes it.
pub open spec fn native_under(dir: Seq<char>, child: Seq<char>, platform: Platform) -> Seq<char> {
    if platform != Platform::Windows {
        under_dir(dir, child)
    } else if dir.len() == 0 || dir.last() == '/' || dir.last() == '\\' {
        dir + child
    } else {
        dir + seq!['\\'] + child
    }
}

/// `child` below `dir`, as the system writes it.
pub fn join_native(dir: &str, child: &str, platform: Platform) -> (r: String)
    ensures
        r@ == native_under(dir@, child@, platform),
{
    if platform != Platform::Windows {
        return join_path(dir, child);
    }
    let mut v = chars_of(dir);
    let c = chars_of(child);
    let n = v.len();
    if n > 0 && v[n - 1] != '/' && v[n - 1] != '\\' {
        v.push('\\');
    }
    push_all(&mut v, &c);
    text_of(&v)
}

/// What a path is sorted by: its parts in turn.
pub open spec fn path_key(path: Seq<char>) -> Seq<char> {
    replaced(path, '/', '\0')
}

/// Whether `a` comes before `b`, the first part that differs deciding.
pub open spec fn path_less(a: Seq<char>, b: Seq<char>) -> bool {
    lex_less(path_key(a), path_key(b))
}

/// Whether a path names something below the directory it is taken from: it is
/// relative, does not start at `.`, and never goes up.
pub open spec fn stays_below(path: Seq<char>) -> bool {
    &&& path.len() > 0
    &&& path[0] != '/'
    &&& split(path, '/')[0] != "."@
    &&& !split(path, '/').contains(".."@)
}

/// Whether a path names something below the directory it is taken from.
pub fn is_below(path: &str) -> (r: bool)
    ensures
        r == stays_below(path@),
{
    let v = chars_of(path);
    if v.len() == 0 || v[0] == '/' {
        return false;
    }
    let parts = split_on(&v, '/');
    let dot = chars_of(".");
    let dots = chars_of("..");
    let ghost all = split(path@, '/');
    assert(all[0] == parts@[0]@);
    if same(&parts[0], &dot) {
        return false;
    }
    let mut i: usize = 0;
    while i < parts.len()
        invariant
            i <= parts@.len(),
            all == pieces(parts@),
            all == split(path@, '/'),
            dots@ == ".."@,
            forall|k: int| 0 <= k < i ==> all[k] != ".."@,
        decreases parts@.len() - i,
    {
        assert(all[i as int] == parts@[i as int]@);
        if same(&parts[i], &dots) {
            return false;
        }
        i += 1;
    }
    true
}

/// Whether the part at a place of a path names something.
pub open spec fn named(parts: Seq<Seq<char>>, i: int) -> bool {
    parts[i].len() > 0 && !(i > 0 && parts[i] == "."@)
}

/// From a place on, the place of the part with the number `n` among those that name
/// something, or the end.
pub open spec fn named_at(parts: Seq<Seq<char>>, n: int, i: int) -> int
    decreases parts.len() - i,
{
    if i >= parts.len() {
        parts.len() as int
    } else if !named(parts, i) {
        named_at(parts, n, i + 1)
    } else if n > 0 {
        named_at(parts, n - 1, i + 1)
    } else {
        i
    }
}

/// The place after the last part before `to` that names something.
pub open spec fn named_end(parts: Seq<Seq<char>>, to: int) -> int
    decreases to,
{
    if to <= 0 {
        0
    } else if named(parts, to - 1) {
        to
    } else {
        named_end(parts, to - 1)
    }
}

/// The text of a path from the part with the number `n` that names something to the last
/// one that does.
pub open spec fn text_from(parts: Seq<Seq<char>>, n: int) -> Seq<char> {
    let from = named_at(parts, n, 0);
    let to = named_end(parts, parts.len() as int);
    if from < to {
        join(parts.subrange(from, to), seq!['/'])
    } else {
        Seq::empty()
    }
}

/// What is left of `path` below `root`, where `path` is below it: the parts of `root`
/// that name something are the first of those of `path`.
pub open spec fn below(path: Seq<char>, root: Seq<char>) -> Option<Seq<char>> {
    let base = path_parts(split(root, '/'));
    let all = path_parts(split(path, '/'));
    if root.len() == 0 {
        Some(path)
    } else if has_prefix(path, "/"@) == has_prefix(root, "/"@) && base.len() <= all.len()
        && all.take(base.len() as int) == base {
        Some(text_from(split(path, '/'), base.len() as int))
    } else {
        None
    }
}

pub open spec fn chars_opt(v: Option<Vec<char>>) -> Option<Seq<char>> {
    match v {
        Some(s) => Some(s@),
        None => None,
    }
}

/// The parts from `from` to `to` as a path.
fn join_parts(parts: &Vec<Vec<char>>, from: usize, to: usize) -> (r: Vec<char>)
    requires
        from <= to <= parts@.len(),
    ensures
        r@ == join(pieces(parts@).subrange(from as int, to as int), seq!['/']),
{
    let ghost all = pieces(parts@);
    let mut out: Vec<char> = Vec::new();
    let mut i: usize = from;
    assert(all.subrange(from as int, from as int) =~= Seq::empty());
    assert(out@ =~= Seq::empty());
    while i < to
        invariant
            from <= i <= to <= parts@.len(),
            all == pieces(parts@),
            out@ == join(all.subrange(from as int, i as int), seq!['/']),
        decreases to - i,
    {
        let ghost before = all.subrange(from as int, i as int);
        let ghost text = out@;
        proof {
            assert(all[i as int] == parts@[i as int]@);
            assert(all.subrange(from as int, i + 1) =~= before.push(all[i as int]));
            lemma_join_push(before, seq!['/'], all[i as int]);
        }
        if i > from {
            out.push('/');
        }
        push_all(&mut out, &parts[i]);
        if i > from {
            assert(out@ =~= text + seq!['/'] + all[i as int]);
        } else {
            assert(out@ =~= all[i as int]);
        }
        i += 1;
    }
    out
}

fn is_named(parts: &Vec<Vec<char>>, i: usize) -> (r: bool)
    requires
        i < parts@.len(),
    ensures
        r == named(pieces(parts@), i as int),
{
    let dot = chars_of(".");
    assert(pieces(parts@)[i as int] == parts@[i as int]@);
    parts[i].len() > 0 && !(i > 0 && same(&parts[i], &dot))
}

/// What is left of `path` below `root`, where `path` is below it.
pub fn strip_root(path: &[char], root: &[char]) -> (r: Option<Vec<char>>)
    ensures
        chars_opt(r) == below(path@, root@),
{
    if root.len() == 0 {
        let r = Some(slice_of(path, 0, path.len()));
        assert(chars_opt(r)->0 =~= path@);
        return r;
    }
    if starts_with_str(path, "/") != starts_with_str(root, "/") {
        return None;
    }
    let parts = split_on(path, '/');
    let roots = split_on(root, '/');
    let base = named_among(&roots);
    let all = named_among(&parts);
    let ghost u = pieces(base@);
    let ghost w = pieces(all@);
    let n = base.len();
    assert(u.len() == n && w.len() == all.len());
    if n > all.len() {
        return None;
    }
    let mut i: usize = 0;
    while i < n
        invariant
            i <= n <= w.len(),
            n == u.len(),
            u == pieces(base@),
            w == pieces(all@),
            u == path_parts(split(root@, '/')),
            w == path_parts(split(path@, '/')),
            root@.len() > 0,
            forall|k: int| 0 <= k < i ==> u[k] == w[k],
        decreases n - i,
    {
        assert(u[i as int] == base@[i as int]@ && w[i as int] == all@[i as int]@);
        if !same(&base[i], &all[i]) {
            assert(w.take(n as int)[i as int] != u[i as int]);
            assert(below(path@, root@) is None);
            return None;
        }
        i += 1;
    }
    assert(w.take(n as int) =~= u);
    let ghost ps = pieces(parts@);
    let mut left: usize = n;
    let mut from: usize = 0;
    while from < parts.len() && (left > 0 || !is_named(&parts, from))
        invariant
            ps == pieces(parts@),
            from <= parts@.len(),
            named_at(ps, n as int, 0) == named_at(ps, left as int, from as int),
        decreases parts@.len() - from,
    {
        if is_named(&parts, from) {
            left -= 1;
        }
        from += 1;
    }
    let mut to: usize = parts.len();
    while to > 0 && !is_named(&parts, to - 1)
        invariant
            ps == pieces(parts@),
            to <= parts@.len(),
            named_end(ps, parts@.len() as int) == named_end(ps, to as int),
        decreases to,
    {
        to -= 1;
    }
    assert(ps.len() == parts@.len());
    if from < to {
        Some(join_parts(&parts, from, to))
    } else {
        let r = Some(Vec::new());
        assert(chars_opt(r)->0 =~= Seq::empty());
        r
    }
}

/// Whether two paths have the same parts: both are absolute or neither is, and
/// empty parts and inner dots make no difference.
pub open spec fn same_parts(a: Seq<char>, b: Seq<char>) -> bool {
    (has_prefix(a, "/"@) == has_prefix(b, "/"@)) && path_parts(split(a, '/')) == path_parts(
        split(b, '/'),
    )
}

/// The parts of a path that name something.
pub fn named_parts(path: &str) -> (r: Vec<Vec<char>>)
    ensures
        pieces(r@) == path_parts(split(path@, '/')),
{
    let v = chars_of(path);
    let parts = split_on(&v, '/');
    named_among(&parts)
}

/// Those parts that name something.
fn named_among(parts: &Vec<Vec<char>>) -> (r: Vec<Vec<char>>)
    ensures
        pieces(r@) == path_parts(pieces(parts@)),
{
    let ghost all = pieces(parts@);
    let mut out: Vec<Vec<char>> = Vec::new();
    let mut i: usize = 0;
    assert(pieces(out@) =~= Seq::empty());
    while i < parts.len()
        invariant
            i <= parts@.len(),
            all == pieces(parts@),
            pieces(out@) == path_parts(all.take(i as int)),
        decreases parts@.len() - i,
    {
        let part = &parts[i];
        assert(all.take(i + 1).drop_last() =~= all.take(i as int));
        assert(all.take(i + 1).last() == all[i as int]);
        assert(all[i as int] == parts@[i as int]@);
        if is_named(parts, i) {
            let ghost before = pieces(out@);
            let copy = slice_of(part, 0, part.len());
            assert(copy@ =~= part@);
            out.push(copy);
            assert(pieces(out@) =~= before.push(part@));
        }
        i += 1;
    }
    assert(all.take(i as int) =~= all);
    out
}

/// Whether two paths have the same parts.
pub fn same_path(a: &str, b: &str) -> (r: bool)
    ensures
        r == same_parts(a@, b@),
{
    let x = chars_of(a);
    let y = chars_of(b);
    if starts_with_str(&x, "/") != starts_with_str(&y, "/") {
        return false;
    }
    let p = named_parts(a);
    let q = named_parts(b);
    let ghost u = pieces(p@);
    let ghost w = pieces(q@);
    if p.len() != q.len() {
        assert(u.len() != w.len());
        return false;
    }
    let mut i: usize = 0;
    while i < p.len()
        invariant
            i <= p@.len(),
            p@.len() == q@.len(),
            u == pieces(p@),
            w == pieces(q@),
            u == path_parts(split(a@, '/')),
            w == path_parts(split(b@, '/')),
            forall|k: int| 0 <= k < i ==> u[k] == w[k],
        decreases p@.len() - i,
    {
        assert(u[i as int] == p@[i as int]@ && w[i as int] == q@[i as int]@);
        if !same(&p[i], &q[i]) {
            return false;
        }
        i += 1;
    }
    assert(u =~= w);
    true
}

// ---- What stripping a root leaves ----

/// The parts that are neither empty nor a dot.
spec fn plain(parts: Seq<Seq<char>>) -> Seq<Seq<char>>
    decreases parts.len(),
{
    if parts.len() == 0 {
        Seq::empty()
    } else if parts.last().len() == 0 || parts.last() == "."@ {
        plain(parts.drop_last())
    } else {
        plain(parts.drop_last()).push(parts.last())
    }
}

proof fn lemma_parts_add(a: Seq<Seq<char>>, b: Seq<Seq<char>>)
    requires
        a.len() > 0,
    ensures
        path_parts(a + b) == path_parts(a) + plain(b),
    decreases b.len(),
{
    if b.len() == 0 {
        assert(a + b =~= a);
        assert(path_parts(a) + plain(b) =~= path_parts(a));
    } else {
        lemma_parts_add(a, b.drop_last());
        assert((a + b).drop_last() =~= a + b.drop_last());
        assert((a + b).last() == b.last());
        assert(path_parts(a + b) =~= path_parts(a) + plain(b));
    }
}

proof fn lemma_plain_add(a: Seq<Seq<char>>, b: Seq<Seq<char>>)
    ensures
        plain(a + b) == plain(a) + plain(b),
    decreases b.len(),
{
    if b.len() == 0 {
        assert(a + b =~= a);
        assert(plain(a) + plain(b) =~= plain(a));
    } else {
        lemma_plain_add(a, b.drop_last());
        assert((a + b).drop_last() =~= a + b.drop_last());
        assert((a + b).last() == b.last());
        assert(plain(a + b) =~= plain(a) + plain(b));
    }
}

/// Before the part with the number `n` stand `n` parts that name something.
proof fn lemma_named_at(parts: Seq<Seq<char>>, n: int, i: int)
    requires
        0 <= n,
        0 <= i <= parts.len(),
    ensures
        i <= named_at(parts, n, i) <= parts.len(),
        named_at(parts, n, i) < parts.len() ==> named(parts, named_at(parts, n, i)) && path_parts(
            parts.take(named_at(parts, n, i)),
        ).len() == path_parts(parts.take(i)).len() + n,
    decreases parts.len() - i,
{
    if i < parts.len() {
        assert(parts.take(i + 1).drop_last() =~= parts.take(i));
        assert(parts.take(i + 1).last() == parts[i]);
        if !named(parts, i) {
            lemma_named_at(parts, n, i + 1);
        } else if n > 0 {
            lemma_named_at(parts, n - 1, i + 1);
        }
    }
}

/// Behind the last part that names something stands none that does.
proof fn lemma_named_end(parts: Seq<Seq<char>>, to: int)
    requires
        0 <= to <= parts.len(),
    ensures
        0 <= named_end(parts, to) <= to,
        named_end(parts, to) > 0 ==> plain(parts.subrange(named_end(parts, to), to)).len() == 0,
    decreases to,
{
    if to > 0 {
        if named(parts, to - 1) {
            assert(parts.subrange(to, to) =~= Seq::empty());
        } else {
            lemma_named_end(parts, to - 1);
            let e = named_end(parts, to - 1);
            if e > 0 {
                let tail = parts.subrange(e, to);
                assert(tail.drop_last() =~= parts.subrange(e, to - 1));
                assert(tail.last() == parts[to - 1]);
            }
        }
    }
}

/// Where `path` is below `root`, what is left of it, put below `root` again, has the parts
/// of `path`.
pub proof fn law_stripping_is_undone(path: Seq<char>, root: Seq<char>)
    requires
        below(path, root) matches Some(rel) && rel.len() > 0,
    ensures
        same_parts(under_dir(root, below(path, root)->0), path),
{
    let rel = below(path, root)->0;
    if root.len() == 0 {
        assert(root + path =~= path);
    } else {
        reveal_strlit("/");
        let ps = split(path, '/');
        let rs = split(root, '/');
        let n = path_parts(rs).len() as int;
        let from = named_at(ps, n, 0);
        let to = named_end(ps, ps.len() as int);
        let mid = ps.subrange(from, to);
        lemma_named_at(ps, n, 0);
        lemma_named_end(ps, ps.len() as int);
        assert(ps.take(0) =~= Seq::empty());
        law_split_pieces_lack_separator(path, '/');
        law_split_pieces_lack_separator(root, '/');
        law_join_of_split(root, '/');
        assert(from < to);
        assert(rs.len() > 0) by {
            if rs.len() == 0 {
                assert(join(rs, seq!['/']) =~= Seq::empty());
            }
        }
        // The first part that is left is not the first part of the path.
        if from == 0 {
            assert(n == 0);
            assert(path_parts(ps.take(0)).len() == 0);
            if has_prefix(root, "/"@) {
                lemma_first_part(path);
            } else {
                lemma_first_part(root);
                lemma_parts_add(seq![rs[0]], rs.skip(1));
                assert(seq![rs[0]] + rs.skip(1) =~= rs);
                assert(seq![rs[0]].drop_last() =~= Seq::empty());
            }
            assert(false);
        }
        // The parts of the path are those of the root, and those that are left.
        let head = ps.take(from);
        let tail = ps.subrange(to, ps.len() as int);
        assert(mid + tail =~= ps.skip(from));
        assert(head + (mid + tail) =~= ps);
        lemma_parts_add(head, mid + tail);
        lemma_plain_add(mid, tail);
        assert(plain(mid) + plain(tail) =~= plain(mid));
        let all = path_parts(ps);
        assert(all == path_parts(head) + plain(mid));
        assert(all.take(n) =~= path_parts(head));
        assert(path_parts(head) == path_parts(rs));
        // So are those of what is left, put below the root.
        assert forall|k: int| 0 <= k < mid.len() implies !has_char(#[trigger] mid[k], '/') by {
            assert(mid[k] == ps[from + k]);
        }
        lemma_split_join(mid, '/');
        assert(mid[0] == ps[from]);
        assert(rel[0] == mid[0][0]) by {
            if mid.len() > 1 {
                assert(rel == mid[0] + seq!['/'] + join(
                    mid.subrange(1, mid.len() as int),
                    seq!['/'],
                ));
            }
        }
        assert(rel[0] != '/') by {
            if rel[0] == '/' {
                assert(has_char(mid[0], '/'));
            }
        }
        let whole = under_dir(root, rel);
        if root.last() == '/' {
            lemma_split_after(root, rel, '/');
            let upper = rs.drop_last();
            if upper.len() == 0 {
                assert(rs.len() == 1);
                assert(root == rs[0]);
                assert(root.len() == 0);
            }
            lemma_parts_add(upper, mid);
            assert(path_parts(rs) == path_parts(upper));
        } else {
            let ended = root + seq!['/'];
            lemma_join_push(rs, seq!['/'], Seq::empty());
            assert(root + seq!['/'] + Seq::<char>::empty() =~= ended);
            let es = rs.push(Seq::empty());
            assert forall|k: int| 0 <= k < es.len() implies !has_char(#[trigger] es[k], '/') by {
                if k < rs.len() {
                    assert(es[k] == rs[k]);
                }
            }
            lemma_split_join(es, '/');
            assert(split(ended, '/') == es);
            lemma_split_after(ended, rel, '/');
            assert(es.drop_last() =~= rs);
            lemma_parts_add(rs, mid);
        }
        assert(path_parts(split(whole, '/')) == path_parts(rs) + plain(mid));
        assert(has_prefix(whole, "/"@) == has_prefix(root, "/"@)) by {
            assert(whole[0] == root[0]);
            lemma_slash_first(whole);
            lemma_slash_first(root);
        }
    }
}

proof fn lemma_slash_first(path: Seq<char>)
    requires
        path.len() > 0,
    ensures
        has_prefix(path, "/"@) == (path[0] == '/'),
{
    reveal_strlit("/");
    assert("/"@ =~= seq!['/']);
    if path[0] == '/' {
        assert(path.subrange(0, 1) =~= seq!['/']);
    }
    if has_prefix(path, "/"@) {
        assert(path.subrange(0, 1)[0] == "/"@[0]);
    }
}

/// The first part of a path is empty where the path is absolute, and only there.
proof fn lemma_first_part(path: Seq<char>)
    requires
        path.len() > 0,
    ensures
        split(path, '/').len() > 0,
        (split(path, '/')[0].len() == 0) == has_prefix(path, "/"@),
{
    lemma_slash_first(path);
    lemma_find_char(path, '/', 0);
}

} // verus!

//! Places in text counted in bytes of UTF-8.

use vstd::prelude::*;
use vstd::utf8::{decode_utf8, encode_utf8, valid_utf8};

use crate::scan::{
    char_bytes, lemma_utf8_len_add, lemma_utf8_len_bounds, lemma_utf8_len_push, utf8_len, utf8_width,
};
use crate::text::{has_char, slice_of};

verus! {

/// The encoding of a text is as long as its characters' encodings together.
pub proof fn lemma_encoded_len(s: Seq<char>)
    ensures
        encode_utf8(s).len() == utf8_len(s),
    decreases s.len(),
{
    if s.len() > 0 {
        lemma_encoded_len(s.drop_first());
        let head = seq![s[0]];
        assert(s =~= head + s.drop_first());
        lemma_utf8_len_add(head, s.drop_first());
        assert(head.drop_last() =~= Seq::empty());
        assert(utf8_len(head) == utf8_width(s[0])) by {
            assert(utf8_len(head.drop_last()) == 0);
        }
        vstd::utf8::char_is_scalar(s[0]);
    }
}

/// How many bytes a text takes.
pub fn byte_len(s: &str) -> (r: usize)
    ensures
        r == utf8_len(s@),
{
    proof {
        lemma_encoded_len(s@);
    }
    s.as_bytes().len()
}

/// The number of characters before byte `at`, where a character begins or the
/// text ends there.
pub open spec fn char_at_byte(s: Seq<char>, at: int) -> Option<int>
    decreases s.len(),
{
    if at == utf8_len(s) {
        Some(s.len() as int)
    } else if s.len() == 0 {
        None
    } else {
        char_at_byte(s.drop_last(), at)
    }
}

/// The place that [`char_at_byte`] names.
pub proof fn lemma_char_at_byte(s: Seq<char>, at: int)
    ensures
        char_at_byte(s, at) matches Some(k) ==> 0 <= k <= s.len() && utf8_len(s.take(k)) == at,
    decreases s.len(),
{
    if at == utf8_len(s) {
        assert(s.take(s.len() as int) =~= s);
    } else if s.len() > 0 {
        lemma_char_at_byte(s.drop_last(), at);
        if let Some(k) = char_at_byte(s.drop_last(), at) {
            assert(s.drop_last().take(k) =~= s.take(k));
        }
    }
}

pub proof fn lemma_len_of_take(s: Seq<char>, j: int, k: int)
    requires
        0 <= j <= k <= s.len(),
    ensures
        utf8_len(s.take(j)) + (k - j) <= utf8_len(s.take(k)),
{
    assert(s.take(k) =~= s.take(j) + s.subrange(j, k));
    lemma_utf8_len_add(s.take(j), s.subrange(j, k));
    lemma_utf8_len_bounds(s.subrange(j, k));
}

/// Each place between characters is found by its byte.
pub proof fn lemma_char_found(s: Seq<char>, k: int)
    requires
        0 <= k <= s.len(),
    ensures
        char_at_byte(s, utf8_len(s.take(k)) as int) == Some(k),
    decreases s.len(),
{
    if k == s.len() {
        assert(s.take(k) =~= s);
    } else {
        lemma_len_of_take(s, k, s.len() as int);
        assert(s.take(s.len() as int) =~= s);
        assert(s.drop_last().take(k) =~= s.take(k));
        lemma_char_found(s.drop_last(), k);
    }
}

/// The number of characters before byte `at`, where a character begins or the
/// text ends there.
pub fn char_index(v: &[char], at: usize) -> (r: Option<usize>)
    ensures
        match r {
            Some(k) => char_at_byte(v@, at as int) == Some(k as int) && k <= v@.len(),
            None => char_at_byte(v@, at as int) == None::<int>,
        },
{
    let mut sum: usize = 0;
    let mut k: usize = 0;
    let total = v.len();
    assert(v@.take(0) =~= Seq::empty());
    while k < total && sum < at
        invariant
            total == v@.len(),
            k <= total,
            sum == utf8_len(v@.take(k as int)),
            sum <= at,
            forall|j: int| 0 <= j < k ==> utf8_len(#[trigger] v@.take(j)) < at,
        decreases total - k,
    {
        let w = char_bytes(v[k]);
        assert(v@.take(k + 1) =~= v@.take(k as int).push(v@[k as int]));
        proof {
            lemma_utf8_len_push(v@.take(k as int), v@[k as int]);
        }
        if w > at - sum {
            proof {
                lemma_char_at_byte(v@, at as int);
                if let Some(j) = char_at_byte(v@, at as int) {
                    if j > k {
                        lemma_len_of_take(v@, k + 1, j);
                    }
                }
            }
            return None;
        }
        sum += w;
        k += 1;
    }
    proof {
        lemma_char_at_byte(v@, at as int);
        if sum == at {
            lemma_char_found(v@, k as int);
        } else if let Some(j) = char_at_byte(v@, at as int) {
            assert(v@.take(k as int) =~= v@);
            assert(v@.take(j).len() == j);
        }
    }
    if sum == at {
        Some(k)
    } else {
        None
    }
}

/// The text between two bytes, where both are places between characters.
pub open spec fn byte_slice(s: Seq<char>, from: int, to: int) -> Option<Seq<char>> {
    match (char_at_byte(s, from), char_at_byte(s, to)) {
        (Some(a), Some(b)) => if a <= b {
            Some(s.subrange(a, b))
        } else {
            None
        },
        _ => None,
    }
}

/// The text between two bytes, where both are places between characters.
pub fn byte_get(v: &[char], from: usize, to: usize) -> (r: Option<Vec<char>>)
    ensures
        match r {
            Some(t) => byte_slice(v@, from as int, to as int) == Some(t@),
            None => byte_slice(v@, from as int, to as int) == None::<Seq<char>>,
        },
{
    match (char_index(v, from), char_index(v, to)) {
        (Some(a), Some(b)) => {
            if a <= b {
                Some(slice_of(v, a, b))
            } else {
                None
            }
        },
        _ => None,
    }
}

/// The text of bytes that are meant to be UTF-8, as `String::from_utf8_lossy`
/// gives it.
pub uninterp spec fn lossy(bytes: Seq<u8>) -> Seq<char>;

/// `String::from_utf8_lossy`: a function of the bytes alone. Bytes that are
/// UTF-8 are decoded; what is not becomes replacement characters, so no NUL
/// comes out where no zero byte went in.
#[verifier::external_body]
pub(crate) fn lossy_text(bytes: &[u8]) -> (r: String)
    ensures
        r@ == lossy(bytes@),
        valid_utf8(bytes@) ==> r@ == decode_utf8(bytes@),
        !bytes@.contains(0) ==> !has_char(r@, '\0'),
{
    String::from_utf8_lossy(bytes).into_owned()
}

} // verus!

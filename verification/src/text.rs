//! Plain-text helpers: blank detection and the substring test behind the
//! search operations. The store's `LIKE '%q%'` matching folds ASCII case,
//! so the test here compares characters after folding `A..=Z` down.

use vstd::prelude::*;
use vstd::string::StrSliceExecFns;

verus! {

/// ASCII whitespace.
pub open spec fn is_space(c: char) -> bool {
    c == ' ' || c == '\t' || c == '\n' || c == '\r'
}

/// A string with nothing but whitespace in it.
pub open spec fn blank(s: Seq<char>) -> bool {
    forall|i: int| 0 <= i < s.len() ==> is_space(#[trigger] s[i])
}

/// Whether a string is empty or all whitespace.
pub fn is_blank(s: &str) -> (b: bool)
    ensures
        b == blank(s@),
{
    let n = s.unicode_len();
    let mut i: usize = 0;
    while i < n
        invariant
            n == s@.len(),
            0 <= i <= n,
            forall|j: int| 0 <= j < i ==> is_space(#[trigger] s@[j]),
        decreases n - i,
    {
        let c = s.get_char(i);
        if !(c == ' ' || c == '\t' || c == '\n' || c == '\r') {
            return false;
        }
        i = i + 1;
    }
    true
}

/// Exact character-for-character string equality.
pub fn str_eq(a: &str, b: &str) -> (r: bool)
    ensures
        r == (a@ == b@),
{
    let alen = a.unicode_len();
    let blen = b.unicode_len();
    if alen != blen {
        return false;
    }
    let mut i: usize = 0;
    while i < alen
        invariant
            alen == a@.len(),
            blen == b@.len(),
            alen == blen,
            0 <= i <= alen,
            forall|j: int| 0 <= j < i ==> a@[j] == b@[j],
        decreases alen - i,
    {
        if a.get_char(i) != b.get_char(i) {
            return false;
        }
        i = i + 1;
    }
    proof {
        assert(a@ =~= b@);
    }
    true
}

/// An ASCII capital letter.
pub open spec fn is_upper(c: char) -> bool {
    'A' as int <= c as int && c as int <= 'Z' as int
}

/// The character's code point with ASCII capitals folded down.
pub open spec fn fold_val(c: char) -> int {
    if is_upper(c) {
        c as int + 32
    } else {
        c as int
    }
}

/// Case-folded character equality.
pub open spec fn ci_eq(a: char, b: char) -> bool {
    fold_val(a) == fold_val(b)
}

/// The needle matches the haystack character-for-character at offset `i`.
pub open spec fn matches_at(hay: Seq<char>, needle: Seq<char>, i: int) -> bool {
    forall|j: int| 0 <= j < needle.len() ==> ci_eq(hay[i + j], #[trigger] needle[j])
}

/// The needle occurs somewhere in the haystack, ASCII case folded; an
/// empty needle occurs in every string.
pub open spec fn contains_ci(hay: Seq<char>, needle: Seq<char>) -> bool {
    exists|i: int| 0 <= i && #[trigger] matches_at(hay, needle, i) && i + needle.len() <= hay.len()
}

/// The case-folded code point of a character.
fn fold_char(c: char) -> (v: u32)
    ensures
        v as int == fold_val(c),
{
    let x = c as u32;
    if x >= 'A' as u32 && x <= 'Z' as u32 {
        x + 32
    } else {
        x
    }
}

/// Whether the needle matches the haystack at offset `i`.
fn match_at(hay: &str, needle: &str, i: usize, nlen: usize) -> (r: bool)
    requires
        nlen == needle@.len(),
        i + nlen <= hay@.len(),
        hay@.len() <= usize::MAX as int,
    ensures
        r == matches_at(hay@, needle@, i as int),
{
    let mut j: usize = 0;
    while j < nlen
        invariant
            nlen == needle@.len(),
            i + nlen <= hay@.len(),
            hay@.len() <= usize::MAX as int,
            0 <= j <= nlen,
            forall|k: int| 0 <= k < j ==> ci_eq(hay@[i + k], #[trigger] needle@[k]),
        decreases nlen - j,
    {
        let a = fold_char(hay.get_char(i + j));
        let b = fold_char(needle.get_char(j));
        if a != b {
            return false;
        }
        j = j + 1;
    }
    true
}

/// The substring test behind search: ASCII case-folded containment.
pub fn str_contains_ci(hay: &str, needle: &str) -> (r: bool)
    ensures
        r == contains_ci(hay@, needle@),
{
    let hlen = hay.unicode_len();
    let nlen = needle.unicode_len();
    if nlen > hlen {
        proof {
            if contains_ci(hay@, needle@) {
                let i = choose|i: int|
                    0 <= i && #[trigger] matches_at(hay@, needle@, i) && i + needle@.len()
                        <= hay@.len();
            }
        }
        return false;
    }
    let mut i: usize = 0;
    while i <= hlen - nlen
        invariant
            hlen == hay@.len(),
            nlen == needle@.len(),
            nlen <= hlen,
            0 <= i <= hlen - nlen + 1,
            forall|k: int| 0 <= k < i ==> !matches_at(hay@, needle@, k),
        decreases hlen + 1 - i,
    {
        if match_at(hay, needle, i, nlen) {
            return true;
        }
        i = i + 1;
    }
    proof {
        if contains_ci(hay@, needle@) {
            let k = choose|k: int|
                0 <= k && #[trigger] matches_at(hay@, needle@, k) && k + needle@.len()
                    <= hay@.len();
        }
    }
    false
}

/// Lexicographic order on character sequences, by code point; a prefix
/// comes before its extensions. For the stored listings this is the
/// binary collation the persisted text columns sort under.
pub open spec fn lex_le(a: Seq<char>, b: Seq<char>) -> bool
    decreases a.len(),
{
    if a.len() == 0 {
        true
    } else if b.len() == 0 {
        false
    } else if a[0] as int != b[0] as int {
        (a[0] as int) < (b[0] as int)
    } else {
        lex_le(a.drop_first(), b.drop_first())
    }
}

/// The lexicographic order relates every pair, one way or the other.
pub proof fn lemma_lex_total(a: Seq<char>, b: Seq<char>)
    ensures
        lex_le(a, b) || lex_le(b, a),
    decreases a.len(),
{
    if a.len() != 0 && b.len() != 0 && a[0] as int == b[0] as int {
        lemma_lex_total(a.drop_first(), b.drop_first());
    }
}

/// The lexicographic order is transitive.
pub proof fn lemma_lex_trans(a: Seq<char>, b: Seq<char>, c: Seq<char>)
    requires
        lex_le(a, b),
        lex_le(b, c),
    ensures
        lex_le(a, c),
    decreases a.len(),
{
    if a.len() != 0 && b.len() != 0 && c.len() != 0 {
        if a[0] as int == b[0] as int && b[0] as int == c[0] as int {
            lemma_lex_trans(a.drop_first(), b.drop_first(), c.drop_first());
        }
    }
}

/// Two sequences each at or before the other are one sequence.
pub proof fn lemma_lex_antisym(a: Seq<char>, b: Seq<char>)
    requires
        lex_le(a, b),
        lex_le(b, a),
    ensures
        a == b,
    decreases a.len(),
{
    if a.len() == 0 {
        assert(b.len() == 0);
        assert(a =~= b);
    } else {
        assert(b.len() != 0);
        assert(a[0] as int == b[0] as int);
        assert(a[0] == b[0]);
        lemma_lex_antisym(a.drop_first(), b.drop_first());
        assert forall|k: int| 0 <= k < a.len() implies a[k] == b[k] by {
            if k > 0 {
                assert(a.drop_first()[k - 1] == b.drop_first()[k - 1]);
            }
        }
        assert(a =~= b);
    }
}

/// The executable lexicographic comparison.
pub fn str_le(a: &str, b: &str) -> (r: bool)
    ensures
        r == lex_le(a@, b@),
{
    let alen = a.unicode_len();
    let blen = b.unicode_len();
    proof {
        assert(a@.skip(0) =~= a@);
        assert(b@.skip(0) =~= b@);
    }
    let mut i: usize = 0;
    while i < alen && i < blen
        invariant
            alen == a@.len(),
            blen == b@.len(),
            0 <= i <= alen,
            i <= blen,
            lex_le(a@, b@) == lex_le(a@.skip(i as int), b@.skip(i as int)),
            lex_le(b@, a@) == lex_le(b@.skip(i as int), a@.skip(i as int)),
        decreases alen - i,
    {
        let ca = a.get_char(i);
        let cb = b.get_char(i);
        proof {
            assert(a@.skip(i as int)[0] == a@[i as int]);
            assert(b@.skip(i as int)[0] == b@[i as int]);
            assert(a@.skip(i as int).drop_first() =~= a@.skip(i + 1));
            assert(b@.skip(i as int).drop_first() =~= b@.skip(i + 1));
        }
        if ca != cb {
            let va = ca as u32;
            let vb = cb as u32;
            proof {
                if va == vb {
                    assert(ca as int == cb as int);
                    assert(ca == cb);
                }
            }
            return va < vb;
        }
        i = i + 1;
    }
    proof {
        if i >= alen {
            assert(a@.skip(i as int).len() == 0);
        } else {
            assert(b@.skip(i as int).len() == 0);
            assert(a@.skip(i as int).len() > 0);
        }
    }
    i >= alen
}

/// Where the leading whitespace of a string ends.
pub open spec fn ws_prefix_end(s: Seq<char>) -> int
    decreases s.len(),
{
    if s.len() == 0 {
        0
    } else if is_space(s[0]) {
        1 + ws_prefix_end(s.drop_first())
    } else {
        0
    }
}

/// Where the trailing whitespace of a string begins.
pub open spec fn ws_suffix_start(s: Seq<char>) -> int
    decreases s.len(),
{
    if s.len() == 0 {
        0
    } else if is_space(s.last()) {
        ws_suffix_start(s.drop_last())
    } else {
        s.len() as int
    }
}

/// A string with its surrounding whitespace removed; a blank string
/// trims to nothing.
pub open spec fn trim_spec(s: Seq<char>) -> Seq<char> {
    if blank(s) {
        Seq::empty()
    } else {
        s.subrange(ws_prefix_end(s), ws_suffix_start(s))
    }
}

/// The executable whitespace test on one character.
fn char_is_space(c: char) -> (r: bool)
    ensures
        r == is_space(c),
{
    c == ' ' || c == '\t' || c == '\n' || c == '\r'
}

/// The bounds of the whitespace prefix, as a count over a prefix of the
/// string.
proof fn lemma_ws_prefix_end_bound(s: Seq<char>)
    ensures
        0 <= ws_prefix_end(s) <= s.len(),
        forall|j: int| 0 <= j < ws_prefix_end(s) ==> is_space(#[trigger] s[j]),
        ws_prefix_end(s) < s.len() ==> !is_space(s[ws_prefix_end(s)]),
    decreases s.len(),
{
    if s.len() != 0 && is_space(s[0]) {
        lemma_ws_prefix_end_bound(s.drop_first());
        assert forall|j: int| 0 <= j < ws_prefix_end(s) implies is_space(#[trigger] s[j]) by {
            if j > 0 {
                assert(s.drop_first()[j - 1] == s[j]);
            }
        }
        if ws_prefix_end(s) < s.len() {
            assert(s.drop_first()[ws_prefix_end(s) - 1] == s[ws_prefix_end(s)]);
        }
    }
}

/// The bounds of the whitespace suffix.
proof fn lemma_ws_suffix_start_bound(s: Seq<char>)
    ensures
        0 <= ws_suffix_start(s) <= s.len(),
        forall|j: int| ws_suffix_start(s) <= j < s.len() ==> is_space(#[trigger] s[j]),
        ws_suffix_start(s) > 0 ==> !is_space(s[ws_suffix_start(s) - 1]),
    decreases s.len(),
{
    if s.len() != 0 && is_space(s.last()) {
        lemma_ws_suffix_start_bound(s.drop_last());
        assert forall|j: int| ws_suffix_start(s) <= j < s.len() implies is_space(
            #[trigger] s[j],
        ) by {
            if j < s.len() - 1 {
                assert(s.drop_last()[j] == s[j]);
            }
        }
        if ws_suffix_start(s) > 0 {
            assert(s.drop_last()[ws_suffix_start(s) - 1] == s[ws_suffix_start(s) - 1]);
        }
    }
}

/// A non-blank string has a non-space character, so its prefix ends at
/// or before its suffix begins.
proof fn lemma_trim_bounds(s: Seq<char>)
    requires
        !blank(s),
    ensures
        0 <= ws_prefix_end(s) < ws_suffix_start(s) <= s.len(),
{
    lemma_ws_prefix_end_bound(s);
    lemma_ws_suffix_start_bound(s);
    let w = choose|w: int| 0 <= w < s.len() && !is_space(s[w]);
    assert(ws_prefix_end(s) <= w);
    assert(w < ws_suffix_start(s));
}

/// Remove the surrounding whitespace of a string.
pub fn trim(s: &str) -> (r: String)
    ensures
        r@ == trim_spec(s@),
{
    let n = s.unicode_len();
    let mut a: usize = 0;
    while a < n && char_is_space(s.get_char(a))
        invariant
            n == s@.len(),
            0 <= a <= n,
            forall|j: int| 0 <= j < a ==> is_space(#[trigger] s@[j]),
        decreases n - a,
    {
        a = a + 1;
    }
    if a == n {
        proof {
            assert(blank(s@));
        }
        return String::new();
    }
    let mut b: usize = n;
    while b > a && char_is_space(s.get_char(b - 1))
        invariant
            n == s@.len(),
            0 <= a < n,
            a <= b <= n,
            !is_space(s@[a as int]),
            forall|j: int| b <= j < n ==> is_space(#[trigger] s@[j]),
        decreases b,
    {
        b = b - 1;
    }
    proof {
        assert(!blank(s@));
        lemma_ws_prefix_end_bound(s@);
        lemma_ws_suffix_start_bound(s@);
        assert(ws_prefix_end(s@) == a as int) by {
            if ws_prefix_end(s@) < a as int {
                assert(is_space(s@[ws_prefix_end(s@)]));
            }
            if ws_prefix_end(s@) > a as int {
                assert(is_space(s@[a as int]));
            }
        }
        assert(b > a);
        assert(!is_space(s@[b - 1]));
        assert(ws_suffix_start(s@) == b as int) by {
            if ws_suffix_start(s@) < b as int {
                assert(is_space(s@[b - 1]));
            }
            if ws_suffix_start(s@) > b as int {
                assert(is_space(s@[ws_suffix_start(s@) - 1]));
            }
        }
    }
    let piece = s.substring_char(a, b);
    piece.to_owned()
}

/// What uppercasing does to one character: an ASCII small letter moves
/// to its capital, everything else stays.
pub open spec fn upper_char(c: char) -> char {
    if 'a' as int <= c as int && c as int <= 'z' as int {
        (c as int - 32) as char
    } else {
        c
    }
}

/// The character-wise uppercased form of a string.
pub open spec fn upper_spec(s: Seq<char>) -> Seq<char> {
    s.map_values(|c: char| upper_char(c))
}

/// Relies on str::to_ascii_uppercase: each ASCII small letter is mapped
/// to its capital and every other character is kept.
#[verifier::external_body]
pub fn ascii_upper(s: &str) -> (r: String)
    ensures
        r@ == upper_spec(s@),
{
    s.to_ascii_uppercase()
}

} // verus!

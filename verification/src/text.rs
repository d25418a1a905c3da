//! Character-level scanning helpers for the wire codec.
//!
//! Everything here is a pure transform on text: finding separators, splitting
//! on a separator character or on a CRLF-style pair, whitespace tokenizing,
//! and trimming.  Each executable function is proved equal to a spec function
//! that states the transform directly over the string's character sequence.

use vstd::prelude::*;

verus! {

/// True for the characters that separate tokens of a request line.
pub open spec fn is_token_ws(c: char) -> bool {
    c == ' ' || c == '\t'
}

/// Run-time check for `is_token_ws`.
pub fn is_ws_char(c: char) -> (b: bool)
    ensures
        b == is_token_ws(c),
{
    c == ' ' || c == '\t'
}

/// True for the characters stripped from both ends of a body payload:
/// whitespace and control characters.
pub open spec fn is_trimmed_char(c: char) -> bool {
    (c as u32) <= 0x20 || (c as u32) == 0x7f
}

/// Run-time check for `is_trimmed_char`.
pub fn is_trim_char(c: char) -> (b: bool)
    ensures
        b == is_trimmed_char(c),
{
    (c as u32) <= 0x20 || (c as u32) == 0x7f
}

/// Index of the first occurrence at or after `i` of the character `sep`;
/// the length of `s` when there is none.
pub open spec fn sep_pos(s: Seq<char>, i: int, sep: char) -> int
    decreases s.len() - i,
{
    if i < 0 || i >= s.len() {
        s.len() as int
    } else if s[i] == sep {
        i
    } else {
        sep_pos(s, i + 1, sep)
    }
}

/// The first separator position lies between `i` and the end, and the
/// characters before it are not the separator.
pub proof fn lemma_sep_pos_bounds(s: Seq<char>, i: int, sep: char)
    requires
        0 <= i <= s.len(),
    ensures
        i <= sep_pos(s, i, sep) <= s.len(),
        sep_pos(s, i, sep) < s.len() ==> s[sep_pos(s, i, sep)] == sep,
        forall|k: int| i <= k < sep_pos(s, i, sep) ==> s[k] != sep,
    decreases s.len() - i,
{
    if i < s.len() && s[i] != sep {
        lemma_sep_pos_bounds(s, i + 1, sep);
    }
}

/// Index of the first occurrence at or after `i` of the two-character pair
/// `a b`; the length of `s` when there is none.
pub open spec fn pair_pos(s: Seq<char>, i: int, a: char, b: char) -> int
    decreases s.len() - i,
{
    if i < 0 || i + 1 >= s.len() {
        s.len() as int
    } else if s[i] == a && s[i + 1] == b {
        i
    } else {
        pair_pos(s, i + 1, a, b)
    }
}

/// The first pair position lies between `i` and the end, points at the pair
/// when it is inside the text, and no earlier position points at the pair.
pub proof fn lemma_pair_pos_bounds(s: Seq<char>, i: int, a: char, b: char)
    requires
        0 <= i <= s.len(),
    ensures
        i <= pair_pos(s, i, a, b) <= s.len(),
        pair_pos(s, i, a, b) + 1 < s.len() ==> s[pair_pos(s, i, a, b)] == a && s[pair_pos(
            s,
            i,
            a,
            b,
        ) + 1] == b,
        pair_pos(s, i, a, b) < s.len() ==> pair_pos(s, i, a, b) + 1 < s.len(),
        forall|k: int|
            i <= k < pair_pos(s, i, a, b) && k + 1 < s.len() ==> !(#[trigger] s[k] == a && s[k + 1]
                == b),
    decreases s.len() - i,
{
    if !(i < 0 || i + 1 >= s.len()) && !(s[i] == a && s[i + 1] == b) {
        lemma_pair_pos_bounds(s, i + 1, a, b);
    }
}

/// The pieces of `s` from `i` onward, split on the separator character
/// `sep`.  Splitting never yields zero pieces: text without a separator is
/// one piece, possibly empty.
pub open spec fn spec_split_char_from(s: Seq<char>, i: int, sep: char) -> Seq<Seq<char>>
    decreases s.len() - i,
    when 0 <= i <= s.len()
    via spec_split_char_from_decreases
{
    let p = sep_pos(s, i, sep);
    if p >= s.len() {
        seq![s.subrange(i, s.len() as int)]
    } else {
        seq![s.subrange(i, p)] + spec_split_char_from(s, p + 1, sep)
    }
}

#[via_fn]
proof fn spec_split_char_from_decreases(s: Seq<char>, i: int, sep: char) {
    lemma_sep_pos_bounds(s, i, sep);
}

/// The pieces of `s`, split on the separator character `sep`.
pub open spec fn spec_split_char(s: Seq<char>, sep: char) -> Seq<Seq<char>> {
    spec_split_char_from(s, 0, sep)
}

/// The pieces of `s` from `i` onward, split on the two-character separator
/// `a b`.  As above, there is always at least one piece.
pub open spec fn spec_split_pair_from(s: Seq<char>, i: int, a: char, b: char) -> Seq<Seq<char>>
    decreases s.len() - i,
    when 0 <= i <= s.len()
    via spec_split_pair_from_decreases
{
    let p = pair_pos(s, i, a, b);
    if p >= s.len() {
        seq![s.subrange(i, s.len() as int)]
    } else {
        seq![s.subrange(i, p)] + spec_split_pair_from(s, p + 2, a, b)
    }
}

#[via_fn]
proof fn spec_split_pair_from_decreases(s: Seq<char>, i: int, a: char, b: char) {
    lemma_pair_pos_bounds(s, i, a, b);
}

/// The lines of `s`: its pieces split on `\r\n`.
pub open spec fn spec_lines(s: Seq<char>) -> Seq<Seq<char>> {
    spec_split_pair_from(s, 0, '\r', '\n')
}

/// The index of the first character of `s` at or after `i` that the given
/// class accepts is found by a linear scan; position `s.len()` means none.
pub open spec fn first_non_trim(s: Seq<char>, i: int) -> int
    decreases s.len() - i,
{
    if i < 0 || i >= s.len() {
        s.len() as int
    } else if is_trimmed_char(s[i]) {
        first_non_trim(s, i + 1)
    } else {
        i
    }
}

/// One past the last character of `s` before `j` that is not trimmed;
/// `0` when every character before `j` is trimmed.
pub open spec fn last_non_trim(s: Seq<char>, j: int) -> int
    decreases j,
{
    if j <= 0 || j > s.len() {
        0
    } else if is_trimmed_char(s[j - 1]) {
        last_non_trim(s, j - 1)
    } else {
        j
    }
}

/// `s` with trimmed characters removed from both ends.
pub open spec fn spec_trim(s: Seq<char>) -> Seq<char> {
    let a = first_non_trim(s, 0);
    let b = last_non_trim(s, s.len() as int);
    if a >= b {
        Seq::empty()
    } else {
        s.subrange(a, b)
    }
}

/// Everything from the reported cut to `j` is trimmed, and the character
/// just before the cut, when there is one, is not.
pub proof fn lemma_last_non_trim_bounds(s: Seq<char>, j: int)
    requires
        0 <= j <= s.len(),
    ensures
        0 <= last_non_trim(s, j) <= j,
        last_non_trim(s, j) > 0 ==> !is_trimmed_char(s[last_non_trim(s, j) - 1]),
        forall|k: int| last_non_trim(s, j) <= k < j ==> is_trimmed_char(s[k]),
    decreases j,
{
    if j > 0 && is_trimmed_char(s[j - 1]) {
        lemma_last_non_trim_bounds(s, j - 1);
    }
}

/// Trimming text whose ends are already clean changes nothing.
pub proof fn lemma_trim_clean(s: Seq<char>)
    requires
        s.len() > 0,
        !is_trimmed_char(s[0]),
        !is_trimmed_char(s[s.len() - 1]),
    ensures
        spec_trim(s) =~= s,
{
}

/// A scan that saw no separator up to `p`, and the separator or the end at
/// `p`, found the first separator position.
pub proof fn lemma_sep_pos_is(s: Seq<char>, i: int, p: int, sep: char)
    requires
        0 <= i <= p <= s.len(),
        forall|k: int| i <= k < p ==> s[k] != sep,
        p == s.len() || s[p] == sep,
    ensures
        sep_pos(s, i, sep) == p,
    decreases p - i,
{
    if i < p {
        lemma_sep_pos_is(s, i + 1, p, sep);
    }
}

/// A scan that saw no pair up to `p`, and the pair or the end at `p`, found
/// the first pair position.
pub proof fn lemma_pair_pos_is(s: Seq<char>, i: int, p: int, a: char, b: char)
    requires
        0 <= i <= p <= s.len(),
        forall|k: int| i <= k < p ==> !(#[trigger] s[k] == a && k + 1 < s.len() && s[k + 1] == b),
        p == s.len() || p + 1 == s.len() || (s[p] == a && s[p + 1] == b),
        p == s.len() || p + 1 < s.len(),
    ensures
        pair_pos(s, i, a, b) == p,
    decreases p - i,
{
    if i < p {
        lemma_pair_pos_is(s, i + 1, p, a, b);
    }
}

/// Position of the first occurrence of `sep` at or after `from`, or the
/// character length of `s` when there is none.
pub fn find_sep(s: &str, from: usize, sep: char) -> (p: usize)
    requires
        from <= s@.len(),
    ensures
        p == sep_pos(s@, from as int, sep),
        from <= p <= s@.len(),
{
    let n = s.unicode_len();
    let mut i: usize = from;
    while i < n && s.get_char(i) != sep
        invariant
            from <= i <= n,
            n == s@.len(),
            forall|k: int| from <= k < i ==> s@[k] != sep,
        decreases n - i,
    {
        i = i + 1;
    }
    proof {
        lemma_sep_pos_is(s@, from as int, i as int, sep);
    }
    i
}

/// Position of the first occurrence of the pair `a b` at or after `from`,
/// or the character length of `s` when there is none.
pub fn find_pair(s: &str, from: usize, a: char, b: char) -> (p: usize)
    requires
        from <= s@.len(),
    ensures
        p == pair_pos(s@, from as int, a, b),
        from <= p <= s@.len(),
        p < s@.len() ==> p + 1 < s@.len(),
    decreases s@.len() - from,
{
    let n = s.unicode_len();
    let mut i: usize = from;
    while n - i > 1 && !(s.get_char(i) == a && s.get_char(i + 1) == b)
        invariant
            from <= i <= n,
            n == s@.len(),
            forall|k: int|
                from <= k < i ==> !(#[trigger] s@[k] == a && k + 1 < s@.len() && s@[k + 1] == b),
        decreases n - i,
    {
        i = i + 1;
    }
    if n - i > 1 {
        proof {
            lemma_pair_pos_is(s@, from as int, i as int, a, b);
        }
        i
    } else {
        proof {
            lemma_pair_pos_is(s@, from as int, n as int, a, b);
        }
        n
    }
}

/// The pieces of `s` split on the separator character `sep`, in order.
pub fn split_char_all(s: &str, sep: char) -> (r: Vec<String>)
    ensures
        r.deep_view() == spec_split_char(s@, sep),
        r@.len() >= 1,
{
    let n = s.unicode_len();
    let mut r: Vec<String> = Vec::new();
    let mut i: usize = 0;
    let mut p: usize = find_sep(s, 0, sep);
    while p < n
        invariant
            n == s@.len(),
            0 <= i <= n,
            p == sep_pos(s@, i as int, sep),
            i <= p <= n,
            r.deep_view() + spec_split_char_from(s@, i as int, sep) == spec_split_char(s@, sep),
        decreases n - i,
    {
        let ghost prev = r.deep_view();
        let piece = String::from_str(s.substring_char(i, p));
        r.push(piece);
        proof {
            assert(r.deep_view() =~= prev.push(piece@));
            assert(prev.push(piece@) + spec_split_char_from(s@, p + 1, sep) =~= prev + (seq![
                s@.subrange(i as int, p as int),
            ] + spec_split_char_from(s@, p + 1, sep)));
        }
        i = p + 1;
        p = find_sep(s, i, sep);
    }
    let ghost prev = r.deep_view();
    let piece = String::from_str(s.substring_char(i, n));
    r.push(piece);
    proof {
        assert(r.deep_view() =~= prev.push(piece@));
        assert(prev.push(piece@) =~= prev + seq![s@.subrange(i as int, n as int)]);
    }
    r
}

/// The lines of `s`: its pieces split on `\r\n`, in order.
pub fn split_crlf(s: &str) -> (r: Vec<String>)
    ensures
        r.deep_view() == spec_lines(s@),
        r@.len() >= 1,
{
    let n = s.unicode_len();
    let mut r: Vec<String> = Vec::new();
    let mut i: usize = 0;
    let mut p: usize = find_pair(s, 0, '\r', '\n');
    while p < n
        invariant
            n == s@.len(),
            0 <= i <= n,
            p == pair_pos(s@, i as int, '\r', '\n'),
            i <= p <= n,
            p < n ==> p + 1 < n,
            r.deep_view() + spec_split_pair_from(s@, i as int, '\r', '\n') == spec_lines(s@),
        decreases n - i,
    {
        let ghost prev = r.deep_view();
        let piece = String::from_str(s.substring_char(i, p));
        r.push(piece);
        proof {
            assert(r.deep_view() =~= prev.push(piece@));
            assert(prev.push(piece@) + spec_split_pair_from(s@, p + 2, '\r', '\n') =~= prev + (seq![
                s@.subrange(i as int, p as int),
            ] + spec_split_pair_from(s@, p + 2, '\r', '\n')));
        }
        i = p + 2;
        p = find_pair(s, i, '\r', '\n');
    }
    let ghost prev = r.deep_view();
    let piece = String::from_str(s.substring_char(i, n));
    r.push(piece);
    proof {
        assert(r.deep_view() =~= prev.push(piece@));
        assert(prev.push(piece@) =~= prev + seq![s@.subrange(i as int, n as int)]);
    }
    r
}

/// Where the request-line token that starts at `i` ends: the first
/// whitespace position at or after `i`, or the end of the text.
pub open spec fn token_end(s: Seq<char>, i: int) -> int
    decreases s.len() - i,
{
    if i < 0 || i >= s.len() || is_token_ws(s[i]) {
        i
    } else {
        token_end(s, i + 1)
    }
}

/// The token runs to its end without whitespace and stops at whitespace or
/// at the end of the text.
pub proof fn lemma_token_end_bounds(s: Seq<char>, i: int)
    requires
        0 <= i <= s.len(),
    ensures
        i <= token_end(s, i) <= s.len(),
        token_end(s, i) < s.len() ==> is_token_ws(s[token_end(s, i)]),
        forall|k: int| i <= k < token_end(s, i) ==> !is_token_ws(s[k]),
        i < s.len() && !is_token_ws(s[i]) ==> token_end(s, i) > i,
    decreases s.len() - i,
{
    if i < s.len() && !is_token_ws(s[i]) {
        lemma_token_end_bounds(s, i + 1);
    }
}

/// A scan that saw no whitespace up to `j`, and whitespace or the end at
/// `j`, found the token's end.
pub proof fn lemma_token_end_is(s: Seq<char>, i: int, j: int)
    requires
        0 <= i <= j <= s.len(),
        forall|k: int| i <= k < j ==> !is_token_ws(s[k]),
        j == s.len() || is_token_ws(s[j]),
    ensures
        token_end(s, i) == j,
    decreases j - i,
{
    if i < j {
        lemma_token_end_is(s, i + 1, j);
    }
}

/// The whitespace-separated tokens of `s` from `i` onward, in order.
/// Runs of whitespace separate tokens; no token is empty.
pub open spec fn spec_tokens_from(s: Seq<char>, i: int) -> Seq<Seq<char>>
    decreases s.len() - i,
    when 0 <= i <= s.len()
    via spec_tokens_from_decreases
{
    if i >= s.len() {
        Seq::empty()
    } else if is_token_ws(s[i]) {
        spec_tokens_from(s, i + 1)
    } else {
        seq![s.subrange(i, token_end(s, i))] + spec_tokens_from(s, token_end(s, i))
    }
}

#[via_fn]
proof fn spec_tokens_from_decreases(s: Seq<char>, i: int) {
    lemma_token_end_bounds(s, i);
}

/// The whitespace-separated tokens of `s`, in order.
pub open spec fn spec_tokens(s: Seq<char>) -> Seq<Seq<char>> {
    spec_tokens_from(s, 0)
}

/// A run of non-whitespace characters ended by whitespace or by the end
/// of the text is the next token, and tokenizing continues after it.
pub proof fn lemma_tokens_from_run(s: Seq<char>, i: int, j: int)
    requires
        0 <= i < j <= s.len(),
        forall|k: int| i <= k < j ==> !is_token_ws(s[k]),
        j == s.len() || is_token_ws(s[j]),
    ensures
        spec_tokens_from(s, i) == seq![s.subrange(i, j)] + spec_tokens_from(s, j),
{
    lemma_token_end_is(s, i, j);
}

/// The whitespace-separated tokens of `s`, in order.
pub fn split_whitespace_tokens(s: &str) -> (r: Vec<String>)
    ensures
        r.deep_view() == spec_tokens(s@),
{
    let n = s.unicode_len();
    let mut r: Vec<String> = Vec::new();
    let mut i: usize = 0;
    while i < n
        invariant
            n == s@.len(),
            0 <= i <= n,
            r.deep_view() + spec_tokens_from(s@, i as int) == spec_tokens(s@),
        decreases n - i,
    {
        if is_ws_char(s.get_char(i)) {
            i = i + 1;
        } else {
            let mut j: usize = i + 1;
            while j < n && !is_ws_char(s.get_char(j))
                invariant
                    n == s@.len(),
                    i < j <= n,
                    i < n,
                    !is_token_ws(s@[i as int]),
                    forall|k: int| i <= k < j ==> !is_token_ws(s@[k]),
                decreases n - j,
            {
                j = j + 1;
            }
            proof {
                lemma_token_end_is(s@, i as int, j as int);
            }
            let ghost prev = r.deep_view();
            let piece = String::from_str(s.substring_char(i, j));
            r.push(piece);
            proof {
                assert(r.deep_view() =~= prev.push(piece@));
                assert(prev.push(piece@) + spec_tokens_from(s@, j as int) =~= prev + (seq![
                    s@.subrange(i as int, j as int),
                ] + spec_tokens_from(s@, j as int)));
            }
            i = j;
        }
    }
    r
}

/// Everything before the cut is trimmed, so the scan found the cut.
proof fn lemma_first_non_trim_is(s: Seq<char>, i: int, a: int)
    requires
        0 <= i <= a <= s.len(),
        forall|k: int| i <= k < a ==> is_trimmed_char(s[k]),
        a == s.len() || !is_trimmed_char(s[a]),
    ensures
        first_non_trim(s, i) == a,
    decreases a - i,
{
    if i < a {
        lemma_first_non_trim_is(s, i + 1, a);
    }
}

/// Everything from the cut to `j` is trimmed, so the backward scan found
/// the cut.
proof fn lemma_last_non_trim_is(s: Seq<char>, b: int, j: int)
    requires
        0 <= b <= j <= s.len(),
        forall|k: int| b <= k < j ==> is_trimmed_char(s[k]),
        b == 0 || !is_trimmed_char(s[b - 1]),
    ensures
        last_non_trim(s, j) == b,
    decreases j - b,
{
    if b < j {
        lemma_last_non_trim_is(s, b, j - 1);
    }
}

/// Character-for-character equality of two text slices.
pub fn str_eq(a: &str, b: &str) -> (r: bool)
    ensures
        r == (a@ == b@),
{
    let n = a.unicode_len();
    if n != b.unicode_len() {
        return false;
    }
    let mut k: usize = 0;
    while k < n && a.get_char(k) == b.get_char(k)
        invariant
            n == a@.len(),
            n == b@.len(),
            0 <= k <= n,
            forall|j: int| 0 <= j < k ==> a@[j] == b@[j],
        decreases n - k,
    {
        k = k + 1;
    }
    if k == n {
        proof {
            assert(a@ =~= b@);
        }
        true
    } else {
        false
    }
}

/// `s` with whitespace and control characters removed from both ends.
pub fn trim_wire_text(s: &str) -> (r: String)
    ensures
        r@ == spec_trim(s@),
{
    let n = s.unicode_len();
    let mut a: usize = 0;
    while a < n && is_trim_char(s.get_char(a))
        invariant
            n == s@.len(),
            0 <= a <= n,
            forall|k: int| 0 <= k < a ==> is_trimmed_char(s@[k]),
        decreases n - a,
    {
        a = a + 1;
    }
    proof {
        lemma_first_non_trim_is(s@, 0, a as int);
    }
    let mut b: usize = n;
    while b > a && is_trim_char(s.get_char(b - 1))
        invariant
            n == s@.len(),
            a <= b <= n,
            forall|k: int| b <= k < n ==> is_trimmed_char(s@[k]),
        decreases b,
    {
        b = b - 1;
    }
    if a == n {
        proof {
            lemma_last_non_trim_bounds(s@, n as int);
        }
        String::new()
    } else {
        proof {
            assert(!is_trimmed_char(s@[a as int]));
            assert(b > a) by {
                if b <= a {
                    assert(is_trimmed_char(s@[a as int]));
                }
            }
            lemma_last_non_trim_is(s@, b as int, n as int);
        }
        String::from_str(s.substring_char(a, b))
    }
}

} // verus!

//! Verified text primitives: the whitespace class, trimming, character
//! search, splitting and whitespace tokenisation over `&str` values, each
//! specified against a spec-level function on the string's view.

use vstd::prelude::*;

verus! {

/// The set of characters treated as blank throughout the dump format:
/// the Unicode `White_Space` class, as `char::is_whitespace` has it.
pub open spec fn char_is_space(c: char) -> bool {
    let u = c as u32;
    ||| u == 0x09
    ||| u == 0x0A
    ||| u == 0x0B
    ||| u == 0x0C
    ||| u == 0x0D
    ||| u == 0x20
    ||| u == 0x85
    ||| u == 0xA0
    ||| u == 0x1680
    ||| (0x2000 <= u && u <= 0x200A)
    ||| u == 0x2028
    ||| u == 0x2029
    ||| u == 0x202F
    ||| u == 0x205F
    ||| u == 0x3000
}

pub fn is_space_char(c: char) -> (r: bool)
    ensures
        r == char_is_space(c),
{
    let u = c as u32;
    u == 0x09 || u == 0x0A || u == 0x0B || u == 0x0C || u == 0x0D || u == 0x20 || u == 0x85
        || u == 0xA0 || u == 0x1680 || (0x2000 <= u && u <= 0x200A) || u == 0x2028 || u == 0x2029
        || u == 0x202F || u == 0x205F || u == 0x3000
}

/// The string with its leading blank characters removed.
pub open spec fn trim_start(s: Seq<char>) -> Seq<char>
    decreases s.len(),
{
    if s.len() > 0 && char_is_space(s[0]) {
        trim_start(s.drop_first())
    } else {
        s
    }
}

/// The string with its trailing blank characters removed.
pub open spec fn trim_end(s: Seq<char>) -> Seq<char>
    decreases s.len(),
{
    if s.len() > 0 && char_is_space(s.last()) {
        trim_end(s.drop_last())
    } else {
        s
    }
}

/// The string with blank characters removed from both ends.
pub open spec fn trim(s: Seq<char>) -> Seq<char> {
    trim_end(trim_start(s))
}

/// Once every character before position `i` is blank and the one at `i`
/// (if any) is not, trimming the start keeps exactly the suffix from `i`.
pub proof fn lemma_trim_start_at(s: Seq<char>, i: int)
    requires
        0 <= i <= s.len(),
        forall|k: int| 0 <= k < i ==> char_is_space(s[k]),
        i < s.len() ==> !char_is_space(s[i]),
    ensures
        trim_start(s) == s.subrange(i, s.len() as int),
    decreases i,
{
    if i == 0 {
        assert(s.subrange(0, s.len() as int) =~= s);
    } else {
        let t = s.drop_first();
        lemma_trim_start_at(t, i - 1);
        assert(t.subrange(i - 1, t.len() as int) =~= s.subrange(i, s.len() as int));
    }
}

/// Once every character from position `j` on is blank and the one just
/// before `j` (if any) is not, trimming the end keeps exactly the prefix
/// up to `j`.
pub proof fn lemma_trim_end_at(s: Seq<char>, j: int)
    requires
        0 <= j <= s.len(),
        forall|k: int| j <= k < s.len() ==> char_is_space(s[k]),
        j > 0 ==> !char_is_space(s[j - 1]),
    ensures
        trim_end(s) == s.subrange(0, j),
    decreases s.len(),
{
    if j == s.len() {
        assert(s.subrange(0, j) =~= s);
    } else {
        lemma_trim_end_at(s.drop_last(), j);
        assert(s.drop_last().subrange(0, j) =~= s.subrange(0, j));
    }
}

/// Counts the blank prefix of `s`, so that the result and every later
/// index satisfy the preconditions of the trimming lemmas.
fn scan_leading_spaces(s: &str) -> (i: usize)
    ensures
        i <= s@.len(),
        forall|k: int| 0 <= k < i ==> char_is_space(s@[k]),
        i < s@.len() ==> !char_is_space(s@[i as int]),
{
    let n = s.unicode_len();
    let mut i: usize = 0;
    loop
        invariant
            n == s@.len(),
            i <= n,
            forall|k: int| 0 <= k < i ==> char_is_space(s@[k]),
        ensures
            i <= n,
            forall|k: int| 0 <= k < i ==> char_is_space(s@[k]),
            i < n ==> !char_is_space(s@[i as int]),
        decreases n - i,
    {
        if i < n {
            if is_space_char(s.get_char(i)) {
                i += 1;
            } else {
                break;
            }
        } else {
            break;
        }
    }
    i
}

/// `str::trim_start` for the dump's lines, against `trim_start` on views.
pub fn str_trim_start(s: &str) -> (r: &str)
    ensures
        r@ == trim_start(s@),
{
    let n = s.unicode_len();
    let i = scan_leading_spaces(s);
    proof {
        lemma_trim_start_at(s@, i as int);
    }
    s.substring_char(i, n)
}

/// `str::trim` for the dump's lines, against `trim` on views.
pub fn str_trim(s: &str) -> (r: &str)
    ensures
        r@ == trim(s@),
{
    let n = s.unicode_len();
    let i = scan_leading_spaces(s);
    let mut j: usize = n;
    loop
        invariant
            n == s@.len(),
            i <= s@.len(),
            i <= j <= n,
            forall|k: int| 0 <= k < i ==> char_is_space(s@[k]),
            i < n ==> !char_is_space(s@[i as int]),
            forall|k: int| j <= k < n ==> char_is_space(s@[k]),
        ensures
            i <= j <= n,
            forall|k: int| j <= k < n ==> char_is_space(s@[k]),
            j > i ==> !char_is_space(s@[j - 1]),
        decreases j,
    {
        if j > i {
            if is_space_char(s.get_char(j - 1)) {
                j -= 1;
            } else {
                break;
            }
        } else {
            break;
        }
    }
    proof {
        lemma_trim_start_at(s@, i as int);
        let t = s@.subrange(i as int, s@.len() as int);
        lemma_trim_end_at(t, j - i);
        assert(t.subrange(0, j - i) =~= s@.subrange(i as int, j as int));
    }
    s.substring_char(i, j)
}

/// Index of the first occurrence of `c` in `s`, or `s.len()` if absent.
pub open spec fn find_char(s: Seq<char>, c: char) -> int
    decreases s.len(),
{
    if s.len() == 0 {
        0
    } else if s[0] == c {
        0
    } else {
        1 + find_char(s.drop_first(), c)
    }
}

/// Once `c` is absent before position `i` and present at `i` (if `i` is
/// in range), `i` is where the search lands.
pub proof fn lemma_find_char_at(s: Seq<char>, c: char, i: int)
    requires
        0 <= i <= s.len(),
        forall|k: int| 0 <= k < i ==> s[k] != c,
        i < s.len() ==> s[i] == c,
    ensures
        find_char(s, c) == i,
    decreases i,
{
    if i > 0 {
        lemma_find_char_at(s.drop_first(), c, i - 1);
    }
}

/// `str::find` on a single character, against `find_char` on views.
pub fn str_find_char(s: &str, c: char) -> (i: usize)
    ensures
        i == find_char(s@, c),
        i <= s@.len(),
{
    let n = s.unicode_len();
    let mut i: usize = 0;
    loop
        invariant
            n == s@.len(),
            i <= n,
            forall|k: int| 0 <= k < i ==> s@[k] != c,
        ensures
            i <= n,
            forall|k: int| 0 <= k < i ==> s@[k] != c,
            i < n ==> s@[i as int] == c,
        decreases n - i,
    {
        if i < n {
            if s.get_char(i) == c {
                break;
            } else {
                i += 1;
            }
        } else {
            break;
        }
    }
    proof {
        lemma_find_char_at(s@, c, i as int);
    }
    i
}

/// Index of the first blank character in `s`, or `s.len()` if none.
pub open spec fn find_space(s: Seq<char>) -> int
    decreases s.len(),
{
    if s.len() == 0 {
        0
    } else if char_is_space(s[0]) {
        0
    } else {
        1 + find_space(s.drop_first())
    }
}

/// The blank-character analogue of `lemma_find_char_at`.
pub proof fn lemma_find_space_at(s: Seq<char>, i: int)
    requires
        0 <= i <= s.len(),
        forall|k: int| 0 <= k < i ==> !char_is_space(s[k]),
        i < s.len() ==> char_is_space(s[i]),
    ensures
        find_space(s) == i,
    decreases i,
{
    if i > 0 {
        lemma_find_space_at(s.drop_first(), i - 1);
    }
}

/// Position of the first blank character, or the length if none.
pub fn str_find_space(s: &str) -> (i: usize)
    ensures
        i == find_space(s@),
        i <= s@.len(),
{
    let n = s.unicode_len();
    let mut i: usize = 0;
    loop
        invariant
            n == s@.len(),
            i <= n,
            forall|k: int| 0 <= k < i ==> !char_is_space(s@[k]),
        ensures
            i <= n,
            forall|k: int| 0 <= k < i ==> !char_is_space(s@[k]),
            i < n ==> char_is_space(s@[i as int]),
        decreases n - i,
    {
        if i < n {
            if is_space_char(s.get_char(i)) {
                break;
            } else {
                i += 1;
            }
        } else {
            break;
        }
    }
    proof {
        lemma_find_space_at(s@, i as int);
    }
    i
}

/// Whether `p` is a prefix of `s`.
pub open spec fn starts_with(s: Seq<char>, p: Seq<char>) -> bool {
    s.len() >= p.len() && s.subrange(0, p.len() as int) == p
}

/// `str::starts_with`, against `starts_with` on views.
pub fn str_starts_with(s: &str, p: &str) -> (r: bool)
    ensures
        r == starts_with(s@, p@),
{
    let n = s.unicode_len();
    let m = p.unicode_len();
    if m > n {
        return false;
    }
    let mut i: usize = 0;
    while i < m
        invariant
            m <= n,
            n == s@.len(),
            m == p@.len(),
            i <= m,
            forall|k: int| 0 <= k < i ==> s@[k] == p@[k],
        decreases m - i,
    {
        if s.get_char(i) != p.get_char(i) {
            proof {
                assert(s@.subrange(0, m as int)[i as int] != p@[i as int]);
            }
            return false;
        }
        i += 1;
    }
    proof {
        assert(s@.subrange(0, m as int) =~= p@);
    }
    true
}

/// Character-for-character string equality, against view equality.
pub fn str_eq(a: &str, b: &str) -> (r: bool)
    ensures
        r == (a@ == b@),
{
    let n = a.unicode_len();
    let m = b.unicode_len();
    if n != m {
        return false;
    }
    let mut i: usize = 0;
    while i < n
        invariant
            n == a@.len(),
            n == b@.len(),
            i <= n,
            forall|k: int| 0 <= k < i ==> a@[k] == b@[k],
        decreases n - i,
    {
        if a.get_char(i) != b.get_char(i) {
            return false;
        }
        i += 1;
    }
    proof {
        assert(a@ =~= b@);
    }
    true
}

/// The fields of `s` delimited by `c`, as `str::split` yields them: one
/// more field than there are separators, empty fields kept.
pub open spec fn split_char(s: Seq<char>, c: char) -> Seq<Seq<char>>
    decreases s.len(),
{
    let f = find_char(s, c);
    if 0 <= f < s.len() {
        seq![s.subrange(0, f)] + split_char(s.subrange(f + 1, s.len() as int), c)
    } else {
        seq![s]
    }
}

/// The string with every trailing occurrence of `c` removed, as
/// `str::trim_end_matches` on a single character leaves it.
pub open spec fn strip_trailing(s: Seq<char>, c: char) -> Seq<char>
    decreases s.len(),
{
    if s.len() > 0 && s.last() == c {
        strip_trailing(s.drop_last(), c)
    } else {
        s
    }
}

/// Once everything from position `j` on equals `c` and the character
/// just before `j` (if any) does not, stripping keeps the prefix to `j`.
pub proof fn lemma_strip_trailing_at(s: Seq<char>, c: char, j: int)
    requires
        0 <= j <= s.len(),
        forall|k: int| j <= k < s.len() ==> s[k] == c,
        j > 0 ==> s[j - 1] != c,
    ensures
        strip_trailing(s, c) == s.subrange(0, j),
    decreases s.len(),
{
    if j == s.len() {
        assert(s.subrange(0, j) =~= s);
    } else {
        lemma_strip_trailing_at(s.drop_last(), c, j);
        assert(s.drop_last().subrange(0, j) =~= s.subrange(0, j));
    }
}

/// `str::trim_end_matches` on a single character.
pub fn str_strip_trailing(s: &str, c: char) -> (r: &str)
    ensures
        r@ == strip_trailing(s@, c),
{
    let n = s.unicode_len();
    let mut j: usize = n;
    loop
        invariant
            n == s@.len(),
            j <= n,
            forall|k: int| j <= k < n ==> s@[k] == c,
        ensures
            j <= n,
            forall|k: int| j <= k < n ==> s@[k] == c,
            j > 0 ==> s@[j - 1] != c,
        decreases j,
    {
        if j > 0 {
            if s.get_char(j - 1) == c {
                j -= 1;
            } else {
                break;
            }
        } else {
            break;
        }
    }
    proof {
        lemma_strip_trailing_at(s@, c, j as int);
    }
    s.substring_char(0, j)
}

/// `str::split` on a single character, against `split_char` on views.
pub fn str_split_char(s: &str, c: char) -> (parts: Vec<String>)
    ensures
        parts.deep_view() == split_char(s@, c),
{
    let n = s.unicode_len();
    let mut parts: Vec<String> = Vec::new();
    let mut pos: usize = 0;
    proof {
        assert(s@.subrange(0, n as int) =~= s@);
        assert(parts.deep_view() =~= Seq::<Seq<char>>::empty());
        assert(parts.deep_view() + split_char(s@, c) =~= split_char(s@, c));
    }
    loop
        invariant_except_break
            n == s@.len(),
            pos <= n,
            split_char(s@, c) == parts.deep_view() + split_char(
                s@.subrange(pos as int, n as int),
                c,
            ),
        ensures
            parts.deep_view() == split_char(s@, c),
        decreases n - pos,
    {
        let mut k: usize = pos;
        loop
            invariant
                pos <= k <= n,
                n == s@.len(),
                forall|m: int| pos <= m < k ==> s@[m] != c,
            ensures
                pos <= k <= n,
                forall|m: int| pos <= m < k ==> s@[m] != c,
                k < n ==> s@[k as int] == c,
            decreases n - k,
        {
            if k < n {
                if s.get_char(k) == c {
                    break;
                } else {
                    k += 1;
                }
            } else {
                break;
            }
        }
        let part = String::from_str(s.substring_char(pos, k));
        let ghost dv0 = parts.deep_view();
        parts.push(part);
        proof {
            assert(parts.deep_view() =~= dv0.push(part@));
            let rest = s@.subrange(pos as int, n as int);
            lemma_find_char_at(rest, c, k - pos);
            if k < n {
                assert(rest.subrange(0, k - pos) =~= s@.subrange(pos as int, k as int));
                assert(rest.subrange(k - pos + 1, rest.len() as int) =~= s@.subrange(
                    k + 1 as int,
                    n as int,
                ));
                assert(split_char(s@, c) =~= parts.deep_view() + split_char(
                    s@.subrange(k + 1 as int, n as int),
                    c,
                ));
            } else {
                assert(rest.subrange(0, k - pos) =~= rest);
                assert(split_char(rest, c) =~= seq![rest]);
                assert(split_char(s@, c) =~= parts.deep_view());
            }
        }
        if k == n {
            break;
        }
        pos = k + 1;
    }
    parts
}

/// End of the run of non-blank characters that starts at `i`.
pub open spec fn token_end(s: Seq<char>, i: int) -> int
    decreases s.len() - i,
{
    if 0 <= i < s.len() && !char_is_space(s[i]) {
        token_end(s, i + 1)
    } else {
        i
    }
}

/// Bounds and contents of the token that starts at `i`.
pub proof fn lemma_token_end(s: Seq<char>, i: int)
    requires
        0 <= i <= s.len(),
    ensures
        i <= token_end(s, i) <= s.len(),
        forall|m: int| i <= m < token_end(s, i) ==> !char_is_space(s[m]),
        token_end(s, i) < s.len() ==> char_is_space(s[token_end(s, i)]),
    decreases s.len() - i,
{
    if i < s.len() && !char_is_space(s[i]) {
        lemma_token_end(s, i + 1);
    }
}

/// Once everything in `[i, j)` is non-blank and `j` sits on a blank
/// character or at the end, `j` ends the token that starts at `i`.
pub proof fn lemma_token_end_at(s: Seq<char>, i: int, j: int)
    requires
        0 <= i <= j <= s.len(),
        forall|m: int| i <= m < j ==> !char_is_space(s[m]),
        j < s.len() ==> char_is_space(s[j]),
    ensures
        token_end(s, i) == j,
    decreases j - i,
{
    if i < j {
        lemma_token_end_at(s, i + 1, j);
    }
}

/// The whitespace-separated tokens of `s` from position `i` on, as
/// `str::split_whitespace` yields them: maximal non-blank runs, in order.
pub open spec fn tokens_from(s: Seq<char>, i: int) -> Seq<Seq<char>>
    decreases s.len() - i,
    via tokens_from_decreases
{
    if !(0 <= i < s.len()) {
        Seq::empty()
    } else if char_is_space(s[i]) {
        tokens_from(s, i + 1)
    } else {
        seq![s.subrange(i, token_end(s, i))] + tokens_from(s, token_end(s, i))
    }
}

#[via_fn]
proof fn tokens_from_decreases(s: Seq<char>, i: int) {
    if 0 <= i < s.len() && !char_is_space(s[i]) {
        lemma_token_end(s, i);
    }
}

/// The whitespace-separated tokens of the whole string.
pub open spec fn tokens(s: Seq<char>) -> Seq<Seq<char>> {
    tokens_from(s, 0)
}

/// `str::split_whitespace` collected into a vector, against `tokens`.
pub fn str_tokens(s: &str) -> (toks: Vec<String>)
    ensures
        toks.deep_view() == tokens(s@),
{
    let n = s.unicode_len();
    let mut toks: Vec<String> = Vec::new();
    let mut i: usize = 0;
    proof {
        assert(toks.deep_view() =~= Seq::<Seq<char>>::empty());
        assert(toks.deep_view() + tokens_from(s@, 0) =~= tokens_from(s@, 0));
    }
    while i < n
        invariant
            n == s@.len(),
            i <= n,
            tokens(s@) == toks.deep_view() + tokens_from(s@, i as int),
        decreases n - i,
    {
        if is_space_char(s.get_char(i)) {
            i += 1;
        } else {
            let mut j: usize = i + 1;
            loop
                invariant
                    i < j <= n,
                    n == s@.len(),
                    !char_is_space(s@[i as int]),
                    forall|m: int| i <= m < j ==> !char_is_space(s@[m]),
                ensures
                    i < j <= n,
                    forall|m: int| i <= m < j ==> !char_is_space(s@[m]),
                    j < n ==> char_is_space(s@[j as int]),
                decreases n - j,
            {
                if j < n {
                    if is_space_char(s.get_char(j)) {
                        break;
                    } else {
                        j += 1;
                    }
                } else {
                    break;
                }
            }
            let t = String::from_str(s.substring_char(i, j));
            let ghost dv0 = toks.deep_view();
            toks.push(t);
            proof {
                lemma_token_end_at(s@, i as int, j as int);
                assert(toks.deep_view() =~= dv0.push(t@));
                assert(toks.deep_view() + tokens_from(s@, j as int) =~= dv0 + tokens_from(
                    s@,
                    i as int,
                ));
            }
            i = j;
        }
    }
    proof {
        assert(toks.deep_view() + tokens_from(s@, n as int) =~= toks.deep_view());
    }
    toks
}

} // verus!

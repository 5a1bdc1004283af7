use vstd::prelude::*;
use vstd::string::*;

verus! {

/// `n` occurs in `h` starting at index `i`.
pub open spec fn occurs_at(h: Seq<char>, n: Seq<char>, i: int) -> bool {
    0 <= i && i + n.len() <= h.len() && h.subrange(i, i + n.len()) == n
}

/// `n` occurs somewhere in `h`.
pub open spec fn has_infix(h: Seq<char>, n: Seq<char>) -> bool {
    exists|i: int| occurs_at(h, n, i)
}

/// `h` begins with `p`.
pub open spec fn has_prefix(h: Seq<char>, p: Seq<char>) -> bool {
    occurs_at(h, p, 0)
}

/// `h` ends with `p`.
pub open spec fn has_suffix(h: Seq<char>, p: Seq<char>) -> bool {
    occurs_at(h, p, h.len() - p.len())
}

/// Index of the first `c` in `s` at or after `i`, or `s.len()` when there is none.
pub open spec fn next_index(s: Seq<char>, i: int, c: char) -> int
    decreases s.len() - i,
{
    if i >= s.len() {
        s.len() as int
    } else if s[i] == c {
        i
    } else {
        next_index(s, i + 1, c)
    }
}

pub proof fn lemma_next_index(s: Seq<char>, i: int, c: char)
    requires
        0 <= i <= s.len(),
    ensures
        i <= next_index(s, i, c) <= s.len(),
        forall|k: int| i <= k < next_index(s, i, c) ==> s[k] != c,
        next_index(s, i, c) < s.len() ==> s[next_index(s, i, c)] == c,
    decreases s.len() - i,
{
    if i < s.len() && s[i] != c {
        lemma_next_index(s, i + 1, c);
    }
}

/// Number of characters of `s`.
pub fn char_len(s: &str) -> (r: usize)
    ensures
        r == s@.len(),
{
    s.unicode_len()
}

/// Index of the first `c` in `s` at or after `from` (`s@.len()` when there is none).
pub fn find_from(s: &str, from: usize, c: char) -> (r: usize)
    requires
        from <= s@.len(),
    ensures
        r == next_index(s@, from as int, c),
{
    let n = s.unicode_len();
    let mut i = from;
    proof {
        lemma_next_index(s@, from as int, c);
    }
    while i < n
        invariant
            n == s@.len(),
            from <= i <= n,
            next_index(s@, i as int, c) == next_index(s@, from as int, c),
        decreases n - i,
    {
        if s.get_char(i) == c {
            return i;
        }
        i = i + 1;
    }
    i
}

/// Whether `n` occurs in `h` at index `i`.
pub fn occurs_at_exec(h: &str, n: &str, i: usize) -> (r: bool)
    ensures
        r == occurs_at(h@, n@, i as int),
{
    let hl = h.unicode_len();
    let nl = n.unicode_len();
    if i > hl || nl > hl - i {
        return false;
    }
    let mut j: usize = 0;
    while j < nl
        invariant
            hl == h@.len(),
            nl == n@.len(),
            i + nl <= hl,
            j <= nl,
            forall|k: int| 0 <= k < j ==> h@[i + k] == n@[k],
        decreases nl - j,
    {
        if h.get_char(i + j) != n.get_char(j) {
            assert(h@.subrange(i as int, i + nl)[j as int] != n@[j as int]);
            return false;
        }
        j = j + 1;
    }
    assert(h@.subrange(i as int, i + nl) =~= n@);
    true
}

/// Whether `n` occurs anywhere in `h`.
pub fn contains_text(h: &str, n: &str) -> (r: bool)
    ensures
        r == has_infix(h@, n@),
{
    let hl = h.unicode_len();
    let nl = n.unicode_len();
    if nl > hl {
        assert(forall|i: int| !occurs_at(h@, n@, i));
        return false;
    }
    if nl == 0 {
        assert(h@.subrange(0, 0) =~= n@);
        assert(occurs_at(h@, n@, 0));
        return true;
    }
    let mut i: usize = 0;
    while i <= hl - nl
        invariant
            hl == h@.len(),
            nl == n@.len(),
            1 <= nl <= hl,
            i <= hl - nl + 1,
            forall|k: int| 0 <= k < i ==> !occurs_at(h@, n@, k),
        decreases hl - nl + 1 - i,
    {
        if occurs_at_exec(h, n, i) {
            return true;
        }
        i = i + 1;
    }
    assert(forall|k: int| !occurs_at(h@, n@, k));
    false
}

/// Whether `h` begins with `p`.
pub fn starts_with_text(h: &str, p: &str) -> (r: bool)
    ensures
        r == has_prefix(h@, p@),
{
    occurs_at_exec(h, p, 0)
}

/// Whether `h` ends with `p`.
pub fn ends_with_text(h: &str, p: &str) -> (r: bool)
    ensures
        r == has_suffix(h@, p@),
{
    let hl = h.unicode_len();
    let pl = p.unicode_len();
    if pl > hl {
        return false;
    }
    occurs_at_exec(h, p, hl - pl)
}

/// The characters of `s` from `a` to `b`, as a new string.
pub fn slice_text(s: &str, a: usize, b: usize) -> (r: String)
    requires
        a <= b <= s@.len(),
    ensures
        r@ == s@.subrange(a as int, b as int),
{
    String::from_str(s.substring_char(a, b))
}

/// What `str::to_lowercase` returns for `s`.
pub uninterp spec fn lower_of(s: Seq<char>) -> Seq<char>;

/// `c` is an ASCII character.
pub open spec fn ascii_char(c: char) -> bool {
    (c as u32) < 128
}

/// `c` mapped to lower case if it is an ASCII capital letter.
pub open spec fn ascii_lower_char(c: char) -> char {
    if 'A' <= c && c <= 'Z' {
        ((c as u32) + 32) as char
    } else {
        c
    }
}

/// All characters of `s` are ASCII.
pub open spec fn all_ascii(s: Seq<char>) -> bool {
    forall|i: int| 0 <= i < s.len() ==> ascii_char(#[trigger] s[i])
}

/// `s` with its ASCII capital letters lowered.
pub open spec fn ascii_lower(s: Seq<char>) -> Seq<char> {
    s.map_values(|c: char| ascii_lower_char(c))
}

/// `s` in lower case: on ASCII text the capital letters A to Z are lowered and every
/// other character kept; other text as `str::to_lowercase` gives it.
pub open spec fn lowered(s: Seq<char>) -> Seq<char> {
    if all_ascii(s) { ascii_lower(s) } else { lower_of(s) }
}

/// Relies on `str::to_lowercase`: the result depends on the characters alone; on ASCII
/// text it lowers the capital letters A to Z and keeps every other character.
#[verifier::external_body]
pub(crate) fn lowercase(s: &str) -> (r: String)
    ensures
        all_ascii(s@) ==> r@ == ascii_lower(s@),
        !all_ascii(s@) ==> r@ == lower_of(s@),
{
    s.to_lowercase()
}

/// The Unicode White_Space property, as `char::is_whitespace` tests it.
pub open spec fn white_space(c: char) -> bool {
    let u = c as u32;
    (0x9 <= u && u <= 0xd) || u == 0x20 || u == 0x85 || u == 0xa0 || u == 0x1680 || (0x2000 <= u
        && u <= 0x200a) || u == 0x2028 || u == 0x2029 || u == 0x202f || u == 0x205f || u == 0x3000
}

/// Whether `c` is white space.
pub fn is_space(c: char) -> (r: bool)
    ensures
        r == white_space(c),
{
    let u = c as u32;
    (0x9 <= u && u <= 0xd) || u == 0x20 || u == 0x85 || u == 0xa0 || u == 0x1680 || (0x2000 <= u
        && u <= 0x200a) || u == 0x2028 || u == 0x2029 || u == 0x202f || u == 0x205f || u == 0x3000
}

/// Index of the first non-white character of `s` at or after `i` (or `s.len()`).
pub open spec fn skip_white(s: Seq<char>, i: int) -> int
    decreases s.len() - i,
{
    if i >= s.len() {
        s.len() as int
    } else if white_space(s[i]) {
        skip_white(s, i + 1)
    } else {
        i
    }
}

/// One past the last non-white character of `s` before `j` (or `lo` when there is none from `lo`).
pub open spec fn back_white(s: Seq<char>, lo: int, j: int) -> int
    decreases j - lo,
{
    if j <= lo {
        lo
    } else if white_space(s[j - 1]) {
        back_white(s, lo, j - 1)
    } else {
        j
    }
}

/// `s` without leading and trailing white space, as `str::trim` gives it.
pub open spec fn trimmed(s: Seq<char>) -> Seq<char> {
    let a = skip_white(s, 0);
    s.subrange(a, back_white(s, a, s.len() as int))
}

pub proof fn lemma_skip_white(s: Seq<char>, i: int)
    requires
        0 <= i <= s.len(),
    ensures
        i <= skip_white(s, i) <= s.len(),
        skip_white(s, i) < s.len() ==> !white_space(s[skip_white(s, i)]),
    decreases s.len() - i,
{
    if i < s.len() && white_space(s[i]) {
        lemma_skip_white(s, i + 1);
    }
}

pub proof fn lemma_back_white(s: Seq<char>, lo: int, j: int)
    requires
        0 <= lo <= j <= s.len(),
    ensures
        lo <= back_white(s, lo, j) <= j,
        back_white(s, lo, j) > lo ==> !white_space(s[back_white(s, lo, j) - 1]),
    decreases j - lo,
{
    if j > lo && white_space(s[j - 1]) {
        lemma_back_white(s, lo, j - 1);
    }
}

/// Trimmed text neither begins nor ends with white space.
pub proof fn lemma_trimmed_ends(s: Seq<char>)
    ensures
        trimmed(s).len() > 0 ==> !white_space(trimmed(s)[0]) && !white_space(trimmed(s).last()),
        trimmed(s).len() <= s.len(),
        0 <= skip_white(s, 0),
        skip_white(s, 0) + trimmed(s).len() <= s.len(),
        forall|k: int| 0 <= k < trimmed(s).len() ==> trimmed(s)[k] == s[skip_white(s, 0) + k],
{
    lemma_skip_white(s, 0);
    let a = skip_white(s, 0);
    lemma_back_white(s, a, s.len() as int);
}

/// `s` without leading and trailing white space.
pub fn trim_text(s: &str) -> (r: String)
    ensures
        r@ == trimmed(s@),
{
    let n = s.unicode_len();
    let mut a: usize = 0;
    proof {
        lemma_skip_white(s@, 0);
    }
    while a < n && is_space(s.get_char(a))
        invariant
            n == s@.len(),
            a <= n,
            skip_white(s@, a as int) == skip_white(s@, 0),
        decreases n - a,
    {
        a = a + 1;
    }
    let mut b: usize = n;
    proof {
        lemma_back_white(s@, a as int, n as int);
    }
    while b > a && is_space(s.get_char(b - 1))
        invariant
            n == s@.len(),
            a <= b <= n,
            a == skip_white(s@, 0),
            back_white(s@, a as int, b as int) == back_white(s@, a as int, n as int),
        decreases b - a,
    {
        b = b - 1;
    }
    slice_text(s, a, b)
}

} // verus!

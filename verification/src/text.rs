//! Small string helpers proved against their character-level meaning.

use vstd::prelude::*;

verus! {

/// The code point of `c` after ASCII lower-casing; every character outside
/// `A..=Z` keeps its own code point.
pub open spec fn ascii_lower(c: char) -> u32 {
    if 65 <= (c as u32) <= 90 {
        (c as u32 + 32) as u32
    } else {
        c as u32
    }
}

/// Equality up to ASCII case, as `str::eq_ignore_ascii_case` defines it.
pub open spec fn eq_ignore_ascii_case_spec(a: Seq<char>, b: Seq<char>) -> bool {
    a.len() == b.len() && forall|i: int|
        0 <= i < a.len() ==> ascii_lower(#[trigger] a[i]) == ascii_lower(b[i])
}

/// The characters `str::trim` removes from both ends.
pub open spec fn is_trimmed_space(c: char) -> bool {
    c == ' ' || c == '\t' || c == '\n' || c == '\r' || c == '\u{0B}' || c == '\u{0C}' || c
        == '\u{85}' || c == '\u{A0}' || c == '\u{1680}' || ('\u{2000}' <= c && c <= '\u{200A}')
        || c == '\u{2028}' || c == '\u{2029}' || c == '\u{202F}' || c == '\u{205F}' || c
        == '\u{3000}'
}

/// A string that is empty or holds nothing but white space.
pub open spec fn is_blank(s: Seq<char>) -> bool {
    forall|i: int| 0 <= i < s.len() ==> is_trimmed_space(#[trigger] s[i])
}

fn lower(c: char) -> (r: u32)
    ensures
        r == ascii_lower(c),
{
    let code: u32 = c as u32;
    if 65 <= code && code <= 90 {
        code + 32
    } else {
        code
    }
}

/// Exact character-by-character equality of two strings.
pub fn str_equal(a: &str, b: &str) -> (r: bool)
    ensures
        r == (a@ == b@),
{
    let n = a.unicode_len();
    if n != b.unicode_len() {
        return false;
    }
    let mut i: usize = 0;
    while i < n
        invariant
            n == a@.len(),
            n == b@.len(),
            i <= n,
            forall|j: int| 0 <= j < i ==> a@[j] == b@[j],
        decreases n - i,
    {
        if a.get_char(i) != b.get_char(i) {
            return false;
        }
        i = i + 1;
    }
    assert(a@ =~= b@);
    true
}

/// Equality up to ASCII case (`str::eq_ignore_ascii_case`).
pub fn eq_ignore_ascii_case(a: &str, b: &str) -> (r: bool)
    ensures
        r == eq_ignore_ascii_case_spec(a@, b@),
{
    let n = a.unicode_len();
    if n != b.unicode_len() {
        return false;
    }
    let mut i: usize = 0;
    while i < n
        invariant
            n == a@.len(),
            n == b@.len(),
            i <= n,
            forall|j: int| 0 <= j < i ==> ascii_lower(#[trigger] a@[j]) == ascii_lower(b@[j]),
        decreases n - i,
    {
        if lower(a.get_char(i)) != lower(b.get_char(i)) {
            return false;
        }
        i = i + 1;
    }
    true
}

pub(crate) fn trimmed_space(c: char) -> (r: bool)
    ensures
        r == is_trimmed_space(c),
{
    c == ' ' || c == '\t' || c == '\n' || c == '\r' || c == '\u{0B}' || c == '\u{0C}' || c
        == '\u{85}' || c == '\u{A0}' || c == '\u{1680}' || ('\u{2000}' <= c && c <= '\u{200A}')
        || c == '\u{2028}' || c == '\u{2029}' || c == '\u{202F}' || c == '\u{205F}' || c
        == '\u{3000}'
}

/// True when `s.trim()` is empty.
pub fn blank(s: &str) -> (r: bool)
    ensures
        r == is_blank(s@),
{
    let n = s.unicode_len();
    let mut i: usize = 0;
    while i < n
        invariant
            n == s@.len(),
            i <= n,
            forall|j: int| 0 <= j < i ==> is_trimmed_space(#[trigger] s@[j]),
        decreases n - i,
    {
        if !trimmed_space(s.get_char(i)) {
            return false;
        }
        i = i + 1;
    }
    true
}

/// `a` is where `str::trim` starts: everything before is white space, and
/// `a` is the end or a character that is not.
pub open spec fn is_trim_start(s: Seq<char>, a: int) -> bool {
    &&& 0 <= a <= s.len()
    &&& forall|i: int| 0 <= i < a ==> is_trimmed_space(#[trigger] s[i])
    &&& (a == s.len() || !is_trimmed_space(s[a]))
}

/// `b` is where `str::trim` ends, given that it starts at `a`.
pub open spec fn is_trim_end(s: Seq<char>, a: int, b: int) -> bool {
    &&& a <= b <= s.len()
    &&& forall|i: int| b <= i < s.len() ==> is_trimmed_space(#[trigger] s[i])
    &&& (b == a || !is_trimmed_space(s[b - 1]))
}

/// `s` without leading and trailing white space, as `str::trim` gives it.
pub open spec fn spec_trim(s: Seq<char>) -> Seq<char> {
    let a = choose|a: int| is_trim_start(s, a);
    let b = choose|b: int| is_trim_end(s, a, b);
    s.subrange(a, b)
}

proof fn lemma_trim_bounds(s: Seq<char>, a: int, b: int)
    requires
        is_trim_start(s, a),
        is_trim_end(s, a, b),
    ensures
        spec_trim(s) == s.subrange(a, b),
{
    let ca = choose|x: int| is_trim_start(s, x);
    assert(is_trim_start(s, ca));
    if ca < a {
        assert(is_trimmed_space(s[ca]));
    } else if ca > a {
        assert(is_trimmed_space(s[a]));
    }
    let cb = choose|y: int| is_trim_end(s, a, y);
    assert(is_trim_end(s, a, cb));
    if cb < b {
        assert(is_trimmed_space(s[b - 1]));
    } else if cb > b {
        assert(is_trimmed_space(s[cb - 1]));
    }
}

/// `str::trim`.
pub fn trimmed(s: &str) -> (r: &str)
    ensures
        r@ == spec_trim(s@),
{
    let n = s.unicode_len();
    let mut a: usize = 0;
    while a < n && trimmed_space(s.get_char(a))
        invariant
            n == s@.len(),
            a <= n,
            forall|i: int| 0 <= i < a ==> is_trimmed_space(#[trigger] s@[i]),
        decreases n - a,
    {
        a = a + 1;
    }
    let mut b: usize = n;
    while b > a && trimmed_space(s.get_char(b - 1))
        invariant
            n == s@.len(),
            a <= b <= n,
            forall|i: int| b <= i < n ==> is_trimmed_space(#[trigger] s@[i]),
        decreases b - a,
    {
        b = b - 1;
    }
    proof {
        lemma_trim_bounds(s@, a as int, b as int);
    }
    s.substring_char(a, b)
}

/// The character of decimal digit `d`.
pub open spec fn digit_char(d: nat) -> char {
    if d == 0 {
        '0'
    } else if d == 1 {
        '1'
    } else if d == 2 {
        '2'
    } else if d == 3 {
        '3'
    } else if d == 4 {
        '4'
    } else if d == 5 {
        '5'
    } else if d == 6 {
        '6'
    } else if d == 7 {
        '7'
    } else if d == 8 {
        '8'
    } else {
        '9'
    }
}

/// `n` written in decimal, without leading zeros.
pub open spec fn decimal(n: nat) -> Seq<char>
    decreases n,
{
    if n < 10 {
        seq![digit_char(n)]
    } else {
        decimal(n / 10).push(digit_char(n % 10))
    }
}

pub proof fn lemma_decimal_chars(n: nat)
    ensures
        decimal(n).len() >= 1,
        forall|i: int|
            0 <= i < decimal(n).len() ==> '0' <= #[trigger] decimal(n)[i] <= '9',
    decreases n,
{
    if n >= 10 {
        lemma_decimal_chars(n / 10);
    }
}

pub proof fn lemma_decimal_injective(a: nat, b: nat)
    requires
        decimal(a) == decimal(b),
    ensures
        a == b,
    decreases a,
{
    lemma_decimal_chars(a);
    lemma_decimal_chars(b);
    if a < 10 && b < 10 {
        assert(decimal(a)[0] == digit_char(a));
        assert(decimal(b)[0] == digit_char(b));
    } else if a < 10 {
        lemma_decimal_chars(b / 10);
        assert(decimal(b).len() >= 2);
    } else if b < 10 {
        lemma_decimal_chars(a / 10);
        assert(decimal(a).len() >= 2);
    } else {
        let da = decimal(a);
        assert(da.last() == digit_char(a % 10));
        assert(decimal(b).last() == digit_char(b % 10));
        assert(a % 10 == b % 10);
        assert(da.drop_last() =~= decimal(a / 10));
        assert(decimal(b).drop_last() =~= decimal(b / 10));
        lemma_decimal_injective(a / 10, b / 10);
    }
}

/// `String::push`: appends `c` to `s`.
#[verifier::external_body]
pub(crate) fn push_char(s: &mut String, c: char)
    ensures
        final(s)@ == old(s)@.push(c),
{
    s.push(c);
}

fn digit(d: u128) -> (c: char)
    requires
        d < 10,
    ensures
        c == digit_char(d as nat),
{
    match d {
        0 => '0',
        1 => '1',
        2 => '2',
        3 => '3',
        4 => '4',
        5 => '5',
        6 => '6',
        7 => '7',
        8 => '8',
        _ => '9',
    }
}

pub(crate) fn push_decimal(s: &mut String, n: u128)
    ensures
        final(s)@ == old(s)@ + decimal(n as nat),
    decreases n,
{
    if n >= 10 {
        push_decimal(s, n / 10);
    }
    push_char(s, digit(n % 10));
    assert(s@ =~= old(s)@ + decimal(n as nat));
}

/// Pigeonhole: when `count` candidates, pairwise distinct, each occur in
/// `names`, then `names` has at least `count` entries.
pub proof fn lemma_distinct_candidates_fit(
    names: Seq<Seq<char>>,
    cand: spec_fn(nat) -> Seq<char>,
    count: nat,
)
    requires
        forall|a: nat, b: nat| a < count && b < count && #[trigger] cand(a) == #[trigger] cand(b) ==> a == b,
        forall|m: nat| m < count ==> names.contains(#[trigger] cand(m)),
    ensures
        count <= names.len(),
{
    let dom = vstd::set_lib::set_int_range(0, count as int);
    let f = |m: int| names.index_of(cand(m as nat));
    assert forall|a: int, b: int| dom.contains(a) && dom.contains(b) && #[trigger] f(a) == #[trigger] f(b)
        implies a == b by {
        assert(names.contains(cand(a as nat)));
        assert(names.contains(cand(b as nat)));
        assert(cand(a as nat) == cand(b as nat));
    }
    let img = dom.map(f);
    let range = vstd::set_lib::set_int_range(0, names.len() as int);
    vstd::set_lib::lemma_int_range(0, count as int);
    vstd::set_lib::lemma_int_range(0, names.len() as int);
    vstd::set_lib::lemma_map_size(dom, img, f);
    assert forall|i: int| img.contains(i) implies range.contains(i) by {
        let m = choose|m: int| dom.contains(m) && f(m) == i;
        assert(names.contains(cand(m as nat)));
    }
    vstd::set_lib::lemma_len_subset(img, range);
}

} // verus!

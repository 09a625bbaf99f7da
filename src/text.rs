use vstd::prelude::*;

verus! {

/// The Unicode `White_Space` characters: the ASCII tab, line feed, vertical tab, form
/// feed, carriage return and space, next line, no-break space, the ogham space mark, the
/// spaces from en quad to hair space, the line and paragraph separators, the narrow
/// no-break space, the medium mathematical space and the ideographic space.
pub open spec fn is_space(c: char) -> bool {
    let n = c as u32;
    (9 <= n && n <= 13) || n == 32 || n == 0x85 || n == 0xa0 || n == 0x1680 || (0x2000 <= n
        && n <= 0x200a) || n == 0x2028 || n == 0x2029 || n == 0x202f || n == 0x205f || n
        == 0x3000
}

/// The first index at or after `i` and below `hi` whose character is not white space
/// (`hi` if there is none).
pub open spec fn skip_space(s: Seq<char>, i: int, hi: int) -> int
    decreases hi - i,
{
    if 0 <= i && i < hi && i < s.len() && is_space(s[i]) {
        skip_space(s, i + 1, hi)
    } else {
        i
    }
}

/// Where the run of white space that ends at `e` starts, going no lower than `lo`.
pub open spec fn trail_start(s: Seq<char>, lo: int, e: int) -> int
    decreases e - lo,
{
    if lo < e && 0 < e && e <= s.len() && is_space(s[e - 1]) {
        trail_start(s, lo, e - 1)
    } else {
        e
    }
}

/// The characters of `s` in `lo..hi` with white space at both ends removed.
pub open spec fn trimmed(s: Seq<char>, lo: int, hi: int) -> Seq<char> {
    let a = skip_space(s, lo, hi);
    s.subrange(a, trail_start(s, a, hi))
}

/// The first index at or after `i` and below `hi` that holds `c` (`hi` if none does).
pub open spec fn find_char(s: Seq<char>, c: char, i: int, hi: int) -> int
    decreases hi - i,
{
    if 0 <= i && i < hi && i < s.len() && s[i] != c {
        find_char(s, c, i + 1, hi)
    } else {
        i
    }
}

pub fn is_space_char(c: char) -> (r: bool)
    ensures
        r == is_space(c),
{
    let n = c as u32;
    (9 <= n && n <= 13) || n == 32 || n == 0x85 || n == 0xa0 || n == 0x1680 || (0x2000 <= n
        && n <= 0x200a) || n == 0x2028 || n == 0x2029 || n == 0x202f || n == 0x205f || n
        == 0x3000
}

/// Relies on `str::chars`: the characters of the text, in order.
#[verifier::external_body]
pub(crate) fn chars_of(s: &str) -> (r: Vec<char>)
    ensures
        r@ == s@,
{
    s.chars().collect()
}

/// Relies on `String`'s `FromIterator<char>`: a string of the characters `v[lo..hi]`.
#[verifier::external_body]
pub(crate) fn string_of(v: &Vec<char>, lo: usize, hi: usize) -> (r: String)
    requires
        lo <= hi <= v@.len(),
    ensures
        r@ == v@.subrange(lo as int, hi as int),
{
    v[lo..hi].iter().collect()
}

pub fn skip_space_exec(v: &Vec<char>, i: usize, hi: usize) -> (r: usize)
    requires
        i <= hi <= v@.len(),
    ensures
        r == skip_space(v@, i as int, hi as int),
        i <= r <= hi,
{
    let mut k = i;
    while k < hi && is_space_char(v[k])
        invariant
            i <= k <= hi <= v@.len(),
            skip_space(v@, k as int, hi as int) == skip_space(v@, i as int, hi as int),
        decreases hi - k,
    {
        k = k + 1;
    }
    k
}

pub fn trail_start_exec(v: &Vec<char>, lo: usize, e: usize) -> (r: usize)
    requires
        lo <= e <= v@.len(),
    ensures
        r == trail_start(v@, lo as int, e as int),
        lo <= r <= e,
{
    let mut k = e;
    while lo < k && is_space_char(v[k - 1])
        invariant
            lo <= k <= e <= v@.len(),
            trail_start(v@, lo as int, k as int) == trail_start(v@, lo as int, e as int),
        decreases k,
    {
        k = k - 1;
    }
    k
}

pub fn find_char_exec(v: &Vec<char>, c: char, i: usize, hi: usize) -> (r: usize)
    requires
        i <= hi <= v@.len(),
    ensures
        r == find_char(v@, c, i as int, hi as int),
        i <= r <= hi,
        forall|k: int| i <= k < r ==> v@[k] != c,
        r < hi ==> v@[r as int] == c,
{
    let mut k = i;
    while k < hi && v[k] != c
        invariant
            i <= k <= hi <= v@.len(),
            find_char(v@, c, k as int, hi as int) == find_char(v@, c, i as int, hi as int),
            forall|j: int| i <= j < k ==> v@[j] != c,
        decreases hi - k,
    {
        k = k + 1;
    }
    k
}

/// The characters `lo..hi` of `v` with surrounding white space removed.
pub fn trimmed_string(v: &Vec<char>, lo: usize, hi: usize) -> (r: String)
    requires
        lo <= hi <= v@.len(),
    ensures
        r@ == trimmed(v@, lo as int, hi as int),
{
    let a = skip_space_exec(v, lo, hi);
    let b = trail_start_exec(v, a, hi);
    string_of(v, a, b)
}

} // verus!

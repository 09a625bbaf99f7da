use vstd::prelude::*;
use crate::metadata::Metadata;
use crate::text::{
    chars_of, find_char, find_char_exec, is_space, skip_space, string_of, trail_start, trimmed,
    trimmed_string,
};

verus! {

/// Whether `s` holds the delimiter `---` at index `i`.
pub open spec fn dashes_at(s: Seq<char>, i: int) -> bool {
    0 <= i && i + 3 <= s.len() && s[i] == '-' && s[i + 1] == '-' && s[i + 2] == '-'
}

/// Whether a delimiter line starts at index `i`: the line holds `---` and nothing else.
/// Lines end at a line feed.
pub open spec fn closes_at(s: Seq<char>, i: int) -> bool {
    &&& 1 <= i && s[i - 1] == '\n'
    &&& dashes_at(s, i)
    &&& (i + 3 == s.len() || s[i + 3] == '\n')
}

/// Whether the first line of `s` is the delimiter `---`, ended by a line feed.
pub open spec fn opens(s: Seq<char>) -> bool {
    dashes_at(s, 0) && s.len() >= 4 && s[3] == '\n'
}

/// The first index at or after `i` where a delimiter line starts (`s.len()` if none does).
pub open spec fn find_close(s: Seq<char>, i: int) -> int
    decreases s.len() - i,
{
    if 0 <= i && i + 3 <= s.len() {
        if closes_at(s, i) {
            i
        } else {
            find_close(s, i + 1)
        }
    } else {
        s.len() as int
    }
}

/// Where the front matter of a document lies, if it has one: `(a, e, end)`, where the
/// metadata block is `s[a..e]` and the body starts at `end`.
///
/// A document has front matter when its first line is `---` and a later line is `---`
/// too. The block is the lines between the two delimiter lines; the body is all that
/// follows the closing `---`. A document whose opening delimiter is never closed has no
/// front matter at all.
pub open spec fn front_matter(s: Seq<char>) -> Option<(int, int, int)> {
    if opens(s) {
        let q = find_close(s, 4);
        if q + 3 <= s.len() {
            Some((4, if q > 4 { q - 1 } else { 4 }, q + 3))
        } else {
            None
        }
    } else {
        None
    }
}

/// The key and value of the line `s[p..n]`: the text on either side of its first
/// colon, trimmed. A line without a colon has none.
pub open spec fn line_entry(s: Seq<char>, p: int, n: int) -> Option<(Seq<char>, Seq<char>)> {
    let c = find_char(s, ':', p, n);
    if c < n {
        Some((trimmed(s, p, c), trimmed(s, c + 1, n)))
    } else {
        None
    }
}

/// `m` with the entries of the lines of `s` from index `p` on inserted, in order.
pub open spec fn meta_from(
    s: Seq<char>,
    p: int,
    m: Map<Seq<char>, Seq<char>>,
) -> Map<Seq<char>, Seq<char>>
    decreases s.len() - p,
{
    let n = find_char(s, '\n', p, s.len() as int);
    let m2 = match line_entry(s, p, n) {
        Some((k, v)) => m.insert(k, v),
        None => m,
    };
    if p <= n && n < s.len() {
        meta_from(s, n + 1, m2)
    } else {
        m2
    }
}

/// The metadata that a block holds: each of its lines with a colon, split at the first
/// colon into a trimmed key and a trimmed value; a later line with the same key wins.
pub open spec fn metadata_of(block: Seq<char>) -> Map<Seq<char>, Seq<char>> {
    meta_from(block, 0, Map::empty())
}

fn find_close_exec(v: &Vec<char>, i: usize) -> (r: usize)
    requires
        1 <= i <= v@.len(),
    ensures
        r == find_close(v@, i as int),
        i <= r <= v@.len(),
{
    let len = v.len();
    let mut k = i;
    while len >= 3 && k <= len - 3 && !(v[k - 1] == '\n' && v[k] == '-' && v[k + 1] == '-' && v[k
        + 2] == '-' && (k + 3 == len || v[k + 3] == '\n'))
        invariant
            1 <= i <= k <= len,
            len == v@.len(),
            find_close(v@, k as int) == find_close(v@, i as int),
        decreases len - k,
    {
        k = k + 1;
    }
    if len >= 3 && k <= len - 3 {
        k
    } else {
        len
    }
}

fn copy_range(v: &Vec<char>, lo: usize, hi: usize) -> (r: Vec<char>)
    requires
        lo <= hi <= v@.len(),
    ensures
        r@ == v@.subrange(lo as int, hi as int),
{
    let mut r: Vec<char> = Vec::new();
    let mut k = lo;
    while k < hi
        invariant
            lo <= k <= hi <= v@.len(),
            r@ == v@.subrange(lo as int, k as int),
        decreases hi - k,
    {
        r.push(v[k]);
        proof {
            assert(r@ =~= v@.subrange(lo as int, k + 1));
        }
        k = k + 1;
    }
    r
}

/// Reads the metadata lines of a front-matter block.
pub fn parse_block(block: &Vec<char>) -> (r: Metadata)
    ensures
        r@ == metadata_of(block@),
{
    let mut md = Metadata::new();
    let len = block.len();
    let mut p: usize = 0;
    loop
        invariant
            p <= len,
            len == block@.len(),
            meta_from(block@, p as int, md@) == metadata_of(block@),
        decreases len - p,
    {
        let n = find_char_exec(block, '\n', p, len);
        let c = find_char_exec(block, ':', p, n);
        if c < n {
            let k = trimmed_string(block, p, c);
            let v = trimmed_string(block, c + 1, n);
            md.insert(k, v);
        }
        if n == len {
            return md;
        }
        p = n + 1;
    }
}

/// Splits a document into its front-matter metadata and the text that follows it.
/// A document without front matter comes back unchanged, with no metadata.
pub fn extract_metadata_and_remove_front_matter(markdown: &str) -> (r: (Option<Metadata>, String))
    ensures
        match front_matter(markdown@) {
            Some((a, e, end)) => {
                &&& r.0 matches Some(m)
                &&& m@ == metadata_of(markdown@.subrange(a, e))
                &&& r.1@ == markdown@.subrange(end, markdown@.len() as int)
            },
            None => r.0 is None && r.1@ == markdown@,
        },
{
    let v = chars_of(markdown);
    let len = v.len();
    if len >= 4 && v[0] == '-' && v[1] == '-' && v[2] == '-' && v[3] == '\n' {
        let q = find_close_exec(&v, 4);
        if q <= len - 3 {
            let e = if q > 4 {
                q - 1
            } else {
                4
            };
            let block = copy_range(&v, 4, e);
            let md = parse_block(&block);
            let body = string_of(&v, q + 3, len);
            return (Some(md), body);
        }
    }
    (None, markdown.to_owned())
}


proof fn lemma_find_close_at(s: Seq<char>, i: int, q: int)
    requires
        0 <= i <= q,
        closes_at(s, q),
        forall|k: int| i <= k < q ==> !closes_at(s, k),
    ensures
        find_close(s, i) == q,
    decreases q - i,
{
    if i < q {
        lemma_find_close_at(s, i + 1, q);
    }
}

proof fn lemma_find_close_none(s: Seq<char>, i: int)
    requires
        0 <= i,
        forall|k: int| i <= k ==> !closes_at(s, k),
    ensures
        find_close(s, i) == s.len(),
    decreases s.len() - i,
{
    if i + 3 <= s.len() {
        lemma_find_close_none(s, i + 1);
    }
}

/// A document whose first line is not `---`, or whose opening `---` line is never
/// followed by another `---` line, has no front matter: it is extracted as itself, with
/// no metadata.
pub proof fn lemma_no_front_matter(s: Seq<char>)
    requires
        !opens(s) || forall|i: int| 4 <= i ==> !closes_at(s, i),
    ensures
        front_matter(s) is None,
{
    if opens(s) {
        lemma_find_close_none(s, 4);
    }
}

/// Metadata lines put back between the delimiter lines, ahead of a body, are read back as
/// the same block and the same body, and so as the same metadata: the document is `---`,
/// a line feed, the lines, a line feed, `---`, the body. The lines hold no `---`, and the
/// body is empty or starts a new line.
pub proof fn lemma_front_matter_round_trip(lines: Seq<char>, body: Seq<char>)
    requires
        forall|i: int| !dashes_at(lines, i),
        body.len() == 0 || body[0] == '\n',
    ensures
        ({
            let doc = seq!['-', '-', '-', '\n'] + lines + seq!['\n', '-', '-', '-'] + body;
            front_matter(doc) matches Some((a, e, end)) && doc.subrange(a, e) == lines
                && doc.subrange(end, doc.len() as int) == body
                && metadata_of(doc.subrange(a, e)) == metadata_of(lines)
        }),
{
    let doc = seq!['-', '-', '-', '\n'] + lines + seq!['\n', '-', '-', '-'] + body;
    let n = lines.len() as int;
    let q = 5 + n;
    assert(doc[3] == '\n');
    assert(doc[4 + n] == '\n');
    assert(forall|k: int| 0 <= k < n ==> doc[4 + k] == lines[k]);
    assert(forall|k: int| 0 <= k < body.len() ==> doc[8 + n + k] == body[k]);
    assert(opens(doc));
    assert(closes_at(doc, q));
    assert forall|k: int| 4 <= k < q implies !closes_at(doc, k) by {
        if k + 2 < 4 + n {
            assert(!dashes_at(lines, k - 4));
            assert(doc[k] == lines[k - 4] && doc[k + 1] == lines[k - 3] && doc[k + 2] == lines[k
                - 2]);
        } else if k + 1 < 4 + n {
            assert(doc[k + 2] == '\n');
        } else if k < 4 + n {
            assert(doc[k + 1] == '\n');
        } else {
            assert(doc[k] == '\n');
        }
    }
    lemma_find_close_at(doc, 4, q);
    assert(doc.subrange(4, 4 + n) =~= lines);
    assert(doc.subrange(q + 3, doc.len() as int) =~= body);
}

/// `m` with the entry of the line `b` added, if it has one.
pub open spec fn with_line(m: Map<Seq<char>, Seq<char>>, b: Seq<char>) -> Map<Seq<char>, Seq<char>> {
    match line_entry(b, 0, b.len() as int) {
        Some((k, v)) => m.insert(k, v),
        None => m,
    }
}

proof fn lemma_find_char_bounds(s: Seq<char>, c: char, i: int, hi: int)
    requires
        0 <= i <= hi <= s.len(),
    ensures
        i <= find_char(s, c, i, hi) <= hi,
        find_char(s, c, i, hi) < hi ==> s[find_char(s, c, i, hi)] == c,
    decreases hi - i,
{
    if i < hi && s[i] != c {
        lemma_find_char_bounds(s, c, i + 1, hi);
    }
}

proof fn lemma_find_char_absent(s: Seq<char>, c: char, i: int, hi: int)
    requires
        0 <= i <= hi <= s.len(),
        forall|k: int| i <= k < hi ==> s[k] != c,
    ensures
        find_char(s, c, i, hi) == hi,
    decreases hi - i,
{
    if i < hi {
        lemma_find_char_absent(s, c, i + 1, hi);
    }
}

proof fn lemma_find_char_extend(s: Seq<char>, c: char, i: int, hi: int, hi2: int)
    requires
        0 <= i <= hi <= hi2 <= s.len(),
        find_char(s, c, i, hi) < hi || (hi < hi2 && s[hi] == c),
    ensures
        find_char(s, c, i, hi2) == find_char(s, c, i, hi),
    decreases hi - i,
{
    if i < hi && s[i] != c {
        lemma_find_char_extend(s, c, i + 1, hi, hi2);
    }
}

proof fn lemma_find_char_shift(s1: Seq<char>, s2: Seq<char>, d: int, c: char, i: int, hi: int)
    requires
        0 <= i <= hi <= s1.len(),
        0 <= d,
        hi + d <= s2.len(),
        forall|k: int| i <= k < hi ==> s2[k + d] == s1[k],
    ensures
        find_char(s2, c, i + d, hi + d) == find_char(s1, c, i, hi) + d,
    decreases hi - i,
{
    if i < hi {
        lemma_find_char_shift(s1, s2, d, c, i + 1, hi);
    }
}

proof fn lemma_skip_space_shift(s1: Seq<char>, s2: Seq<char>, d: int, i: int, hi: int)
    requires
        0 <= i <= hi <= s1.len(),
        0 <= d,
        hi + d <= s2.len(),
        forall|k: int| i <= k < hi ==> s2[k + d] == s1[k],
    ensures
        skip_space(s2, i + d, hi + d) == skip_space(s1, i, hi) + d,
        i <= skip_space(s1, i, hi) <= hi,
    decreases hi - i,
{
    if i < hi {
        lemma_skip_space_shift(s1, s2, d, i + 1, hi);
    }
}

proof fn lemma_trail_start_shift(s1: Seq<char>, s2: Seq<char>, d: int, lo: int, e: int)
    requires
        0 <= lo <= e <= s1.len(),
        0 <= d,
        e + d <= s2.len(),
        forall|k: int| lo <= k < e ==> s2[k + d] == s1[k],
    ensures
        trail_start(s2, lo + d, e + d) == trail_start(s1, lo, e) + d,
        lo <= trail_start(s1, lo, e) <= e,
    decreases e - lo,
{
    if lo < e {
        lemma_trail_start_shift(s1, s2, d, lo, e - 1);
    }
}

proof fn lemma_trimmed_shift(s1: Seq<char>, s2: Seq<char>, d: int, lo: int, hi: int)
    requires
        0 <= lo <= hi <= s1.len(),
        0 <= d,
        hi + d <= s2.len(),
        forall|k: int| lo <= k < hi ==> s2[k + d] == s1[k],
    ensures
        trimmed(s2, lo + d, hi + d) == trimmed(s1, lo, hi),
{
    lemma_skip_space_shift(s1, s2, d, lo, hi);
    let a = skip_space(s1, lo, hi);
    lemma_trail_start_shift(s1, s2, d, a, hi);
    let b = trail_start(s1, a, hi);
    assert(s2.subrange(a + d, b + d) =~= s1.subrange(a, b));
}

proof fn lemma_line_entry_shift(s1: Seq<char>, s2: Seq<char>, d: int, p: int, n: int)
    requires
        0 <= p <= n <= s1.len(),
        0 <= d,
        n + d <= s2.len(),
        forall|k: int| p <= k < n ==> s2[k + d] == s1[k],
    ensures
        line_entry(s2, p + d, n + d) == line_entry(s1, p, n),
{
    lemma_find_char_shift(s1, s2, d, ':', p, n);
    lemma_find_char_bounds(s1, ':', p, n);
    let c = find_char(s1, ':', p, n);
    if c < n {
        lemma_trimmed_shift(s1, s2, d, p, c);
        lemma_trimmed_shift(s1, s2, d, c + 1, n);
    }
}

proof fn lemma_meta_from_append(a: Seq<char>, b: Seq<char>, p: int, m: Map<Seq<char>, Seq<char>>)
    requires
        0 <= p <= a.len(),
        forall|k: int| 0 <= k < b.len() ==> b[k] != '\n',
    ensures
        meta_from(a + seq!['\n'] + b, p, m) == with_line(meta_from(a, p, m), b),
    decreases a.len() - p,
{
    let s = a + seq!['\n'] + b;
    let la = a.len() as int;
    assert(forall|k: int| 0 <= k < la ==> s[k] == a[k]);
    assert(s[la] == '\n');
    assert(forall|k: int| 0 <= k < b.len() ==> s[k + la + 1] == b[k]);
    lemma_find_char_shift(a, s, 0, '\n', p, la);
    lemma_find_char_bounds(a, '\n', p, la);
    let n = find_char(a, '\n', p, la);
    lemma_find_char_extend(s, '\n', p, la, s.len() as int);
    lemma_line_entry_shift(a, s, 0, p, n);
    let m2 = match line_entry(a, p, n) {
        Some((k, v)) => m.insert(k, v),
        None => m,
    };
    if n < la {
        lemma_meta_from_append(a, b, n + 1, m2);
    } else {
        lemma_find_char_absent(b, '\n', 0, b.len() as int);
        lemma_find_char_shift(b, s, la + 1, '\n', 0, b.len() as int);
        lemma_line_entry_shift(b, s, la + 1, 0, b.len() as int);
        assert(meta_from(s, la + 1, m2) == with_line(m2, b));
    }
}

/// The metadata of a block is read line by line: a line added at the end of a block adds
/// its key and value (the text on either side of its first colon, trimmed), replacing
/// an earlier value of that key; a line without a colon adds nothing.
pub proof fn lemma_metadata_of_added_line(block: Seq<char>, line: Seq<char>)
    requires
        forall|k: int| 0 <= k < line.len() ==> line[k] != '\n',
    ensures
        metadata_of(block + seq!['\n'] + line) == with_line(metadata_of(block), line),
{
    lemma_meta_from_append(block, line, 0, Map::empty());
}

/// A block of one line holds that line's key and value, if it has a colon, and nothing
/// else.
pub proof fn lemma_metadata_of_one_line(line: Seq<char>)
    requires
        forall|k: int| 0 <= k < line.len() ==> line[k] != '\n',
    ensures
        metadata_of(line) == with_line(Map::empty(), line),
{
    lemma_find_char_absent(line, '\n', 0, line.len() as int);
}

/// The line `key: value`.
pub open spec fn entry_line(k: Seq<char>, v: Seq<char>) -> Seq<char> {
    k + seq![':', ' '] + v
}

/// The lines `key: value` of `pairs`, in order, one line feed between two.
pub open spec fn entry_lines(pairs: Seq<(Seq<char>, Seq<char>)>) -> Seq<char>
    decreases pairs.len(),
{
    if pairs.len() == 0 {
        Seq::empty()
    } else if pairs.len() == 1 {
        entry_line(pairs[0].0, pairs[0].1)
    } else {
        entry_lines(pairs.drop_last()) + seq!['\n'] + entry_line(pairs.last().0, pairs.last().1)
    }
}

/// The mapping that inserting `pairs` in order gives, a later key overwriting an earlier.
pub open spec fn map_of_pairs(pairs: Seq<(Seq<char>, Seq<char>)>) -> Map<Seq<char>, Seq<char>>
    decreases pairs.len(),
{
    if pairs.len() == 0 {
        Map::empty()
    } else {
        map_of_pairs(pairs.drop_last()).insert(pairs.last().0, pairs.last().1)
    }
}

/// Whether `t` can stand as a key or value of a line `key: value` and be read back as
/// itself: no line feed, no white space at either end, and (for a key) no colon.
pub open spec fn plain_text(t: Seq<char>, key: bool) -> bool {
    &&& forall|i: int| 0 <= i < t.len() ==> t[i] != '\n' && (key ==> t[i] != ':')
    &&& t.len() > 0 ==> !is_space(t[0]) && !is_space(t.last())
}

proof fn lemma_entry_line(k: Seq<char>, v: Seq<char>)
    requires
        plain_text(k, true),
        plain_text(v, false),
    ensures
        line_entry(entry_line(k, v), 0, entry_line(k, v).len() as int) == Some((k, v)),
        forall|i: int| 0 <= i < entry_line(k, v).len() ==> entry_line(k, v)[i] != '\n',
{
    let s = entry_line(k, v);
    let lk = k.len() as int;
    let n = s.len() as int;
    assert(forall|i: int| 0 <= i < lk ==> s[i] == k[i]);
    assert(s[lk] == ':' && s[lk + 1] == ' ');
    assert(forall|i: int| 0 <= i < v.len() ==> s[lk + 2 + i] == v[i]);
    lemma_find_char_absent(s, ':', 0, lk);
    lemma_find_char_extend(s, ':', 0, lk, n);
    if lk > 0 {
        assert(s[0] == k[0] && s[lk - 1] == k.last());
    }
    assert(skip_space(s, 0, lk) == 0);
    assert(trail_start(s, 0, lk) == lk);
    assert(s.subrange(0, lk) =~= k);
    assert(is_space(s[lk + 1]));
    if v.len() > 0 {
        assert(s[lk + 2] == v[0] && s[n - 1] == v.last());
    }
    assert(skip_space(s, lk + 2, n) == lk + 2);
    assert(skip_space(s, lk + 1, n) == lk + 2);
    assert(trail_start(s, lk + 2, n) == n);
    assert(s.subrange(lk + 2, n) =~= v);
}

/// Key/value pairs written as lines `key: value` are read back as the mapping that
/// inserting them in order gives, where keys and values hold no line feed and no white
/// space at either end, and keys no colon.
pub proof fn lemma_metadata_of_entry_lines(pairs: Seq<(Seq<char>, Seq<char>)>)
    requires
        forall|i: int| 0 <= i < pairs.len() ==> plain_text(#[trigger] pairs[i].0, true) && plain_text(pairs[i].1, false),
    ensures
        metadata_of(entry_lines(pairs)) == map_of_pairs(pairs),
    decreases pairs.len(),
{
    if pairs.len() == 0 {
        lemma_metadata_of_one_line(Seq::empty());
        assert(metadata_of(Seq::empty()) =~= Map::empty());
    } else {
        let k = pairs.last().0;
        let v = pairs.last().1;
        assert(plain_text(pairs[pairs.len() - 1].0, true));
        lemma_entry_line(k, v);
        if pairs.len() == 1 {
            lemma_metadata_of_one_line(entry_line(k, v));
            assert(pairs.drop_last() =~= Seq::<(Seq<char>, Seq<char>)>::empty());
            assert(map_of_pairs(pairs.drop_last()) =~= Map::empty());
            assert(entry_lines(pairs) == entry_line(k, v));
        } else {
            let rest = pairs.drop_last();
            assert forall|i: int| 0 <= i < rest.len() implies plain_text(#[trigger] rest[i].0, true)
                && plain_text(rest[i].1, false) by {
                assert(rest[i] == pairs[i]);
                assert(plain_text(pairs[i].0, true));
            }
            lemma_metadata_of_entry_lines(rest);
            lemma_metadata_of_added_line(entry_lines(pairs.drop_last()), entry_line(k, v));
        }
    }
}

/// Metadata written as a front-matter block ahead of a body is read back exactly: the
/// document `---`, a line feed, the lines `key: value` of `pairs`, a line feed, `---`,
/// the body, has the metadata that inserting `pairs` in order gives, and that body.
/// Keys and values hold no line feed and no white space at either end, keys no colon,
/// the lines no `---`; the body is empty or starts a new line.
pub proof fn lemma_metadata_round_trip(pairs: Seq<(Seq<char>, Seq<char>)>, body: Seq<char>)
    requires
        forall|i: int| 0 <= i < pairs.len() ==> plain_text(#[trigger] pairs[i].0, true) && plain_text(pairs[i].1, false),
        forall|i: int| !dashes_at(entry_lines(pairs), i),
        body.len() == 0 || body[0] == '\n',
    ensures
        ({
            let doc = seq!['-', '-', '-', '\n'] + entry_lines(pairs) + seq!['\n', '-', '-', '-']
                + body;
            front_matter(doc) matches Some((a, e, end)) && metadata_of(doc.subrange(a, e))
                == map_of_pairs(pairs) && doc.subrange(end, doc.len() as int) == body
        }),
{
    lemma_front_matter_round_trip(entry_lines(pairs), body);
    lemma_metadata_of_entry_lines(pairs);
}

} // verus!

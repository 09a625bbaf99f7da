use vstd::prelude::*;
use crate::blog::Blog;
use crate::text::{chars_of, string_of};

verus! {

/// The text shown for a document without a `blurb`.
pub const NO_BLURB: &'static str = "No blurb available";

/// `s` with `p` taken off its front as often as it stands there.
pub open spec fn strip_prefixes(s: Seq<char>, p: Seq<char>) -> Seq<char>
    decreases s.len(),
{
    if 0 < p.len() <= s.len() && s.take(p.len() as int) == p {
        strip_prefixes(s.skip(p.len() as int), p)
    } else {
        s
    }
}

/// `s` with `p` taken off its end as often as it stands there.
pub open spec fn strip_suffixes(s: Seq<char>, p: Seq<char>) -> Seq<char>
    decreases s.len(),
{
    if 0 < p.len() <= s.len() && s.skip(s.len() - p.len()) == p {
        strip_suffixes(s.take(s.len() - p.len()), p)
    } else {
        s
    }
}

/// The link to a page: its path with the output directory taken off the front.
pub open spec fn link_of(path: Seq<char>, root: Seq<char>) -> Seq<char> {
    strip_prefixes(path, root)
}

/// The title of a page that its metadata does not name: its link without leading
/// slashes and without the `.html` extension.
pub open spec fn title_from_path(path: Seq<char>, root: Seq<char>) -> Seq<char> {
    strip_suffixes(strip_prefixes(link_of(path, root), "/"@), ".html"@)
}

/// The value of `key` in `md`, or `d` where it has none.
pub open spec fn value_or(md: Map<Seq<char>, Seq<char>>, key: Seq<char>, d: Seq<char>) -> Seq<
    char,
> {
    if md.contains_key(key) {
        md[key]
    } else {
        d
    }
}

/// One line of the index: the date shown, the link, the title and the blurb.
pub struct Listing {
    pub date: String,
    pub link: String,
    pub title: String,
    pub blurb: String,
}

/// Whether a document has metadata with a `date` in it.
pub open spec fn has_date(b: Blog) -> bool {
    b.md_metadata matches Some(m) && m@.contains_key("date"@)
}

/// Whether `l` is the index line of document `b`, whose page lies under `root`.
pub open spec fn lists(l: Listing, b: Blog, root: Seq<char>) -> bool {
    let md = b.md_metadata.unwrap()@;
    &&& l.date@ == md["date"@]
    &&& l.link@ == link_of(b.html_file@, root)
    &&& l.title@ == value_or(md, "title"@, title_from_path(b.html_file@, root))
    &&& l.blurb@ == value_or(md, "blurb"@, NO_BLURB@)
}

pub(crate) fn matches_at(v: &Vec<char>, i: usize, p: &Vec<char>) -> (r: bool)
    requires
        i <= v@.len(),
        p@.len() <= v@.len() - i,
    ensures
        r == (v@.subrange(i as int, i + p@.len()) == p@),
{
    let n = v.len();
    let mut j: usize = 0;
    while j < p.len()
        invariant
            n == v@.len(),
            j <= p@.len(),
            i <= v@.len(),
            p@.len() <= v@.len() - i,
            forall|k: int| 0 <= k < j ==> v@[i + k] == p@[k],
        decreases p@.len() - j,
    {
        if v[i + j] != p[j] {
            proof {
                assert(v@.subrange(i as int, i + p@.len())[j as int] != p@[j as int]);
            }
            return false;
        }
        j = j + 1;
    }
    proof {
        assert(v@.subrange(i as int, i + p@.len()) =~= p@);
    }
    true
}

/// Where `v[lo..hi]` starts once `p` is taken off its front as often as it stands there.
fn strip_front(v: &Vec<char>, lo: usize, hi: usize, p: &Vec<char>) -> (r: usize)
    requires
        lo <= hi <= v@.len(),
    ensures
        lo <= r <= hi,
        v@.subrange(r as int, hi as int) == strip_prefixes(v@.subrange(lo as int, hi as int), p@),
{
    let mut k = lo;
    loop
        invariant
            lo <= k <= hi <= v@.len(),
            strip_prefixes(v@.subrange(k as int, hi as int), p@) == strip_prefixes(
                v@.subrange(lo as int, hi as int),
                p@,
            ),
        decreases hi - k,
    {
        let s = Ghost(v@.subrange(k as int, hi as int));
        if p.len() == 0 || p.len() > hi - k {
            return k;
        }
        let m = matches_at(v, k, p);
        proof {
            assert(s@.take(p@.len() as int) =~= v@.subrange(k as int, k + p@.len()));
        }
        if !m {
            return k;
        }
        proof {
            assert(s@.skip(p@.len() as int) =~= v@.subrange(k + p@.len(), hi as int));
        }
        k = k + p.len();
    }
}

/// Where `v[lo..hi]` ends once `p` is taken off its end as often as it stands there.
fn strip_back(v: &Vec<char>, lo: usize, hi: usize, p: &Vec<char>) -> (r: usize)
    requires
        lo <= hi <= v@.len(),
    ensures
        lo <= r <= hi,
        v@.subrange(lo as int, r as int) == strip_suffixes(v@.subrange(lo as int, hi as int), p@),
{
    let mut k = hi;
    loop
        invariant
            lo <= k <= hi <= v@.len(),
            strip_suffixes(v@.subrange(lo as int, k as int), p@) == strip_suffixes(
                v@.subrange(lo as int, hi as int),
                p@,
            ),
        decreases k - lo,
    {
        let s = Ghost(v@.subrange(lo as int, k as int));
        if p.len() == 0 || p.len() > k - lo {
            return k;
        }
        let m = matches_at(v, k - p.len(), p);
        proof {
            assert(s@.skip(s@.len() - p@.len()) =~= v@.subrange(k - p@.len(), k as int));
        }
        if !m {
            return k;
        }
        proof {
            assert(s@.take(s@.len() - p@.len()) =~= v@.subrange(lo as int, k - p@.len()));
        }
        k = k - p.len();
    }
}

/// The index line of document `b`, whose page was written under `output_dir`: the date
/// its metadata gives, its link, its title (from the path where the metadata names
/// none) and its blurb (a fixed text where the metadata has none).
pub fn listing_for(b: &Blog, output_dir: &str) -> (r: Listing)
    requires
        has_date(*b),
    ensures
        lists(r, *b, output_dir@),
{
    let md = match &b.md_metadata {
        Some(m) => m,
        None => {
            return Listing {
                date: String::new(),
                link: String::new(),
                title: String::new(),
                blurb: String::new(),
            };
        },
    };
    let path = chars_of(b.html_file.as_str());
    let root = chars_of(output_dir);
    let slash = chars_of("/");
    let ext = chars_of(".html");
    let len = path.len();
    let lo = strip_front(&path, 0, len, &root);
    proof {
        assert(path@.subrange(0, len as int) =~= path@);
    }
    let link = string_of(&path, lo, len);
    let date = match md.get("date") {
        Some(d) => d,
        None => String::new(),
    };
    let title = match md.get("title") {
        Some(t) => t,
        None => {
            let lo2 = strip_front(&path, lo, len, &slash);
            let hi2 = strip_back(&path, lo2, len, &ext);
            string_of(&path, lo2, hi2)
        },
    };
    let blurb = match md.get("blurb") {
        Some(t) => t,
        None => NO_BLURB.to_owned(),
    };
    Listing { date, link, title, blurb }
}

/// The index lines of the documents `blogs`, in their order.
pub fn index_listings(blogs: &Vec<Blog>, output_dir: &str) -> (r: Vec<Listing>)
    requires
        forall|i: int| 0 <= i < blogs@.len() ==> has_date(#[trigger] blogs@[i]),
    ensures
        r@.len() == blogs@.len(),
        forall|i: int| 0 <= i < r@.len() ==> lists(#[trigger] r@[i], blogs@[i], output_dir@),
{
    let mut r: Vec<Listing> = Vec::new();
    let mut i: usize = 0;
    while i < blogs.len()
        invariant
            i <= blogs@.len(),
            r@.len() == i,
            forall|i: int| 0 <= i < blogs@.len() ==> has_date(#[trigger] blogs@[i]),
            forall|j: int| 0 <= j < i ==> lists(#[trigger] r@[j], blogs@[j], output_dir@),
        decreases blogs@.len() - i,
    {
        let l = listing_for(&blogs[i], output_dir);
        r.push(l);
        i = i + 1;
    }
    r
}

} // verus!

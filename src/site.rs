use vstd::prelude::*;
use crate::blog::{well_dated, Blog, BlogIndex, Considered};
use crate::date::{date_of_text, is_calendar_date, mdy_parts, mdy_shape, Date};
use crate::front_matter::{extract_metadata_and_remove_front_matter, front_matter, metadata_of};
use crate::listing::{has_date, index_listings, lists, matches_at, Listing};
use crate::text::chars_of;
use crate::templates::{document_page, html_of_markdown, index_page, index_text, page_text};

verus! {

/// The name of the page that is published but left out of the index.
pub const ABOUT_PAGE: &'static str = "aboutme.md";

/// Whether `p` stands in `s` at index `i`.
pub open spec fn occurs_at(s: Seq<char>, p: Seq<char>, i: int) -> bool {
    0 <= i && i + p.len() <= s.len() && s.subrange(i, i + p.len()) == p
}

/// Whether the file at `path` is a source document of the blog: a Markdown file
/// (`.md`) other than the about page.
pub open spec fn is_source_path(path: Seq<char>) -> bool {
    &&& occurs_at(path, ".md"@, path.len() - 3)
    &&& !exists|i: int| occurs_at(path, ABOUT_PAGE@, i)
}

/// Whether the file at `path` is a source document of the blog: a Markdown file
/// (`.md`) other than the about page.
pub fn is_source_document(path: &str) -> (r: bool)
    ensures
        r == is_source_path(path@),
{
    let v = chars_of(path);
    let ext = chars_of(".md");
    let about = chars_of(ABOUT_PAGE);
    let len = v.len();
    proof {
        reveal_strlit(".md");
        reveal_strlit("aboutme.md");
    }
    if len < 3 || !matches_at(&v, len - 3, &ext) {
        return false;
    }
    if len < about.len() {
        assert(forall|i: int| !occurs_at(path@, ABOUT_PAGE@, i));
        return true;
    }
    let mut i: usize = 0;
    while i <= len - about.len()
        invariant
            v@ == path@,
            about@ == ABOUT_PAGE@,
            len == v@.len(),
            about@.len() <= len,
            about@.len() == 10,
            forall|k: int| 0 <= k < i ==> !occurs_at(path@, ABOUT_PAGE@, k),
        decreases len - i,
    {
        if matches_at(&v, i, &about) {
            assert(occurs_at(path@, ABOUT_PAGE@, i as int));
            return false;
        }
        i = i + 1;
    }
    assert forall|k: int| !occurs_at(path@, ABOUT_PAGE@, k) by {
        if k >= i {
            assert(k + about@.len() > len);
        }
    }
    true
}

/// Takes one source document of a rebuild: returns the page of its body, its front
/// matter removed, and offers it to `index` under the page's path `html_file`.
pub fn add_document(index: &mut BlogIndex, html_file: String, markdown: &str) -> (r: (
    String,
    Considered,
))
    requires
        old(index).wf(),
    ensures
        final(index).wf(),
        match front_matter(markdown@) {
            None => {
                &&& r.0@ == page_text(html_of_markdown(markdown@))
                &&& r.1 == Considered::NoDate
                &&& final(index)@ == old(index)@
            },
            Some((a, e, end)) => {
                let md = metadata_of(markdown@.subrange(a, e));
                &&& r.0@ == page_text(
                    html_of_markdown(markdown@.subrange(end, markdown@.len() as int)),
                )
                &&& !md.contains_key("date"@) ==> r.1 == Considered::NoDate && final(index)@
                    == old(index)@
                &&& md.contains_key("date"@) ==> match date_of_text(md["date"@]) {
                    None => r.1 == Considered::BadDate && final(index)@ == old(index)@,
                    Some((y, m, d)) => {
                        &&& r.1 == Considered::Added
                        &&& final(index)@.drop_last() == old(index)@
                        &&& final(index)@.len() == old(index)@.len() + 1
                        &&& final(index)@.last().html_file == html_file
                        &&& final(index)@.last().date_string == Date {
                            year: y as i32,
                            month: m as u32,
                            day: d as u32,
                        }
                        &&& final(index)@.last().md_metadata matches Some(mm) && mm@ == md
                    },
                }
                &&& md.contains_key("date"@) && mdy_shape(md["date"@]) && is_calendar_date(
                    mdy_parts(md["date"@]).0,
                    mdy_parts(md["date"@]).1,
                    mdy_parts(md["date"@]).2,
                ) ==> r.1 == Considered::Added
            },
        },
{
    let (md, body) = extract_metadata_and_remove_front_matter(markdown);
    let page = document_page(body.as_str());
    let outcome = index.consider(html_file, md);
    proof {
        if index@.len() == old(index)@.len() + 1 {
            assert(index@.drop_last() =~= old(index)@);
        }
    }
    (page, outcome)
}

/// The index page of documents that each have a `date` in their metadata, listed in
/// their order, whose pages were written under `output_dir`.
pub fn index_html(blogs: &Vec<Blog>, output_dir: &str) -> (r: String)
    requires
        forall|i: int| 0 <= i < blogs@.len() ==> has_date(#[trigger] blogs@[i]),
    ensures
        exists|ls: Seq<Listing>|
            {
                &&& ls.len() == blogs@.len()
                &&& forall|i: int| 0 <= i < ls.len() ==> lists(#[trigger] ls[i], blogs@[i], output_dir@)
                &&& r@ == page_text(index_text(ls))
            },
{
    let ls = index_listings(blogs, output_dir);
    index_page(&ls)
}

/// A document that the index holds has a `date` in its metadata.
pub proof fn lemma_well_dated_has_date(b: Blog)
    requires
        well_dated(b),
    ensures
        has_date(b),
{
}

} // verus!

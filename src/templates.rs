use vstd::prelude::*;
use crate::listing::Listing;

verus! {

/// The start of every page, up to its body.
pub const HEADER: &'static str = r#"<!DOCTYPE html>
<html lang="en">
  <head>
    <meta charset="utf-8">
    <meta name="viewport" content="width=device-width, initial-scale=1">
    <link rel="stylesheet" href="/static/style.css">
  </head>
"#;

/// The end of every page, after its body.
pub const FOOTER: &'static str = r#"
</html>
"#;

/// What stands before the content of a page's body.
pub const BODY_OPEN: &'static str = r#"
        <body>
          <div class="container">
            <div class="header">
                <a href="/static/aboutme.html">Maverick</a>
                Writes
            </div>
            <div class="navigation">
              <ul>
                <li>
                  <a href="/static/aboutme.html">about</a>
                </li>
                <li>
                  <a href="/">blog</a>
                </li>
              </ul>
            </div>

            <br/>

            <div class="body">
            "#;

/// What stands after the content of a page's body.
pub const BODY_CLOSE: &'static str = r#"
            </div>

        </body>"#;

/// What stands before the date of an index line.
pub const ENTRY_OPEN: &'static str = r#"
                    <div class="entry-overview">
                        <div class="date">"#;

/// What stands between the date and the link of an index line.
pub const ENTRY_LINK: &'static str = r#"</div>
                        <div class="detail">
                        <h1><a href="/blog"#;

/// What stands between the link and the title of an index line.
pub const ENTRY_TITLE: &'static str = r#"">"#;

/// What stands between the title and the blurb of an index line.
pub const ENTRY_BLURB: &'static str = r#"</a></h1>
                        <p>"#;

/// What stands after the blurb of an index line.
pub const ENTRY_CLOSE: &'static str = r#"</p>
                        </div>
                    </div
                "#;

/// What stands between two index lines.
pub const ENTRY_SEPARATOR: &'static str = "<br />\n";

/// The body of a page around the content `body`.
pub open spec fn body_text(body: Seq<char>) -> Seq<char> {
    BODY_OPEN@ + body + BODY_CLOSE@
}

/// A whole page around the content `body`.
pub open spec fn page_text(body: Seq<char>) -> Seq<char> {
    HEADER@ + body_text(body) + FOOTER@
}

/// The markup of one index line.
pub open spec fn entry_text(l: Listing) -> Seq<char> {
    ENTRY_OPEN@ + l.date@ + ENTRY_LINK@ + l.link@ + ENTRY_TITLE@ + l.title@ + ENTRY_BLURB@
        + l.blurb@ + ENTRY_CLOSE@
}

/// The markup of index lines, one after another, with a separator between two.
pub open spec fn index_text(ls: Seq<Listing>) -> Seq<char>
    decreases ls.len(),
{
    if ls.len() == 0 {
        Seq::empty()
    } else if ls.len() == 1 {
        entry_text(ls[0])
    } else {
        index_text(ls.drop_last()) + ENTRY_SEPARATOR@ + entry_text(ls.last())
    }
}

/// The HTML that pulldown-cmark makes of a Markdown text.
pub uninterp spec fn html_of_markdown(s: Seq<char>) -> Seq<char>;

/// Relies on pulldown-cmark's `Parser::new_ext` with all extensions and `html::push_html`:
/// the HTML depends on the Markdown text alone.
#[verifier::external_body]
fn markdown_to_html(markdown: &str) -> (r: String)
    ensures
        r@ == html_of_markdown(markdown@),
{
    let parser = pulldown_cmark::Parser::new_ext(markdown, pulldown_cmark::Options::all());
    let mut html = String::new();
    pulldown_cmark::html::push_html(&mut html, parser);
    html
}

/// The body of a page around the content `body`.
pub fn render_body(body: &str) -> (r: String)
    ensures
        r@ == body_text(body@),
{
    let mut r = BODY_OPEN.to_owned();
    r.append(body);
    r.append(BODY_CLOSE);
    r
}

/// A whole page around the content `body`.
pub fn page(body: &str) -> (r: String)
    ensures
        r@ == page_text(body@),
{
    let mut r = HEADER.to_owned();
    let b = render_body(body);
    r.append(b.as_str());
    r.append(FOOTER);
    proof {
        assert(r@ =~= page_text(body@));
    }
    r
}

/// The page of a document whose Markdown, front matter removed, is `markdown`.
pub fn document_page(markdown: &str) -> (r: String)
    ensures
        r@ == page_text(html_of_markdown(markdown@)),
{
    let html = markdown_to_html(markdown);
    page(html.as_str())
}

/// The markup of one index line.
pub fn render_entry(l: &Listing) -> (r: String)
    ensures
        r@ == entry_text(*l),
{
    let mut r = ENTRY_OPEN.to_owned();
    r.append(l.date.as_str());
    r.append(ENTRY_LINK);
    r.append(l.link.as_str());
    r.append(ENTRY_TITLE);
    r.append(l.title.as_str());
    r.append(ENTRY_BLURB);
    r.append(l.blurb.as_str());
    r.append(ENTRY_CLOSE);
    r
}

/// The markup of index lines, in their order, with a separator between two.
pub fn render_index(ls: &Vec<Listing>) -> (r: String)
    ensures
        r@ == index_text(ls@),
{
    let mut r = String::new();
    let mut i: usize = 0;
    while i < ls.len()
        invariant
            i <= ls@.len(),
            r@ == index_text(ls@.take(i as int)),
        decreases ls@.len() - i,
    {
        let e = render_entry(&ls[i]);
        proof {
            assert(ls@.take(i + 1).drop_last() =~= ls@.take(i as int));
            assert(ls@.take(i + 1).last() == ls@[i as int]);
        }
        if i > 0 {
            r.append(ENTRY_SEPARATOR);
        } else {
            assert(r@ =~= Seq::<char>::empty());
        }
        r.append(e.as_str());
        proof {
            assert(r@ =~= index_text(ls@.take(i + 1)));
        }
        i = i + 1;
    }
    proof {
        assert(ls@.take(ls@.len() as int) =~= ls@);
    }
    r
}

/// The index page of the listed documents.
pub fn index_page(ls: &Vec<Listing>) -> (r: String)
    ensures
        r@ == page_text(index_text(ls@)),
{
    let body = render_index(ls);
    page(body.as_str())
}

} // verus!

use maverick_writes::blog::{BlogIndex, Considered};
use maverick_writes::date::{parse_date, Date};
use maverick_writes::front_matter::extract_metadata_and_remove_front_matter;
use maverick_writes::listing::{index_listings, listing_for, NO_BLURB};
use maverick_writes::metadata::Metadata;
use maverick_writes::site::{add_document, index_html, is_source_document};
use maverick_writes::templates::{
    document_page, page, render_body, render_entry, render_index, BODY_CLOSE, BODY_OPEN,
    ENTRY_SEPARATOR, FOOTER, HEADER,
};

fn metadata(pairs: &[(&str, &str)]) -> Metadata {
    let mut m = Metadata::new();
    for (k, v) in pairs {
        m.insert(k.to_string(), v.to_string());
    }
    m
}

#[test]
fn extract_reads_keys_and_strips_block() {
    let (md, body) = extract_metadata_and_remove_front_matter(
        "---\ntitle: Hello World\ndate: 01/15/2024\nblurb:  short  \n---\n# Body\ntext",
    );
    let md = md.expect("front matter");
    assert_eq!(md.get("title"), Some("Hello World".to_string()));
    assert_eq!(md.get("date"), Some("01/15/2024".to_string()));
    assert_eq!(md.get("blurb"), Some("short".to_string()));
    assert_eq!(md.get("other"), None);
    assert_eq!(body, "\n# Body\ntext");
}

#[test]
fn extract_without_front_matter_is_identity() {
    let text = "# Title\n\nno metadata --- here\n---\n";
    let (md, body) = extract_metadata_and_remove_front_matter(text);
    assert!(md.is_none());
    assert_eq!(body, text);
}

#[test]
fn extract_of_empty_text() {
    let (md, body) = extract_metadata_and_remove_front_matter("");
    assert!(md.is_none());
    assert_eq!(body, "");
}

#[test]
fn extract_unclosed_block_is_no_front_matter() {
    let text = "---\ntitle: Open\ndate: 01/01/2024\nbody without a closing line";
    let (md, body) = extract_metadata_and_remove_front_matter(text);
    assert!(md.is_none());
    assert_eq!(body, text);
}

#[test]
fn extract_empty_block_gives_empty_metadata() {
    let (md, body) = extract_metadata_and_remove_front_matter("---\n---");
    let md = md.expect("front matter");
    assert!(md.is_empty());
    assert_eq!(body, "");
    let (none, same) = extract_metadata_and_remove_front_matter("plain text");
    assert!(none.is_none());
    assert_eq!(same, "plain text");
}

#[test]
fn extract_later_duplicate_key_wins() {
    let (md, _) = extract_metadata_and_remove_front_matter("---\ntitle: A\ntitle: B\n---\nx");
    let md = md.expect("front matter");
    assert_eq!(md.get("title"), Some("B".to_string()));
    assert!(!md.is_empty());
}

#[test]
fn extract_splits_at_first_colon_and_skips_lines_without_one() {
    let (md, _) = extract_metadata_and_remove_front_matter(
        "---\n  time :  10:30 \nno colon here\r\nkey:value\r\n---\nrest",
    );
    let md = md.expect("front matter");
    assert_eq!(md.get("time"), Some("10:30".to_string()));
    assert_eq!(md.get("key"), Some("value".to_string()));
    assert_eq!(md.get("no colon here"), None);
}

#[test]
fn extract_round_trip_of_metadata_lines() {
    let lines = "title: Round\ndate: 03/01/2024\nblurb: again";
    let body = "\n\nSome *text*.\n";
    let doc = format!("---\n{}\n---{}", lines, body);
    let (md, clean) = extract_metadata_and_remove_front_matter(&doc);
    let md = md.expect("front matter");
    assert_eq!(clean, body);
    assert_eq!(md.get("title"), Some("Round".to_string()));
    assert_eq!(md.get("date"), Some("03/01/2024".to_string()));
    assert_eq!(md.get("blurb"), Some("again".to_string()));
    let again = format!("---\n{}\n---{}", lines, clean);
    let (md2, clean2) = extract_metadata_and_remove_front_matter(&again);
    assert_eq!(md2.expect("front matter").get("title"), Some("Round".to_string()));
    assert_eq!(clean2, body);
}

#[test]
fn metadata_insert_overwrites() {
    let mut m = Metadata::new();
    assert!(m.is_empty());
    m.insert("a".to_string(), "1".to_string());
    m.insert("b".to_string(), "2".to_string());
    m.insert("a".to_string(), "3".to_string());
    assert_eq!(m.get("a"), Some("3".to_string()));
    assert_eq!(m.get("b"), Some("2".to_string()));
    assert_eq!(m.get("c"), None);
}

#[test]
fn parse_date_reads_month_day_year() {
    assert_eq!(parse_date("01/15/2024"), Some(Date { year: 2024, month: 1, day: 15 }));
    assert_eq!(parse_date("02/29/2024"), Some(Date { year: 2024, month: 2, day: 29 }));
    assert_eq!(parse_date("not-a-date"), None);
    assert_eq!(parse_date("02/30/2024"), None);
    assert_eq!(parse_date("13/01/2024"), None);
    assert_eq!(parse_date("2024-01-15"), None);
    assert_eq!(parse_date(""), None);
}

#[test]
fn consider_skips_missing_and_bad_dates() {
    let mut index = BlogIndex::new();
    assert_eq!(index.consider("public/none.html".to_string(), None), Considered::NoDate);
    assert_eq!(
        index.consider("public/untitled.html".to_string(), Some(metadata(&[("title", "T")]))),
        Considered::NoDate
    );
    assert_eq!(
        index.consider("public/bad.html".to_string(), Some(metadata(&[("date", "not-a-date")]))),
        Considered::BadDate
    );
    assert_eq!(index.len(), 0);
    assert_eq!(
        index.consider("public/good.html".to_string(), Some(metadata(&[("date", "05/05/2024")]))),
        Considered::Added
    );
    assert_eq!(index.len(), 1);
    let blogs = index.finalize();
    assert_eq!(blogs.len(), 1);
    assert_eq!(blogs[0].html_file, "public/good.html");
    assert_eq!(blogs[0].date_string, Date { year: 2024, month: 5, day: 5 });
}

#[test]
fn finalize_orders_most_recent_first() {
    let mut index = BlogIndex::new();
    for (path, date) in [("public/a.html", "03/01/2024"), ("public/b.html", "01/15/2024"), ("public/c.html", "02/20/2024")] {
        assert_eq!(index.consider(path.to_string(), Some(metadata(&[("date", date)]))), Considered::Added);
    }
    let blogs = index.finalize();
    let dates: Vec<Date> = blogs.iter().map(|b| b.date_string).collect();
    assert_eq!(
        dates,
        vec![
            Date { year: 2024, month: 3, day: 1 },
            Date { year: 2024, month: 2, day: 20 },
            Date { year: 2024, month: 1, day: 15 },
        ]
    );
    let paths: Vec<&str> = blogs.iter().map(|b| b.html_file.as_str()).collect();
    assert_eq!(paths, vec!["public/a.html", "public/c.html", "public/b.html"]);
}

#[test]
fn finalize_orders_across_years_and_keeps_ties_in_order() {
    let mut index = BlogIndex::new();
    for (path, date) in [
        ("public/old.html", "12/31/2023"),
        ("public/first.html", "01/01/2024"),
        ("public/second.html", "01/01/2024"),
        ("public/new.html", "01/02/2024"),
    ] {
        index.consider(path.to_string(), Some(metadata(&[("date", date)])));
    }
    let blogs = index.finalize();
    let paths: Vec<&str> = blogs.iter().map(|b| b.html_file.as_str()).collect();
    assert_eq!(paths, vec!["public/new.html", "public/first.html", "public/second.html", "public/old.html"]);
}

#[test]
fn finalize_of_empty_index() {
    let index = BlogIndex::new();
    assert_eq!(index.len(), 0);
    assert!(index.finalize().is_empty());
}

#[test]
fn listing_uses_metadata_or_falls_back() {
    let mut index = BlogIndex::new();
    index.consider(
        "public/posts/first.html".to_string(),
        Some(metadata(&[("date", "01/01/2024"), ("title", "First"), ("blurb", "About it")])),
    );
    index.consider("public/posts/second.html".to_string(), Some(metadata(&[("date", "02/01/2024")])));
    let blogs = index.finalize();
    let second = listing_for(&blogs[0], "public");
    assert_eq!(second.date, "02/01/2024");
    assert_eq!(second.link, "/posts/second.html");
    assert_eq!(second.title, "posts/second");
    assert_eq!(second.blurb, NO_BLURB);
    assert_eq!(second.blurb, "No blurb available");
    let first = listing_for(&blogs[1], "public");
    assert_eq!(first.title, "First");
    assert_eq!(first.blurb, "About it");
    assert_eq!(first.link, "/posts/first.html");
}

#[test]
fn listing_strips_repeated_prefixes_and_suffixes() {
    let mut index = BlogIndex::new();
    index.consider("outout//x.html.html".to_string(), Some(metadata(&[("date", "01/01/2024")])));
    let blogs = index.finalize();
    let l = listing_for(&blogs[0], "out");
    assert_eq!(l.link, "//x.html.html");
    assert_eq!(l.title, "x");
    let whole = listing_for(&blogs[0], "");
    assert_eq!(whole.link, "outout//x.html.html");
    assert_eq!(whole.title, "outout//x");
}

#[test]
fn end_to_end_index_of_three_documents() {
    let mut index = BlogIndex::new();
    let (_, a) = add_document(&mut index, "public/jan.html".to_string(), "---\ndate: 01/01/2024\n---\nJanuary");
    let (_, b) = add_document(&mut index, "public/mid.html".to_string(), "---\ndate: 06/01/2024\ntitle: Mid\n---\nJune");
    let (_, c) = add_document(&mut index, "public/undated.html".to_string(), "---\ntitle: Undated\n---\nNever");
    assert_eq!((a, b, c), (Considered::Added, Considered::Added, Considered::NoDate));
    let blogs = index.finalize();
    let listings = index_listings(&blogs, "public");
    assert_eq!(listings.len(), 2);
    assert_eq!(listings[0].date, "06/01/2024");
    assert_eq!(listings[0].title, "Mid");
    assert_eq!(listings[1].date, "01/01/2024");
    assert_eq!(listings[1].title, "jan");
    assert_eq!(listings[1].link, "/jan.html");
    let html = index_html(&blogs, "public");
    let mid = html.find("Mid").expect("listed");
    let jan = html.find("/blog/jan.html").expect("listed");
    assert!(mid < jan);
    assert!(!html.contains("Undated"));
}

#[test]
fn add_document_renders_markdown_without_front_matter() {
    let mut index = BlogIndex::new();
    let (html, outcome) = add_document(&mut index, "public/p.html".to_string(), "---\ndate: bad\n---\n# Heading");
    assert_eq!(outcome, Considered::BadDate);
    assert_eq!(index.len(), 0);
    assert!(html.starts_with(HEADER));
    assert!(html.ends_with(FOOTER));
    assert!(html.contains("<h1>Heading</h1>"));
    assert!(!html.contains("date: bad"));
}

#[test]
fn document_page_converts_markdown() {
    let html = document_page("# Hi\n\nsome *stress*");
    assert!(html.contains("<h1>Hi</h1>"));
    assert!(html.contains("<em>stress</em>"));
    assert!(!html.contains("# Hi"));
}

#[test]
fn render_body_wraps_content() {
    let b = render_body("<p>x</p>");
    assert_eq!(b, format!("{}<p>x</p>{}", BODY_OPEN, BODY_CLOSE));
    assert!(b.contains("<div class=\"body\">"));
    assert_eq!(page("z"), format!("{}{}{}", HEADER, render_body("z"), FOOTER));
}

#[test]
fn render_index_joins_entries() {
    let mut index = BlogIndex::new();
    index.consider("public/a.html".to_string(), Some(metadata(&[("date", "01/01/2024")])));
    index.consider("public/b.html".to_string(), Some(metadata(&[("date", "01/02/2024")])));
    let blogs = index.finalize();
    let ls = index_listings(&blogs, "public");
    let joined = render_index(&ls);
    assert_eq!(joined, format!("{}{}{}", render_entry(&ls[0]), ENTRY_SEPARATOR, render_entry(&ls[1])));
    assert!(render_entry(&ls[0]).contains("<a href=\"/blog/b.html\">b</a>"));
    assert_eq!(render_index(&Vec::new()), "");
}

#[test]
fn source_documents_are_markdown_but_not_the_about_page() {
    assert!(is_source_document("content/post.md"));
    assert!(is_source_document(".md"));
    assert!(!is_source_document("content/post.html"));
    assert!(!is_source_document("content/aboutme.md"));
    assert!(!is_source_document("content/aboutme.md/x.md"));
    assert!(!is_source_document("md"));
    assert!(!is_source_document(""));
}

#[test]
fn extract_needs_whole_delimiter_lines() {
    let text = "---x: 1---\nBody";
    let (md, body) = extract_metadata_and_remove_front_matter(text);
    assert!(md.is_none());
    assert_eq!(body, text);
    let (md, body) = extract_metadata_and_remove_front_matter("------");
    assert!(md.is_none());
    assert_eq!(body, "------");
    let (md, body) = extract_metadata_and_remove_front_matter("---\ntitle: x\n---y\nz");
    assert!(md.is_none());
    assert_eq!(body, "---\ntitle: x\n---y\nz");
}

#[test]
fn extract_closes_only_at_a_delimiter_line() {
    let (md, body) = extract_metadata_and_remove_front_matter("---\na---b\n---\nrest");
    let md = md.expect("front matter");
    assert_eq!(md.get("a---b"), None);
    assert!(md.is_empty());
    assert_eq!(body, "\nrest");
    let (md, body) = extract_metadata_and_remove_front_matter("---\nk: v\n---y\n---");
    assert_eq!(md.expect("front matter").get("k"), Some("v".to_string()));
    assert_eq!(body, "");
}

#[test]
fn extract_reads_back_written_pairs() {
    let pairs = [("title", "Again"), ("date", "02/02/2024"), ("title", "Last"), ("empty", "")];
    let lines: Vec<String> = pairs.iter().map(|(k, v)| format!("{}: {}", k, v)).collect();
    let doc = format!("---\n{}\n---\nbody", lines.join("\n"));
    let (md, body) = extract_metadata_and_remove_front_matter(&doc);
    let md = md.expect("front matter");
    assert_eq!(md.get("title"), Some("Last".to_string()));
    assert_eq!(md.get("date"), Some("02/02/2024".to_string()));
    assert_eq!(md.get("empty"), Some(String::new()));
    assert_eq!(body, "\nbody");
}

#[test]
fn undated_document_does_not_stop_later_ones() {
    let mut index = BlogIndex::new();
    let (_, d) = add_document(&mut index, "public/d.html".to_string(), "---\ntitle: T\n---\nX");
    let (_, e) = add_document(&mut index, "public/e.html".to_string(), "---\ndate: 02/02/2024\n---\nY");
    assert_eq!((d, e), (Considered::NoDate, Considered::Added));
    let blogs = index.finalize();
    assert_eq!(blogs.len(), 1);
    assert_eq!(blogs[0].html_file, "public/e.html");
}

//! A small static-site generator's core: it reads the front matter of Markdown
//! documents, renders their pages, and builds an index of the dated ones, most recent
//! first.
//!
//! - `front_matter`: splits a document into its metadata and its body.
//! - `metadata`: the key/value mapping of a document's front matter.
//! - `date`: calendar dates and the reading of a month/day/year text.
//! - `blog`: the documents of a rebuild and their order by date.
//! - `listing`: the title, link, date and blurb that the index shows of a document.
//! - `templates`: the HTML around pages and index lines.
//! - `site`: the steps of one rebuild pass.
//! - `text`: white space and character-level helpers.

pub mod blog;
pub mod date;
pub mod front_matter;
pub mod listing;
pub mod metadata;
pub mod site;
pub mod templates;
pub mod text;

use vstd::prelude::*;
use crate::date::{date_of_text, is_calendar_date, is_later, later, mdy_parts, mdy_shape, parse_date, Date};
use crate::metadata::Metadata;
use vstd::multiset::Multiset;

verus! {

/// A published document that has a date: where its page was written, the date its
/// metadata gives, and its metadata.
pub struct Blog {
    pub html_file: String,
    pub date_string: Date,
    pub md_metadata: Option<Metadata>,
}

/// What became of a document offered to the index.
#[derive(Clone, Copy, Debug, PartialEq, Eq, Structural)]
pub enum Considered {
    /// The document has a readable date and is in the index.
    Added,
    /// The document has no metadata, or no `date` in it; it is left out.
    NoDate,
    /// The document's `date` is not a month/day/year date; it is left out.
    BadDate,
}

/// The `date` value of a document's metadata, if it has one.
pub open spec fn date_text(md: Option<Metadata>) -> Option<Seq<char>> {
    match md {
        Some(m) => if m@.contains_key("date"@) {
            Some(m@["date"@])
        } else {
            None
        },
        None => None,
    }
}

/// Whether a document's date is the one its metadata's `date` value names.
pub open spec fn well_dated(b: Blog) -> bool {
    &&& date_text(b.md_metadata) is Some
    &&& date_of_text(date_text(b.md_metadata).unwrap()) == Some(
        (b.date_string.year as int, b.date_string.month as int, b.date_string.day as int),
    )
}

/// Where a document with date `d` goes among `s`: after every document that is not
/// older than it, so that documents of one date keep the order in which they came.
pub open spec fn insert_pos(s: Seq<Blog>, d: Date) -> int
    decreases s.len(),
{
    if s.len() == 0 {
        0
    } else if later(d, s[0].date_string) {
        0
    } else {
        1 + insert_pos(s.drop_first(), d)
    }
}

pub open spec fn insert_by_date(s: Seq<Blog>, b: Blog) -> Seq<Blog> {
    s.insert(insert_pos(s, b.date_string), b)
}

/// The documents of `s`, most recent first; documents of one date stay in the order of `s`.
pub open spec fn ordered(s: Seq<Blog>) -> Seq<Blog>
    decreases s.len(),
{
    if s.len() == 0 {
        s
    } else {
        insert_by_date(ordered(s.drop_last()), s.last())
    }
}

/// Whether no document of `s` is later than one before it.
pub open spec fn is_descending(s: Seq<Blog>) -> bool {
    forall|i: int, j: int| 0 <= i < j < s.len() ==> !later(s[j].date_string, s[i].date_string)
}

proof fn lemma_insert_pos(s: Seq<Blog>, d: Date)
    ensures
        0 <= insert_pos(s, d) <= s.len(),
        forall|k: int| 0 <= k < insert_pos(s, d) ==> !later(d, s[k].date_string),
        insert_pos(s, d) < s.len() ==> later(d, s[insert_pos(s, d)].date_string),
    decreases s.len(),
{
    if s.len() > 0 && !later(d, s[0].date_string) {
        lemma_insert_pos(s.drop_first(), d);
        assert forall|k: int| 0 <= k < insert_pos(s, d) implies !later(d, s[k].date_string) by {
            if k > 0 {
                assert(s[k] == s.drop_first()[k - 1]);
            }
        }
    }
}

proof fn lemma_insert_pos_at(s: Seq<Blog>, d: Date, i: int)
    requires
        0 <= i <= s.len(),
        forall|k: int| 0 <= k < i ==> !later(d, s[k].date_string),
        i < s.len() ==> later(d, s[i].date_string),
    ensures
        insert_pos(s, d) == i,
    decreases s.len(),
{
    if i > 0 {
        let t = s.drop_first();
        assert forall|k: int| 0 <= k < i - 1 implies !later(d, t[k].date_string) by {
            assert(t[k] == s[k + 1]);
        }
        if i - 1 < t.len() {
            assert(t[i - 1] == s[i]);
        }
        lemma_insert_pos_at(t, d, i - 1);
    }
}

proof fn lemma_insert_keeps_order(s: Seq<Blog>, b: Blog)
    requires
        is_descending(s),
    ensures
        is_descending(insert_by_date(s, b)),
        insert_by_date(s, b).to_multiset() == s.to_multiset().insert(b),
{
    lemma_insert_pos(s, b.date_string);
    let p = insert_pos(s, b.date_string);
    let t = insert_by_date(s, b);
    assert forall|i: int, j: int| 0 <= i < j < t.len() implies !later(
        t[j].date_string,
        t[i].date_string,
    ) by {
        if j < p {
            assert(t[i] == s[i] && t[j] == s[j]);
        } else if j == p {
            assert(t[i] == s[i]);
        } else if i < p {
            assert(t[i] == s[i] && t[j] == s[j - 1]);
            assert(!later(s[j - 1].date_string, s[p].date_string) || j - 1 == p);
        } else if i == p {
            assert(t[j] == s[j - 1]);
            assert(!later(s[j - 1].date_string, s[p].date_string) || j - 1 == p);
        } else {
            assert(t[i] == s[i - 1] && t[j] == s[j - 1]);
        }
    }
    let front = s.take(p);
    let back = s.skip(p);
    assert(t =~= front + (seq![b] + back));
    assert(s =~= front + back);
    vstd::seq_lib::lemma_multiset_commutative(front, seq![b] + back);
    vstd::seq_lib::lemma_multiset_commutative(seq![b], back);
    vstd::seq_lib::lemma_multiset_commutative(front, back);
    assert(seq![b].to_multiset() =~= Multiset::empty().insert(b)) by {
        assert(seq![b] =~= Seq::<Blog>::empty().push(b));
        Seq::<Blog>::empty().to_multiset_ensures();
    }
    assert(t.to_multiset() =~= s.to_multiset().insert(b));
}

/// Ordering documents by date gives every one of them, each as often as it came, with no
/// document later than one before it.
pub proof fn lemma_ordered(s: Seq<Blog>)
    ensures
        is_descending(ordered(s)),
        ordered(s).to_multiset() == s.to_multiset(),
        ordered(s).len() == s.len(),
    decreases s.len(),
{
    if s.len() > 0 {
        lemma_ordered(s.drop_last());
        lemma_insert_keeps_order(ordered(s.drop_last()), s.last());
        lemma_insert_pos(ordered(s.drop_last()), s.last().date_string);
        s.drop_last().to_multiset_ensures();
        assert(s.drop_last().push(s.last()) =~= s);
    }
}

/// The documents of one rebuild that have a date, in the order they were offered.
pub struct BlogIndex {
    entries: Vec<Blog>,
}

impl View for BlogIndex {
    type V = Seq<Blog>;

    closed spec fn view(&self) -> Seq<Blog> {
        self.entries@
    }
}

impl BlogIndex {
    /// Every document held has the date its metadata names.
    pub closed spec fn wf(&self) -> bool {
        forall|i: int| 0 <= i < self.entries@.len() ==> well_dated(#[trigger] self.entries@[i])
    }

    pub fn new() -> (r: BlogIndex)
        ensures
            r@ == Seq::<Blog>::empty(),
            r.wf(),
    {
        BlogIndex { entries: Vec::new() }
    }

    /// How many documents are held.
    pub fn len(&self) -> (r: usize)
        ensures
            r == self@.len(),
    {
        self.entries.len()
    }

    /// Offers the document whose page is `html_file` and whose metadata is `md_metadata`.
    /// It is kept when its metadata has a `date` that reads as month/day/year; otherwise
    /// nothing changes and the outcome says why.
    pub fn consider(&mut self, html_file: String, md_metadata: Option<Metadata>) -> (r:
        Considered)
        requires
            old(self).wf(),
        ensures
            final(self).wf(),
            match date_text(md_metadata) {
                None => r == Considered::NoDate && final(self)@ == old(self)@,
                Some(t) => match date_of_text(t) {
                    None => r == Considered::BadDate && final(self)@ == old(self)@,
                    Some((y, m, d)) => r == Considered::Added && final(self)@ == old(self)@.push(
                        Blog {
                            html_file: html_file,
                            date_string: Date { year: y as i32, month: m as u32, day: d as u32 },
                            md_metadata: md_metadata,
                        },
                    ),
                },
            },
            date_text(md_metadata) matches Some(t) && mdy_shape(t) && is_calendar_date(
                mdy_parts(t).0,
                mdy_parts(t).1,
                mdy_parts(t).2,
            ) ==> r == Considered::Added,
    {
        let text = match &md_metadata {
            Some(m) => m.get("date"),
            None => None,
        };
        match text {
            None => Considered::NoDate,
            Some(t) => match parse_date(t.as_str()) {
                None => Considered::BadDate,
                Some(d) => {
                    let b = Blog { html_file, date_string: d, md_metadata };
                    proof {
                        assert(well_dated(b));
                    }
                    self.entries.push(b);
                    proof {
                        assert(forall|i: int|
                            0 <= i < old(self).entries@.len() ==> self.entries@[i] == old(
                                self,
                            ).entries@[i]);
                    }
                    Considered::Added
                },
            },
        }
    }

    /// The documents held, most recent first; documents of one date stay in the order in
    /// which they were offered.
    pub fn finalize(self) -> (r: Vec<Blog>)
        requires
            self.wf(),
        ensures
            r@ == ordered(self@),
            is_descending(r@),
            r@.to_multiset() == self@.to_multiset(),
            forall|i: int| 0 <= i < r@.len() ==> well_dated(#[trigger] r@[i]),
    {
        let ghost orig = self.entries@;
        let mut rest = self.entries;
        let mut out: Vec<Blog> = Vec::new();
        let ghost mut k: int = 0;
        while rest.len() > 0
            invariant
                0 <= k <= orig.len(),
                rest@ == orig.subrange(k, orig.len() as int),
                out@ == ordered(orig.take(k)),
                forall|i: int| 0 <= i < orig.len() ==> well_dated(#[trigger] orig[i]),
                forall|i: int| 0 <= i < out@.len() ==> well_dated(#[trigger] out@[i]),
            decreases rest@.len(),
        {
            let b = rest.remove(0);
            assert(b == orig[k]);
            let mut i: usize = 0;
            while i < out.len() && !is_later(b.date_string, out[i].date_string)
                invariant
                    i <= out@.len(),
                    forall|j: int| 0 <= j < i ==> !later(b.date_string, #[trigger] out@[j].date_string),
                decreases out@.len() - i,
            {
                i = i + 1;
            }
            proof {
                lemma_insert_pos_at(out@, b.date_string, i as int);
                assert(orig.take(k + 1).drop_last() =~= orig.take(k));
                assert(orig.take(k + 1).last() == orig[k]);
            }
            let ghost before = out@;
            out.insert(i, b);
            proof {
                assert forall|j: int| 0 <= j < out@.len() implies well_dated(#[trigger] out@[j]) by {
                    if j < i {
                        assert(out@[j] == before[j]);
                    } else if j > i {
                        assert(out@[j] == before[j - 1]);
                    }
                }
                k = k + 1;
                assert(rest@ =~= orig.subrange(k, orig.len() as int));
            }
        }
        proof {
            assert(orig.take(k) =~= orig);
            lemma_ordered(orig);
        }
        out
    }
}

} // verus!

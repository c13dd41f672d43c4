//! Study sets: the address of a set's page, and what its page tells of it.

use crate::heading::{all_digits, decimal_value, is_digit, lemma_decimal_prefix};
use crate::page::{first_html, first_inner_html_of_document, matches_in, Selectors};
use scraper::Html;
use vstd::prelude::*;

verus! {

/// The host of the study sets' pages.
pub const QUIZLET_HOST: &'static str = "https://quizlet.com/";

/// What follows a set's id in the address of its page.
pub const SET_PAGE_SUFFIX: &'static str = "/bruh";

/// A study set as its page shows it.
#[derive(Clone, Debug)]
pub struct StudySet {
    pub id: String,
    pub title: String,
    pub description: String,
    pub term_count: u32,
    pub author: String,
}

/// The text after its leading characters that are not decimal digits.
pub open spec fn skip_non_digits(s: Seq<char>) -> Seq<char>
    decreases s.len(),
{
    if s.len() == 0 || is_digit(s[0]) {
        s
    } else {
        skip_non_digits(s.skip(1))
    }
}

/// The decimal digits that the text starts with.
pub open spec fn digit_prefix(s: Seq<char>) -> Seq<char>
    decreases s.len(),
{
    if s.len() == 0 || !is_digit(s[0]) {
        Seq::empty()
    } else {
        seq![s[0]] + digit_prefix(s.skip(1))
    }
}

/// The first run of decimal digits in the text, as a number: `None` where the
/// text has no digit or the number does not fit in 32 bits.
pub open spec fn leading_number_spec(s: Seq<char>) -> Option<u32> {
    let digits = digit_prefix(skip_non_digits(s));
    if digits.len() > 0 && decimal_value(digits) <= u32::MAX {
        Some(decimal_value(digits) as u32)
    } else {
        None
    }
}

proof fn lemma_digit_prefix_digits(s: Seq<char>)
    ensures
        all_digits(digit_prefix(s)),
    decreases s.len(),
{
    if s.len() > 0 && is_digit(s[0]) {
        lemma_digit_prefix_digits(s.skip(1));
        let d = digit_prefix(s);
        assert forall|i: int| 0 <= i < d.len() implies is_digit(#[trigger] d[i]) by {
            if i > 0 {
                assert(d[i] == digit_prefix(s.skip(1))[i - 1]);
            }
        }
    }
}

/// The first run of decimal digits in `text`, read as a number.
pub fn leading_number(text: &str) -> (r: Option<u32>)
    ensures
        r == leading_number_spec(text@),
{
    let ghost s = text@;
    let n = text.unicode_len();
    let mut i: usize = 0;
    assert(s.skip(0) =~= s);
    while i < n && !('0' <= text.get_char(i) && text.get_char(i) <= '9')
        invariant
            i <= n,
            n == s.len(),
            s == text@,
            skip_non_digits(s) == skip_non_digits(s.skip(i as int)),
        decreases n - i,
    {
        assert(s.skip(i as int).skip(1) =~= s.skip(i as int + 1));
        i = i + 1;
    }
    let ghost start = i as int;
    assert(skip_non_digits(s.skip(start)) == s.skip(start));
    assert(s.subrange(start, start) =~= Seq::<char>::empty());
    assert(Seq::<char>::empty() + digit_prefix(s.skip(start)) =~= digit_prefix(s.skip(start)));
    let mut j: usize = i;
    let mut value: u64 = 0;
    while j < n && '0' <= text.get_char(j) && text.get_char(j) <= '9'
        invariant
            0 <= start <= j <= n,
            n == s.len(),
            skip_non_digits(s) == s.skip(start),
            s == text@,
            digit_prefix(s.skip(start)) == s.subrange(start, j as int) + digit_prefix(s.skip(j as int)),
            all_digits(s.subrange(start, j as int)),
            value == decimal_value(s.subrange(start, j as int)),
            value <= u32::MAX,
        decreases n - j,
    {
        let c = text.get_char(j);
        let ghost next = s.subrange(start, j as int + 1);
        assert(next.drop_last() =~= s.subrange(start, j as int));
        assert(next.last() == c);
        assert(s.skip(j as int).skip(1) =~= s.skip(j as int + 1));
        assert(s.subrange(start, j as int) + digit_prefix(s.skip(j as int)) =~= next + digit_prefix(
            s.skip(j as int + 1),
        ));
        assert(all_digits(next)) by {
            assert forall|k: int| 0 <= k < next.len() implies is_digit(#[trigger] next[k]) by {
                if k < next.len() - 1 {
                    assert(next[k] == s.subrange(start, j as int)[k]);
                }
            }
        }
        let v: u64 = value * 10 + ((c as u32) - ('0' as u32)) as u64;
        if v > u32::MAX as u64 {
            proof {
                let d = digit_prefix(s.skip(start));
                lemma_digit_prefix_digits(s.skip(start));
                assert(d.take(next.len() as int) =~= next);
                lemma_decimal_prefix(d, next.len() as int);
            }
            return None;
        }
        value = v;
        j = j + 1;
    }
    assert(digit_prefix(s.skip(j as int)) =~= Seq::<char>::empty());
    assert(s.subrange(start, j as int) + Seq::<char>::empty() =~= s.subrange(start, j as int));
    if j == i {
        None
    } else {
        Some(value as u32)
    }
}

/// `r` is the set of id `id` that a page with these parts shows: there is one
/// where the page gives a title, an author and a readable term count.
pub open spec fn is_study_set_of(
    r: Option<StudySet>,
    id: Seq<char>,
    title: Option<Seq<char>>,
    description: Option<Seq<char>>,
    term_text: Option<Seq<char>>,
    author: Option<Seq<char>>,
) -> bool {
    &&& r is Some <==> (title is Some && author is Some && term_text is Some
        && leading_number_spec(term_text->0) is Some)
    &&& r matches Some(set) ==> {
        &&& set.id@ == id
        &&& set.title@ == title->0
        &&& set.author@ == author->0
        &&& set.term_count == leading_number_spec(term_text->0)->0
        &&& set.description@ == match description {
            Some(d) => d,
            None => Seq::<char>::empty(),
        }
    }
}

impl StudySet {
    /// The address of the page of the set `id`.
    pub fn get_url(id: &str) -> (r: String)
        ensures
            r@ == QUIZLET_HOST@ + id@ + SET_PAGE_SUFFIX@,
    {
        let mut url = String::from_str(QUIZLET_HOST);
        url.append(id);
        url.append(SET_PAGE_SUFFIX);
        url
    }

    /// The set that a page's parts describe: one with a title, a term count
    /// and an author; the description empty where the page has none.
    pub fn assemble(
        id: String,
        title: Option<String>,
        description: Option<String>,
        term_text: Option<String>,
        author: Option<String>,
    ) -> (r: Option<StudySet>)
        ensures
            is_study_set_of(
                r,
                id@,
                title.deep_view(),
                description.deep_view(),
                term_text.deep_view(),
                author.deep_view(),
            ),
    {
        let title = title?;
        let description = match description {
            Some(d) => d,
            None => String::new(),
        };
        let term_text = term_text?;
        let term_count = leading_number(term_text.as_str())?;
        let author = author?;
        Some(StudySet { id, title, description, term_count, author })
    }

    /// The set that the page `document` shows, or `None` where it lacks a
    /// title, a term count or an author.
    pub fn extract(rules: &Selectors, document: &Html, id: String) -> (r: Option<StudySet>)
        ensures
            is_study_set_of(
                r,
                id@,
                first_html(matches_in(document, rules.set_title)),
                first_html(matches_in(document, rules.set_description)),
                first_html(matches_in(document, rules.set_term_count)),
                first_html(matches_in(document, rules.set_author)),
            ),
    {
        let title = first_inner_html_of_document(document, &rules.set_title);
        let description = first_inner_html_of_document(document, &rules.set_description);
        let term_text = first_inner_html_of_document(document, &rules.set_term_count);
        let author = first_inner_html_of_document(document, &rules.set_author);
        StudySet::assemble(id, title, description, term_text, author)
    }
}

} // verus!

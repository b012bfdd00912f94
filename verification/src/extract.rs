//! The extractor and the aggregator: walks the parsed markup of a
//! category's listing page, yields one show per detail block with the
//! permissive policy (an absent optional sub-node falls back to the
//! sentinel default; a present but malformed one is an error), and
//! aggregates both categories into one stably sorted list.
use vstd::prelude::*;

use crate::dates::{sentinel_date, sentinel_time, Date, Time};
use crate::errors::ParseError;
use crate::hebrew::{parse_date_chars, parse_time_chars, spec_parse_date, spec_parse_time};
use crate::shows::{show_views, Category, Show, ShowView};
use crate::sort::{sort_shows, sort_spec};
use crate::text::{chars_to_string, to_char_vec, trim, trim_spec};

verus! {

/// What the markup scan of a listing page yields, as a function of the
/// markup text alone: `None` where the listing container is absent,
/// else, for each detail block in document order, the text of its first
/// heading, date sub-node, and time sub-node, each `None` where the
/// block lacks that sub-node.
pub uninterp spec fn listing_items(html: Seq<char>) -> Option<
    Seq<(Option<String>, Option<String>, Option<String>)>,
>;

/// Relies on scraper's `Html::parse_document`, `Selector::parse`,
/// `Html::select`, `ElementRef::select` and `ElementRef::text`: parses
/// the markup, finds the first `div[class="category_shows"]` container
/// (`None` when absent), and collects for every `div.details-container`
/// within it the concatenated text of its first `h2`, `div.date_container`
/// and `div.time_container` descendants. scraper is deterministic, so
/// the result depends on the markup text alone.
#[verifier::external_body]
fn scan_listing(html: &str) -> (r: Option<Vec<(Option<String>, Option<String>, Option<String>)>>)
    ensures
        r matches Some(v) ==> listing_items(html@) == Some(v@),
        r is None ==> listing_items(html@) is None,
{
    let sel = |t: &str| scraper::Selector::parse(t).unwrap();
    let txt = |n: scraper::ElementRef| n.text().collect::<String>();
    let doc = scraper::Html::parse_document(html);
    let root = doc.select(&sel("div[class=\"category_shows\"]")).next()?;
    Some(root.select(&sel("div.details-container")).map(|e| (
        e.select(&sel("h2")).next().map(txt),
        e.select(&sel("div.date_container")).next().map(txt),
        e.select(&sel("div.time_container")).next().map(txt),
    )).collect())
}

/// The title a detail block yields: its heading text trimmed, or empty.
pub open spec fn item_title(item: (Option<String>, Option<String>, Option<String>)) -> Seq<
    char,
> {
    match item.0 {
        Some(t) => trim_spec(t@),
        None => Seq::empty(),
    }
}

/// The date a detail block yields: parsed from the trimmed date text,
/// or the sentinel where the sub-node is absent.
pub open spec fn item_date(item: (Option<String>, Option<String>, Option<String>)) -> Result<
    Date,
    ParseError,
> {
    match item.1 {
        Some(d) => spec_parse_date(trim_spec(d@)),
        None => Ok(sentinel_date()),
    }
}

/// The time a detail block yields: parsed from the trimmed time text,
/// or the sentinel where the sub-node is absent.
pub open spec fn item_time(item: (Option<String>, Option<String>, Option<String>)) -> Result<
    Time,
    ParseError,
> {
    match item.2 {
        Some(t) => spec_parse_time(trim_spec(t@)),
        None => Ok(sentinel_time()),
    }
}

/// The show one detail block yields, or the first of its failures
/// (date before time, as the fields are read in that order).
pub open spec fn item_to_show(
    item: (Option<String>, Option<String>, Option<String>),
    category: Category,
) -> Result<ShowView, ParseError> {
    match item_date(item) {
        Err(e) => Err(e),
        Ok(d) => match item_time(item) {
            Err(e) => Err(e),
            Ok(t) => Ok(ShowView { title: item_title(item), date: d, time: t, category }),
        },
    }
}

/// The shows a whole listing yields, in document order; the first
/// failing block aborts the extraction.
pub open spec fn items_to_shows(
    items: Seq<(Option<String>, Option<String>, Option<String>)>,
    category: Category,
) -> Result<Seq<ShowView>, ParseError>
    decreases items.len(),
{
    if items.len() == 0 {
        Ok(Seq::empty())
    } else {
        match items_to_shows(items.drop_last(), category) {
            Err(e) => Err(e),
            Ok(pre) => match item_to_show(items.last(), category) {
                Err(e) => Err(e),
                Ok(s) => Ok(pre.push(s)),
            },
        }
    }
}

/// What extraction of a category's page returns.
pub open spec fn spec_extract(html: Seq<char>, category: Category) -> Result<
    Seq<ShowView>,
    ParseError,
> {
    match listing_items(html) {
        None => Err(ParseError::MissingContainer),
        Some(items) => items_to_shows(items, category),
    }
}

/// Once a block fails, every longer prefix fails with the same error.
proof fn lemma_items_to_shows_err(
    items: Seq<(Option<String>, Option<String>, Option<String>)>,
    category: Category,
    i: int,
    k: int,
    e: ParseError,
)
    requires
        0 <= i < k <= items.len(),
        items_to_shows(items.subrange(0, i), category) is Ok,
        item_to_show(items[i], category) == Err::<ShowView, ParseError>(e),
    ensures
        items_to_shows(items.subrange(0, k), category) == Err::<Seq<ShowView>, ParseError>(e),
    decreases k,
{
    let pre = items.subrange(0, k);
    assert(pre.drop_last() =~= items.subrange(0, k - 1));
    assert(pre.last() == items[k - 1]);
    if k == i + 1 {
    } else {
        lemma_items_to_shows_err(items, category, i, k - 1, e);
    }
}

/// Extracts the shows of one category's listing page, per
/// [`spec_extract`]: fails with `MissingContainer` where the listing
/// container is absent, and with the first block's parse failure where
/// a present date or time text is malformed.
pub fn get_shows_by_category(html: &str, category: Category) -> (r: Result<Vec<Show>, ParseError>)
    ensures
        spec_extract(html@, category) matches Ok(shows) ==> (r matches Ok(v) && show_views(v@)
            == shows),
        spec_extract(html@, category) matches Err(e) ==> r == Err::<Vec<Show>, ParseError>(e),
{
    let items = match scan_listing(html) {
        Some(it) => it,
        None => {
            return Err(ParseError::MissingContainer);
        },
    };
    let mut out: Vec<Show> = Vec::new();
    let mut i: usize = 0;
    while i < items.len()
        invariant
            i <= items@.len(),
            listing_items(html@) == Some(items@),
            items_to_shows(items@.subrange(0, i as int), category) matches Ok(pre)
                && show_views(out@) == pre,
        decreases items@.len() - i,
    {
        let item = &items[i];
        proof {
            assert(items@.subrange(0, i + 1 as int).drop_last() =~= items@.subrange(0, i as int));
            assert(items@.subrange(0, i + 1 as int).last() == items@[i as int]);
        }
        let title_chars = match &item.0 {
            Some(t) => trim(&to_char_vec(t.as_str())),
            None => Vec::new(),
        };
        let date = match &item.1 {
            Some(d) => {
                match parse_date_chars(&trim(&to_char_vec(d.as_str()))) {
                    Ok(dt) => dt,
                    Err(e) => {
                        proof {
                            lemma_items_to_shows_err(
                                items@,
                                category,
                                i as int,
                                items@.len() as int,
                                e,
                            );
                            assert(items@.subrange(0, items@.len() as int) =~= items@);
                        }
                        return Err(e);
                    },
                }
            },
            None => Date { year: 1970, month: 1, day: 1 },
        };
        let time = match &item.2 {
            Some(t) => {
                match parse_time_chars(&trim(&to_char_vec(t.as_str()))) {
                    Ok(tm) => tm,
                    Err(e) => {
                        proof {
                            lemma_items_to_shows_err(
                                items@,
                                category,
                                i as int,
                                items@.len() as int,
                                e,
                            );
                            assert(items@.subrange(0, items@.len() as int) =~= items@);
                        }
                        return Err(e);
                    },
                }
            },
            None => Time { hour: 0, minute: 0, second: 0 },
        };
        let show = Show { title: chars_to_string(&title_chars), date, time, category };
        let ghost oldout = out@;
        out.push(show);
        proof {
            assert(item_to_show(items@[i as int], category) matches Ok(s) && s == show@);
            assert(show_views(out@) =~= show_views(oldout).push(show@));
        }
        i += 1;
    }
    proof {
        assert(items@.subrange(0, items@.len() as int) =~= items@);
    }
    Ok(out)
}

/// Aggregates both categories' pages — Comedy before Music — and sorts
/// the concatenation stably by (date, time); any extraction failure
/// aborts the whole aggregation.
pub fn get_shows(comedy_html: &str, music_html: &str) -> (r: Result<Vec<Show>, ParseError>)
    ensures
        spec_extract(comedy_html@, Category::Comedy) matches Err(e) ==> r == Err::<
            Vec<Show>,
            ParseError,
        >(e),
        spec_extract(comedy_html@, Category::Comedy) is Ok ==> (spec_extract(
            music_html@,
            Category::Music,
        ) matches Err(e) ==> r == Err::<Vec<Show>, ParseError>(e)),
        spec_extract(comedy_html@, Category::Comedy) matches Ok(c) ==> (spec_extract(
            music_html@,
            Category::Music,
        ) matches Ok(m) ==> (r matches Ok(v) && show_views(v@) == sort_spec(c + m))),
{
    let mut shows = match get_shows_by_category(comedy_html, Category::Comedy) {
        Ok(v) => v,
        Err(e) => {
            return Err(e);
        },
    };
    let mut music = match get_shows_by_category(music_html, Category::Music) {
        Ok(v) => v,
        Err(e) => {
            return Err(e);
        },
    };
    let ghost cpart = shows@;
    let ghost mpart = music@;
    shows.append(&mut music);
    proof {
        broadcast use crate::shows::lemma_show_views_len, crate::shows::lemma_show_views_index;

        assert(show_views(shows@) =~= show_views(cpart) + show_views(mpart));
    }
    sort_shows(&mut shows);
    Ok(shows)
}

} // verus!

//! The feed-aggregation collaborator's decision logic: defaulting of missing
//! feed fields, the description-preview policy, building the translation
//! request, the fall-back-to-original policy when translation fails, and
//! rendering translated paragraphs back to markup. Fetching, feed parsing
//! and the translation service's response grammar stay with the caller.
use vstd::prelude::*;

use crate::models::NewsItem;
use crate::text::{lines_of, split_lines, str_views, trim_text, trimmed};

verus! {

/// Translated descriptions are cut to this many characters before the
/// translation request is built.
pub const PREVIEW_CHARS: usize = 300;

/// The text of a present field, or the given default.
pub open spec fn or_text(o: Option<String>, d: Seq<char>) -> Seq<char> {
    match o {
        Some(s) => s@,
        None => d,
    }
}

/// Builds one aggregated feed entry: a missing title becomes `No Title`;
/// missing link, description and date become empty; source, category and
/// the translations are carried through unchanged.
pub fn news_item_from_feed(
    title: Option<String>,
    link: Option<String>,
    description: Option<String>,
    pub_date: Option<String>,
    title_pt: String,
    description_pt: String,
    source: &str,
    category: &str,
) -> (r: NewsItem)
    ensures
        r.title@ == or_text(title, "No Title"@),
        r.link@ == or_text(link, ""@),
        r.description@ == or_text(description, ""@),
        r.pub_date@ == or_text(pub_date, ""@),
        r.title_pt@ == title_pt@,
        r.description_pt@ == description_pt@,
        r.source@ == source@,
        r.category@ == category@,
{
    NewsItem {
        title: match title {
            Some(s) => s,
            None => String::from_str("No Title"),
        },
        title_pt,
        link: match link {
            Some(s) => s,
            None => String::from_str(""),
        },
        description: match description {
            Some(s) => s,
            None => String::from_str(""),
        },
        description_pt,
        pub_date: match pub_date {
            Some(s) => s,
            None => String::from_str(""),
        },
        source: String::from_str(source),
        category: String::from_str(category),
    }
}

/// The first `n` characters of `s`, or all of `s` when it is shorter.
pub open spec fn taken_prefix(s: Seq<char>, n: int) -> Seq<char> {
    if n <= s.len() {
        s.take(n)
    } else {
        s
    }
}

/// Cuts `s` to at most `n` characters.
pub fn truncate_chars(s: &str, n: usize) -> (r: String)
    ensures
        r@ == taken_prefix(s@, n as int),
{
    let len = s.unicode_len();
    if n >= len {
        String::from_str(s)
    } else {
        proof {
            assert(s@.subrange(0, n as int) =~= s@.take(n as int));
        }
        String::from_str(s.substring_char(0, n))
    }
}

/// The preview of a description that is worth translating: `None` exactly
/// for an empty description, otherwise the description cut to the preview
/// length.
pub fn description_preview(description: &str) -> (r: Option<String>)
    ensures
        match r {
            Some(p) => description@.len() > 0 && p@ == taken_prefix(
                description@,
                PREVIEW_CHARS as int,
            ),
            None => description@.len() == 0,
        },
{
    if description.unicode_len() == 0 {
        None
    } else {
        Some(truncate_chars(description, PREVIEW_CHARS))
    }
}

/// The percent-encoding of a character sequence, as the URL-encoding crate
/// computes it.
pub uninterp spec fn url_encoded(s: Seq<char>) -> Seq<char>;

/// Relies on urlencoding::encode: the percent-encoding of a string is a
/// function of its characters alone.
#[verifier::external_body]
fn encode_component(s: &str) -> (r: String)
    ensures
        r@ == url_encoded(s@),
{
    urlencoding::encode(s).into_owned()
}

/// Decides whether a text needs a translation request and builds the
/// request URL: empty text needs none (its translation is empty); any other
/// text is percent-encoded and appended to the endpoint.
pub fn translation_plan(endpoint: &str, text: &str) -> (r: Option<String>)
    ensures
        text@.len() == 0 <==> r is None,
        r matches Some(u) ==> u@ == endpoint@ + url_encoded(text@),
{
    if text.unicode_len() == 0 {
        None
    } else {
        Some(String::from_str(endpoint).concat(encode_component(text).as_str()))
    }
}

/// The fall-back policy for a translation call: a response that could not
/// be obtained or read leaves the original text in place.
pub fn translation_result(original: &str, translated: Option<String>) -> (r: String)
    ensures
        match translated {
            Some(t) => r@ == t@,
            None => r@ == original@,
        },
{
    match translated {
        Some(t) => t,
        None => String::from_str(original),
    }
}

/// A failed step of the article fetch; `error` is that step's diagnostic.
pub enum ArticleFailure {
    /// The page could not be fetched.
    Fetch { error: String },
    /// The response body could not be read.
    Read { error: String },
    /// The article's address could not be parsed for extraction.
    UrlParse { error: String },
    /// Readable content could not be extracted from the page.
    Extract { error: String },
}

/// Maps each failed step of the article fetch to the operation's error text.
pub fn article_error(f: &ArticleFailure) -> (r: String)
    ensures
        match *f {
            ArticleFailure::Fetch { error } => r@ == "Failed to fetch URL: "@ + error@,
            ArticleFailure::Read { error } => r@ == "Failed to read text: "@ + error@,
            ArticleFailure::UrlParse { error } => r@ == "Failed to parse URL: "@ + error@,
            ArticleFailure::Extract { error } => r@ == "Failed to extract content: "@ + error@,
        },
{
    match f {
        ArticleFailure::Fetch { error } => {
            String::from_str("Failed to fetch URL: ").concat(error.as_str())
        },
        ArticleFailure::Read { error } => {
            String::from_str("Failed to read text: ").concat(error.as_str())
        },
        ArticleFailure::UrlParse { error } => {
            String::from_str("Failed to parse URL: ").concat(error.as_str())
        },
        ArticleFailure::Extract { error } => {
            String::from_str("Failed to extract content: ").concat(error.as_str())
        },
    }
}

/// The article operation's successful result: the extracted markup as it
/// stands, or, when translation was asked for, the translated paragraphs
/// rendered back to markup.
pub fn article_rendering(translate: bool, content: String, translated: &Vec<String>) -> (r:
    String)
    ensures
        r@ == if translate {
            rendered_html(str_views(translated@))
        } else {
            content@
        },
{
    if translate {
        render_paragraphs(translated)
    } else {
        content
    }
}

/// The non-empty trimmed lines of an article text, in order: the paragraphs
/// sent for translation.
pub open spec fn paragraphs_of_lines(ls: Seq<Seq<char>>) -> Seq<Seq<char>>
    decreases ls.len(),
{
    if ls.len() == 0 {
        Seq::empty()
    } else {
        (if trimmed(ls[0]).len() > 0 {
            seq![trimmed(ls[0])]
        } else {
            Seq::empty()
        }) + paragraphs_of_lines(ls.drop_first())
    }
}

/// The paragraphs of an article text.
pub open spec fn paragraphs_of(s: Seq<char>) -> Seq<Seq<char>> {
    paragraphs_of_lines(lines_of(s))
}

/// Splits an article text into its paragraphs: lines are trimmed, and blank
/// lines contribute nothing.
pub fn article_paragraphs(text: &str) -> (r: Vec<String>)
    ensures
        str_views(r@) == paragraphs_of(text@),
{
    let lines = split_lines(text);
    let ghost lv = str_views(lines@);
    let mut r: Vec<String> = Vec::new();
    let mut i: usize = 0;
    proof {
        assert(lv.skip(0) =~= lv);
        assert(str_views(r@) =~= Seq::<Seq<char>>::empty());
        assert(Seq::<Seq<char>>::empty() + paragraphs_of_lines(lv) =~= paragraphs_of_lines(lv));
    }
    while i < lines.len()
        invariant
            lv == str_views(lines@),
            lv == lines_of(text@),
            i <= lines@.len(),
            paragraphs_of_lines(lv) == str_views(r@) + paragraphs_of_lines(lv.skip(i as int)),
        decreases lines@.len() - i,
    {
        proof {
            assert(lines@[i as int]@ == lv[i as int]);
            assert(lv.skip(i as int)[0] == lv[i as int]);
            assert(lv.skip(i as int).drop_first() =~= lv.skip(i as int + 1));
        }
        let t = trim_text(lines[i].as_str());
        let ghost pre = r@;
        if t.unicode_len() > 0 {
            r.push(t);
            proof {
                assert(str_views(r@) =~= str_views(pre).push(trimmed(lv[i as int])));
                assert(str_views(pre) + (seq![trimmed(lv[i as int])] + paragraphs_of_lines(
                    lv.skip(i as int + 1),
                )) =~= str_views(r@) + paragraphs_of_lines(lv.skip(i as int + 1)));
            }
        } else {
            proof {
                assert(Seq::<Seq<char>>::empty() + paragraphs_of_lines(lv.skip(i as int + 1))
                    =~= paragraphs_of_lines(lv.skip(i as int + 1)));
            }
        }
        i = i + 1;
    }
    proof {
        assert(lv.skip(i as int) =~= Seq::<Seq<char>>::empty());
        assert(str_views(r@) + paragraphs_of_lines(Seq::<Seq<char>>::empty()) =~= str_views(r@));
    }
    r
}

/// Translated paragraphs rendered back to markup, each wrapped in a
/// paragraph element.
pub open spec fn rendered_html(ps: Seq<Seq<char>>) -> Seq<char>
    decreases ps.len(),
{
    if ps.len() == 0 {
        Seq::empty()
    } else {
        rendered_html(ps.drop_last()) + "<p>"@ + ps.last() + "</p>"@
    }
}

/// Wraps each paragraph in a paragraph element and concatenates them.
pub fn render_paragraphs(ps: &Vec<String>) -> (r: String)
    ensures
        r@ == rendered_html(str_views(ps@)),
{
    let ghost pv = str_views(ps@);
    let mut out = String::new();
    let mut i: usize = 0;
    proof {
        assert(pv.take(0) =~= Seq::<Seq<char>>::empty());
        assert(out@ =~= rendered_html(pv.take(0)));
    }
    while i < ps.len()
        invariant
            pv == str_views(ps@),
            i <= ps@.len(),
            out@ == rendered_html(pv.take(i as int)),
        decreases ps@.len() - i,
    {
        proof {
            assert(pv.take(i + 1).drop_last() =~= pv.take(i as int));
            assert(pv.take(i + 1).last() == pv[i as int]);
            assert(ps@[i as int]@ == pv[i as int]);
        }
        out.append("<p>");
        out.append(ps[i].as_str());
        out.append("</p>");
        i = i + 1;
    }
    proof {
        assert(pv.take(ps@.len() as int) =~= pv);
    }
    out
}

} // verus!

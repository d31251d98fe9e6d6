//! Field extraction from an HTML document.
//!
//! The HTML parser and the selector engine are the `scraper` crate's; what
//! they return is named here and taken on trust. Everything that is done with
//! their answers is verified.

use vstd::prelude::*;
use vstd::string::*;
use vstd::utf8::encode_utf8;
use crate::text::{opt_view, spec_starts_with, starts_with, strs_view};

verus! {

/// The longest document, in bytes of UTF-8, that is handed to the parser: a
/// quarter of a gibibyte.
///
/// The parser keeps text in buffers that hold at most `u32::MAX` bytes and
/// gives up beyond that. Text can grow while it is parsed, at most threefold:
/// a NUL byte becomes the three bytes of U+FFFD. The bound stays sixteen times
/// below the buffers' limit, so that no buffer can reach it.
pub const MAX_DOCUMENT_BYTES: usize = 268_435_456;

/// A document is handed to the parser only if its UTF-8 form is no longer
/// than `MAX_DOCUMENT_BYTES`.
pub open spec fn spec_parseable(document: Seq<char>) -> bool {
    encode_utf8(document).len() <= MAX_DOCUMENT_BYTES
}

/// Tells whether `document` is short enough to be handed to the parser.
pub fn parseable(document: &str) -> (r: bool)
    ensures
        r == spec_parseable(document@),
{
    document.as_bytes().len() <= MAX_DOCUMENT_BYTES
}

/// The inner HTML of the first element of `document` that `selector`
/// matches, in the order in which the selector engine yields its matches;
/// `None` where nothing matches or where `selector` is not a selector.
pub uninterp spec fn first_inner_html(document: Seq<char>, selector: Seq<char>) -> Option<Seq<char>>;

/// For each element of `document` that `selector` matches, in the order in
/// which the selector engine yields its matches, the value of its attribute
/// `attr`, if it has one; `None` where `selector` is not a selector.
pub uninterp spec fn matched_attrs(document: Seq<char>, selector: Seq<char>, attr: Seq<char>) -> Option<Seq<Option<Seq<char>>>>;

/// A list of optional strings seen as a sequence of optional character
/// sequences.
pub open spec fn opts_view(v: Seq<Option<String>>) -> Seq<Option<Seq<char>>> {
    v.map_values(|o: Option<String>| opt_view(o))
}

/// Parses `document` with `scraper::Html::parse_document`, parses `selector`
/// with `scraper::Selector::parse`, and serialises the children of the first
/// match of `Html::select` with `ElementRef::inner_html`. The parser gives
/// up on text of more than `u32::MAX` bytes, so longer documents are left
/// out, with room to spare. The contract only gives the answer its name.
#[verifier::external_body]
fn select_first_inner_html(document: &str, selector: &str) -> (r: Option<String>)
    requires
        spec_parseable(document@),
    ensures
        opt_view(r) == first_inner_html(document@, selector@),
{
    let parsed = scraper::Selector::parse(selector).ok()?;
    let html = scraper::Html::parse_document(document);
    html.select(&parsed).next().map(|e| e.inner_html())
}

/// Parses `document` with `scraper::Html::parse_document`, parses `selector`
/// with `scraper::Selector::parse`, and reads `attr` from every match of
/// `Html::select` with `Element::attr`. The parser gives up on text of more
/// than `u32::MAX` bytes, so longer documents are left out, with room to
/// spare. The contract only gives the answer its name.
#[verifier::external_body]
fn select_attrs(document: &str, selector: &str, attr: &str) -> (r: Option<Vec<Option<String>>>)
    requires
        spec_parseable(document@),
    ensures
        match r {
            Some(v) => matched_attrs(document@, selector@, attr@) == Some(opts_view(v@)),
            None => matched_attrs(document@, selector@, attr@) is None,
        },
{
    let parsed = scraper::Selector::parse(selector).ok()?;
    let html = scraper::Html::parse_document(document);
    Some(html.select(&parsed).map(|e| e.value().attr(attr).map(|s| s.to_string())).collect())
}

/// Which single field `extract_first` looks for.
#[derive(Debug, Clone, Copy, PartialEq, Eq, Structural)]
pub enum SelectorKind {
    /// The contents of the first `title` element.
    TitleTag,
    /// The `content` attribute of the first `meta` element named `description`.
    MetaDescription,
    /// The contents of the first `p` element.
    FirstParagraph,
}

/// What `extract_first` answers, given what the selector engine answers.
pub open spec fn spec_extract_first(document: Seq<char>, kind: SelectorKind) -> Option<Seq<char>> {
    match kind {
        SelectorKind::TitleTag => first_inner_html(document, "title"@),
        SelectorKind::FirstParagraph => first_inner_html(document, "p"@),
        SelectorKind::MetaDescription => spec_first_attr(
            matched_attrs(document, "meta[name=\"description\"]"@, "content"@),
        ),
    }
}

/// The attribute of the first matched element, if there is a match and it
/// carries the attribute.
pub open spec fn spec_first_attr(matched: Option<Seq<Option<Seq<char>>>>) -> Option<Seq<char>> {
    match matched {
        Some(s) => if s.len() > 0 { s[0] } else { None },
        None => None,
    }
}

/// Takes the attribute of the first matched element out of the list of
/// matches.
pub fn first_attr(matched: Option<Vec<Option<String>>>) -> (r: Option<String>)
    ensures
        opt_view(r) == spec_first_attr(
            match matched {
                Some(v) => Some(opts_view(v@)),
                None => None,
            },
        ),
{
    match matched {
        Some(v) => {
            let mut v = v;
            if v.len() > 0 {
                v.swap_remove(0)
            } else {
                None
            }
        },
        None => None,
    }
}

/// First match for one field of `document`; absence is not an error. The
/// document must be short enough for the parser: see `parseable`.
pub fn extract_first(document: &str, kind: SelectorKind) -> (r: Option<String>)
    requires
        spec_parseable(document@),
    ensures
        opt_view(r) == spec_extract_first(document@, kind),
{
    match kind {
        SelectorKind::TitleTag => select_first_inner_html(document, "title"),
        SelectorKind::FirstParagraph => select_first_inner_html(document, "p"),
        SelectorKind::MetaDescription => first_attr(
            select_attrs(document, "meta[name=\"description\"]", "content"),
        ),
    }
}

/// A link target looks absolute when it begins with `http`.
pub open spec fn spec_looks_absolute(link: Seq<char>) -> bool {
    spec_starts_with(link, seq!['h', 't', 't', 'p'])
}

/// Tells whether a link target looks absolute.
pub fn looks_absolute(link: &str) -> (r: bool)
    ensures
        r == spec_looks_absolute(link@),
{
    proof {
        reveal_strlit("http");
        assert("http"@ =~= seq!['h', 't', 't', 'p']);
    }
    starts_with(link, "http")
}

/// The targets that are present, in order.
pub open spec fn spec_present(matched: Seq<Option<Seq<char>>>) -> Seq<Seq<char>> {
    matched.filter_map(|o: Option<Seq<char>>| o)
}

/// The targets that look absolute, in order.
pub open spec fn spec_absolute(links: Seq<Seq<char>>) -> Seq<Seq<char>> {
    links.filter(|l: Seq<char>| spec_looks_absolute(l))
}

/// Keeps, in order, the link targets that are present and look absolute.
pub fn absolute_links(matched: Vec<Option<String>>) -> (r: Vec<String>)
    ensures
        strs_view(r@) == spec_absolute(spec_present(opts_view(matched@))),
{
    let ghost all = opts_view(matched@);
    let ghost keep = |o: Option<Seq<char>>| o;
    let ghost abs = |l: Seq<char>| spec_looks_absolute(l);
    let mut out: Vec<String> = Vec::new();
    let n: usize = matched.len();
    let mut i: usize = 0;
    assert(all.take(0) =~= Seq::<Option<Seq<char>>>::empty());
    assert(strs_view(out@) =~= Seq::<Seq<char>>::empty());
    while i < n
        invariant
            i <= n,
            n == matched@.len(),
            all == opts_view(matched@),
            keep == (|o: Option<Seq<char>>| o),
            abs == (|l: Seq<char>| spec_looks_absolute(l)),
            strs_view(out@) == all.take(i as int).filter_map(keep).filter(abs),
        decreases n - i,
    {
        proof {
            all.lemma_filter_map_take_succ(keep, i as int);
        }
        let ghost before = all.take(i as int).filter_map(keep);
        match &matched[i] {
            Some(link) => {
                proof {
                    assert(all[i as int] == Some(link@));
                    assert(all.take(i + 1).filter_map(keep) =~= before.push(link@));
                    before.lemma_filter_push(link@, abs);
                }
                if looks_absolute(link.as_str()) {
                    let ghost old_out = out@;
                    out.push(link.clone());
                    assert(strs_view(out@) =~= strs_view(old_out).push(link@));
                }
            },
            None => {
                proof {
                    assert(all[i as int] is None);
                    assert(all.take(i + 1).filter_map(keep) =~= before);
                }
            },
        }
        i += 1;
    }
    assert(all.take(n as int) =~= all);
    out
}

/// What `extract_all_links` answers, given what the selector engine answers.
pub open spec fn spec_extract_all_links(document: Seq<char>) -> Seq<Seq<char>> {
    match matched_attrs(document, "a"@, "href"@) {
        Some(s) => spec_absolute(spec_present(s)),
        None => Seq::empty(),
    }
}

/// The targets of the hyperlinks of `document` that look absolute, in the
/// order in which the selector engine yields the hyperlinks. The document
/// must be short enough for the parser: see `parseable`.
pub fn extract_all_links(document: &str) -> (r: Vec<String>)
    requires
        spec_parseable(document@),
    ensures
        strs_view(r@) == spec_extract_all_links(document@),
{
    match select_attrs(document, "a", "href") {
        Some(v) => absolute_links(v),
        None => {
            let out: Vec<String> = Vec::new();
            assert(strs_view(out@) =~= Seq::<Seq<char>>::empty());
            out
        },
    }
}

/// The four fields read out of one page.
#[derive(Debug)]
pub struct PageFields {
    /// Contents of the first `title` element; empty where there is none.
    pub title: String,
    /// The page's meta description, if it has one.
    pub description: Option<String>,
    /// Contents of the first paragraph, if there is one.
    pub first_paragraph: Option<String>,
    /// Hyperlink targets that look absolute, in the order in which the
    /// selector engine yields the hyperlinks.
    pub links: Vec<String>,
}

/// `PageFields` over character sequences.
pub struct PageFieldsView {
    pub title: Seq<char>,
    pub description: Option<Seq<char>>,
    pub first_paragraph: Option<Seq<char>>,
    pub links: Seq<Seq<char>>,
}

impl View for PageFields {
    type V = PageFieldsView;

    open spec fn view(&self) -> PageFieldsView {
        PageFieldsView {
            title: self.title@,
            description: opt_view(self.description),
            first_paragraph: opt_view(self.first_paragraph),
            links: strs_view(self.links@),
        }
    }
}

/// The fields of `document`, given what the selector engine answers.
pub open spec fn spec_extract_fields(document: Seq<char>) -> PageFieldsView {
    PageFieldsView {
        title: match spec_extract_first(document, SelectorKind::TitleTag) {
            Some(t) => t,
            None => Seq::empty(),
        },
        description: spec_extract_first(document, SelectorKind::MetaDescription),
        first_paragraph: spec_extract_first(document, SelectorKind::FirstParagraph),
        links: spec_extract_all_links(document),
    }
}

/// Reads all four fields out of `document`. A field that the page lacks is
/// empty or absent; nothing here fails. The document must be short enough
/// for the parser: see `parseable`.
pub fn extract_fields(document: &str) -> (r: PageFields)
    requires
        spec_parseable(document@),
    ensures
        r@ == spec_extract_fields(document@),
{
    let title = match extract_first(document, SelectorKind::TitleTag) {
        Some(t) => t,
        None => String::new(),
    };
    let description = extract_first(document, SelectorKind::MetaDescription);
    let first_paragraph = extract_first(document, SelectorKind::FirstParagraph);
    let links = extract_all_links(document);
    PageFields { title, description, first_paragraph, links }
}

} // verus!

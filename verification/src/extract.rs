//! The source extractor: the chapter HTML is parsed, the elements matching
//! the configured tag are enumerated in document order, the reference
//! attribute of each is read (elements without it are skipped), and each
//! reference is resolved; the accepted URLs keep the ordinal index of the
//! reference they came from.

use vstd::prelude::*;

use crate::resolve::spec_resolve;

verus! {

/// What scraper extracts from a document: for `html` parsed as a fragment,
/// the values of attribute `attr` on the elements matching the selector
/// `tag`, in document order, skipping elements without the attribute.
/// `None` when `html`, `tag` or `attr` is not valid UTF-8 or `tag` is not a
/// valid selector. A function of the three byte strings alone.
pub uninterp spec fn selected_attrs_of(html: Seq<u8>, tag: Seq<u8>, attr: Seq<u8>) -> Option<
    Seq<Seq<u8>>,
>;

/// The exec selection result `r` carries exactly the attribute values `m`.
pub open spec fn selection_matches(r: Option<Vec<Vec<u8>>>, m: Option<Seq<Seq<u8>>>) -> bool {
    match (r, m) {
        (Option::None, Option::None) => true,
        (Option::Some(v), Option::Some(ms)) => crate::bytes::views_of(v@) == ms,
        _ => false,
    }
}

/// Relies on scraper's `Html::parse_fragment`, `Selector::parse`,
/// `Html::select` and `ElementRef::attr`: the attribute values of the
/// matching elements, in document order, depend on the document, the
/// selector and the attribute name alone.
#[verifier::external_body]
fn select_attr_values(html: &[u8], tag: &[u8], attr: &[u8]) -> (r: Option<Vec<Vec<u8>>>)
    ensures
        selection_matches(r, selected_attrs_of(html@, tag@, attr@)),
{
    let html_text = core::str::from_utf8(html).ok()?;
    let tag_text = core::str::from_utf8(tag).ok()?;
    let attr_text = core::str::from_utf8(attr).ok()?;
    let document = scraper::Html::parse_fragment(html_text);
    let selector = scraper::Selector::parse(tag_text).ok()?;
    let mut values: Vec<Vec<u8>> = Vec::new();
    for element in document.select(&selector) {
        if let Some(value) = element.attr(attr_text) {
            values.push(value.as_bytes().to_vec());
        }
    }
    Some(values)
}

/// One accepted image URL, tagged with the ordinal index of the reference it
/// was resolved from.
pub struct ResolvedImageUrl {
    pub ordinal_index: usize,
    pub absolute_url: Vec<u8>,
}

impl View for ResolvedImageUrl {
    type V = (int, Seq<u8>);

    open spec fn view(&self) -> (int, Seq<u8>) {
        (self.ordinal_index as int, self.absolute_url@)
    }
}

/// The accepted resolutions of the references `attrs` on page `page`, in
/// order, each keeping the ordinal index of its reference, counted from
/// `base`.
pub open spec fn spec_accepted(page: Seq<u8>, attrs: Seq<Seq<u8>>, allowed: Seq<u8>, base: int) -> Seq<
    (int, Seq<u8>),
>
    decreases attrs.len(),
{
    if attrs.len() == 0 {
        Seq::empty()
    } else {
        let rest = spec_accepted(page, attrs.skip(1), allowed, base + 1);
        match spec_resolve(page, attrs[0], allowed) {
            Option::Some(u) => seq![(base, u)] + rest,
            Option::None => rest,
        }
    }
}

/// What extraction returns for a chapter page: the ordered accepted image
/// URLs, or `None` when the document, tag or attribute cannot be used for
/// selection at all.
pub open spec fn spec_extract(
    page: Seq<u8>,
    html: Seq<u8>,
    tag: Seq<u8>,
    attr: Seq<u8>,
    allowed: Seq<u8>,
) -> Option<Seq<(int, Seq<u8>)>> {
    match selected_attrs_of(html, tag, attr) {
        Option::Some(attrs) => Option::Some(spec_accepted(page, attrs, allowed, 0)),
        Option::None => Option::None,
    }
}

/// The views of the elements of a vector of resolved URLs.
pub open spec fn url_views_of(v: Seq<ResolvedImageUrl>) -> Seq<(int, Seq<u8>)> {
    v.map_values(|x: ResolvedImageUrl| x@)
}

/// The exec extraction result `r` carries exactly the sequence `m`.
pub open spec fn extraction_matches(r: Option<Vec<ResolvedImageUrl>>, m: Option<Seq<(int, Seq<u8>)>>) -> bool {
    match (r, m) {
        (Option::None, Option::None) => true,
        (Option::Some(v), Option::Some(ms)) => url_views_of(v@) == ms,
        _ => false,
    }
}

/// Extract the ordered accepted image URLs of one chapter page.
pub fn extract_image_urls(
    page_url: &[u8],
    html: &[u8],
    tag: &[u8],
    attr: &[u8],
    allowed_host: &[u8],
) -> (r: Option<Vec<ResolvedImageUrl>>)
    ensures
        extraction_matches(r, spec_extract(page_url@, html@, tag@, attr@, allowed_host@)),
{
    let attrs = match select_attr_values(html, tag, attr) {
        Some(a) => a,
        None => {
            return None;
        },
    };
    let ghost attrsm = crate::bytes::views_of(attrs@);
    let mut out: Vec<ResolvedImageUrl> = Vec::new();
    let mut i: usize = 0;
    proof {
        assert(attrsm.skip(0) =~= attrsm);
        assert(url_views_of(out@) + spec_accepted(page_url@, attrsm, allowed_host@, 0)
            =~= spec_accepted(page_url@, attrsm, allowed_host@, 0));
    }
    while i < attrs.len()
        invariant
            i <= attrs@.len(),
            attrsm == crate::bytes::views_of(attrs@),
            spec_accepted(page_url@, attrsm, allowed_host@, 0) == url_views_of(out@)
                + spec_accepted(page_url@, attrsm.skip(i as int), allowed_host@, i as int),
        decreases attrs@.len() - i,
    {
        let ghost out0 = out@;
        match crate::resolve::resolve(page_url, attrs[i].as_slice(), allowed_host) {
            Some(u) => {
                let item = ResolvedImageUrl { ordinal_index: i, absolute_url: u };
                out.push(item);
                proof {
                    assert(url_views_of(out@) =~= url_views_of(out0) + seq![(i as int, item.absolute_url@)]);
                }
            },
            None => {},
        }
        proof {
            let tail = attrsm.skip(i as int);
            assert(tail[0] == attrsm[i as int]);
            assert(tail.skip(1) =~= attrsm.skip(i as int + 1));
            assert(url_views_of(out@) + spec_accepted(
                page_url@,
                attrsm.skip(i as int + 1),
                allowed_host@,
                i as int + 1,
            ) =~= spec_accepted(page_url@, attrsm, allowed_host@, 0));
        }
        i = i + 1;
    }
    proof {
        assert(attrsm.skip(attrs@.len() as int) =~= Seq::<Seq<u8>>::empty());
        assert(url_views_of(out@) + Seq::<(int, Seq<u8>)>::empty() =~= url_views_of(out@));
    }
    Some(out)
}

/// Every extracted URL satisfies the resolved-URL invariant: it parses as a
/// URL with the secure scheme and the allowed image host.
pub proof fn lemma_extracted_url_invariant(
    page: Seq<u8>,
    attrs: Seq<Seq<u8>>,
    allowed: Seq<u8>,
    base: int,
)
    ensures
        forall|k: int|
            0 <= k < spec_accepted(page, attrs, allowed, base).len() ==> (crate::resolve::url_parse_of(
                #[trigger] spec_accepted(page, attrs, allowed, base)[k].1,
            ) matches Option::Some(parts) && parts.0 == crate::resolve::https_scheme() && parts.1
                == Option::Some(allowed)),
    decreases attrs.len(),
{
    if attrs.len() == 0 {
    } else {
        lemma_extracted_url_invariant(page, attrs.skip(1), allowed, base + 1);
        crate::resolve::lemma_resolved_url_invariant(page, attrs[0], allowed);
        let whole = spec_accepted(page, attrs, allowed, base);
        let rest = spec_accepted(page, attrs.skip(1), allowed, base + 1);
        assert forall|k: int| #![trigger whole[k]] 0 <= k < whole.len() implies (
        crate::resolve::url_parse_of(whole[k].1) matches Option::Some(parts) && parts.0
            == crate::resolve::https_scheme() && parts.1 == Option::Some(allowed)) by {
            match crate::resolve::spec_resolve(page, attrs[0], allowed) {
                Option::Some(u) => {
                    if k > 0 {
                        assert(whole[k] == rest[k - 1]);
                    }
                },
                Option::None => {
                    assert(whole[k] == rest[k]);
                },
            }
        }
    }
}

/// Extraction is deterministic: the extracted sequence is a function of the
/// page URL, the document, the tag, the attribute and the allowed host, so
/// re-parsing identical HTML yields an identical ordered URL sequence.
pub proof fn lemma_extract_deterministic(
    r1: Option<Vec<ResolvedImageUrl>>,
    r2: Option<Vec<ResolvedImageUrl>>,
    page: Seq<u8>,
    html: Seq<u8>,
    tag: Seq<u8>,
    attr: Seq<u8>,
    allowed: Seq<u8>,
)
    requires
        extraction_matches(r1, spec_extract(page, html, tag, attr, allowed)),
        extraction_matches(r2, spec_extract(page, html, tag, attr, allowed)),
    ensures
        r1 is Some <==> r2 is Some,
        r1 matches Option::Some(v1) ==> (r2 matches Option::Some(v2) && url_views_of(v1@)
            == url_views_of(v2@)),
{
}

} // verus!

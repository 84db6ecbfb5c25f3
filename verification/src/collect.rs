//! Turning one fetched document into fully resolved link records.
//!
//! Given the document's own absolute URL and its HTML text, the collector
//! extracts the attribute-based occurrences (bare text URLs are deliberately
//! left out on this path), resolves each against the document's URL, and
//! returns the records in document order, without deduplication. Any
//! occurrence that cannot be resolved fails the whole collection: no partial
//! result is ever returned. Fetching the text is the caller's part; the
//! fetch-failure error is carried here so that a caller can surface it under
//! the same type.

use vstd::prelude::*;

use crate::extract::RawLinkView;
use crate::extract::extract_links;
use crate::extract::occ_views;
use crate::extract::occurrences;
use crate::uri::Uri;
use crate::uri::UriView;
use crate::uri::decompose_url;
use crate::uri::decomposition;
use crate::uri::parses_as_absolute;
use crate::uri::resolvable;
use crate::uri::resolve_reference;
use crate::uri::resolved_uri;
use crate::uri::view_opt_str;

verus! {

/// One resolved link: the absolute target, the address of the document it
/// was found in, and the element/attribute provenance of the occurrence.
#[derive(Debug, PartialEq, Eq)]
pub struct Link {
    pub url: Uri,
    pub source_document_url: Uri,
    pub html_element: Option<String>,
    pub element_attribute: Option<String>,
}

/// The mathematical shape of a `Link`.
pub ghost struct LinkView {
    pub url: UriView,
    pub source_document_url: UriView,
    pub html_element: Option<Seq<char>>,
    pub element_attribute: Option<Seq<char>>,
}

impl View for Link {
    type V = LinkView;

    open spec fn view(&self) -> LinkView {
        LinkView {
            url: self.url@,
            source_document_url: self.source_document_url@,
            html_element: view_opt_str(self.html_element),
            element_attribute: view_opt_str(self.element_attribute),
        }
    }
}

/// The views of a sequence of link records.
pub open spec fn link_views(v: Seq<Link>) -> Seq<LinkView> {
    v.map_values(|l: Link| l@)
}

/// Why a collection call failed. The document address was no valid absolute
/// URL; the fetch of the document failed (reported by the caller who fetched);
/// or an occurrence could neither be parsed as absolute nor resolved against
/// the document's address.
#[derive(Debug, Clone, Copy, PartialEq, Eq, Structural)]
pub enum CollectError {
    InvalidSourceUrl,
    FetchFailed,
    UnresolvableReference,
}

/// The occurrences the collector works on: attribute-based only.
pub open spec fn doc_occurrences(html: Seq<char>) -> Seq<RawLinkView> {
    occurrences(html, false)
}

/// Whether every occurrence of the sequence resolves against the base.
pub open spec fn all_resolvable(base: Seq<char>, occs: Seq<RawLinkView>) -> bool {
    forall|k: int| 0 <= k < occs.len() ==> resolvable(base, (#[trigger] occs[k]).text)
}

/// The record one occurrence turns into.
pub open spec fn link_of(base: Seq<char>, occ: RawLinkView) -> LinkView {
    LinkView {
        url: resolved_uri(base, occ.text),
        source_document_url: decomposition(base),
        html_element: occ.element,
        element_attribute: occ.attribute,
    }
}

/// The full record sequence of one document, in document order.
pub open spec fn collected(base: Seq<char>, html: Seq<char>) -> Seq<LinkView> {
    doc_occurrences(html).map_values(|o: RawLinkView| link_of(base, o))
}

fn clone_opt_string(o: &Option<String>) -> (r: Option<String>)
    ensures
        r == *o,
{
    match o {
        Some(s) => Some(s.clone()),
        None => None,
    }
}

/// Resolve every occurrence of one fetched document against the document's
/// own address, keeping document order and every duplicate. The call succeeds
/// exactly when the address is a valid absolute URL and every occurrence
/// resolves; otherwise it fails as a whole, and the error says which of the
/// two conditions broke.
pub fn collect_from_content(source_url: &str, html: &str) -> (r: Result<Vec<Link>, CollectError>)
    ensures
        r is Ok <==> (parses_as_absolute(source_url@) && all_resolvable(
            source_url@,
            doc_occurrences(html@),
        )),
        (r matches Ok(links) ==> link_views(links@) == collected(source_url@, html@)),
        (r matches Err(e) ==> ((e == CollectError::InvalidSourceUrl) <==> !parses_as_absolute(
            source_url@,
        )) && ((e == CollectError::UnresolvableReference) <==> (parses_as_absolute(source_url@)
            && !all_resolvable(source_url@, doc_occurrences(html@))))),
{
    let probe = decompose_url(source_url);
    if probe.is_none() {
        return Err(CollectError::InvalidSourceUrl);
    }
    let occs = extract_links(html, false);
    let mut links: Vec<Link> = Vec::new();
    let mut k: usize = 0;
    while k < occs.len()
        invariant
            k <= occs@.len(),
            occ_views(occs@) == doc_occurrences(html@),
            parses_as_absolute(source_url@),
            forall|m: int|
                0 <= m < k ==> resolvable(source_url@, (#[trigger] occ_views(occs@)[m]).text),
            links@.len() == k,
            forall|m: int|
                0 <= m < k ==> link_views(links@)[m] == link_of(
                    source_url@,
                    occ_views(occs@)[m],
                ),
        decreases occs@.len() - k,
    {
        let occ = &occs[k];
        assert(occ_views(occs@)[k as int] == occs@[k as int]@);
        let resolved = resolve_reference(occ.text.as_str(), source_url);
        match resolved {
            None => {
                assert(!resolvable(source_url@, occ_views(occs@)[k as int].text));
                assert(!all_resolvable(source_url@, doc_occurrences(html@)));
                return Err(CollectError::UnresolvableReference);
            },
            Some(u) => {
                let src = match decompose_url(source_url) {
                    Some(su) => su,
                    None => {
                        proof {
                            assert(false);
                        }
                        return Err(CollectError::InvalidSourceUrl);
                    },
                };
                let link = Link {
                    url: u,
                    source_document_url: src,
                    html_element: clone_opt_string(&occ.element),
                    element_attribute: clone_opt_string(&occ.attribute),
                };
                assert(link@ == link_of(source_url@, occ_views(occs@)[k as int]));
                proof {
                    assert(link_views(links@.push(link)) =~= link_views(links@).push(link@));
                }
                links.push(link);
            },
        }
        k = k + 1;
    }
    assert(link_views(links@) =~= collected(source_url@, html@));
    Ok(links)
}

} // verus!

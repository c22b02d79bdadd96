//! The URL resolver: a candidate image reference, absolute or written in the
//! relative parent-directory-marker convention, is resolved against its
//! containing page URL into an accepted absolute URL or rejected.
//!
//! An absolute reference is accepted exactly when it parses as a URL with the
//! secure scheme and the allowed image host. A reference that does not parse
//! is read as zero or more leading `../` markers followed by a relative path;
//! the marker count plus one trailing segments of the page URL are discarded,
//! the rest is reassembled with the marker-stripped path appended, and the
//! result is accepted exactly when it parses with the secure scheme and the
//! allowed host: every accepted URL, from either path, has the secure scheme
//! and the allowed image host.

use vstd::prelude::*;

use crate::bytes::{
    bytes_eq, join_segments, spec_join, spec_split, split_segments, subrange_vec, views_of, SLASH,
};

verus! {

/// Byte value of `.`, the character of the parent-directory marker.
pub const DOT: u8 = 46;

/// What `url::Url::parse` extracts from a byte string: `None` when the bytes
/// are not valid UTF-8 or do not parse as an absolute URL, otherwise the
/// URL's scheme together with its host, if it has one. Parsing is a function
/// of the input bytes alone.
pub uninterp spec fn url_parse_of(s: Seq<u8>) -> Option<(Seq<u8>, Option<Seq<u8>>)>;

/// The exec parse result `r` carries exactly the parts `m`.
pub open spec fn url_parts_match(
    r: Option<(Vec<u8>, Option<Vec<u8>>)>,
    m: Option<(Seq<u8>, Option<Seq<u8>>)>,
) -> bool {
    match (r, m) {
        (Option::None, Option::None) => true,
        (Option::Some(rp), Option::Some(mp)) => rp.0@ == mp.0 && match (rp.1, mp.1) {
            (Option::None, Option::None) => true,
            (Option::Some(rh), Option::Some(mh)) => rh@ == mh,
            _ => false,
        },
        _ => false,
    }
}

/// Relies on `url::Url::parse` and its `scheme` and `host_str` accessors:
/// whether bytes parse as an absolute URL, and the scheme and host they
/// parse to, depend on the bytes alone; bytes that are not valid UTF-8 do
/// not parse.
#[verifier::external_body]
fn parse_url_parts(s: &[u8]) -> (r: Option<(Vec<u8>, Option<Vec<u8>>)>)
    ensures
        url_parts_match(r, url_parse_of(s@)),
{
    let text = match core::str::from_utf8(s) {
        Ok(t) => t,
        Err(_) => return None,
    };
    match url::Url::parse(text) {
        Ok(u) => Some((u.scheme().as_bytes().to_vec(), u.host_str().map(|h| h.as_bytes().to_vec()))),
        Err(_) => None,
    }
}

/// The bytes of the secure transport scheme, `https`.
pub open spec fn https_scheme() -> Seq<u8> {
    seq![104u8, 116u8, 116u8, 112u8, 115u8]
}

/// Builds the byte string of the secure transport scheme.
pub fn https_bytes() -> (r: Vec<u8>)
    ensures
        r@ == https_scheme(),
{
    let mut r: Vec<u8> = Vec::new();
    r.push(104);
    r.push(116);
    r.push(116);
    r.push(112);
    r.push(115);
    proof {
        assert(r@ =~= https_scheme());
    }
    r
}

/// Number of leading `../` markers of `s`.
pub open spec fn leading_markers(s: Seq<u8>) -> nat
    decreases s.len(),
{
    if s.len() >= 3 && s[0] == DOT && s[1] == DOT && s[2] == SLASH {
        1 + leading_markers(s.skip(3))
    } else {
        0
    }
}

/// `s` with every `../` marker removed, scanning left to right.
pub open spec fn strip_markers(s: Seq<u8>) -> Seq<u8>
    decreases s.len(),
{
    if s.len() >= 3 && s[0] == DOT && s[1] == DOT && s[2] == SLASH {
        strip_markers(s.skip(3))
    } else if s.len() == 0 {
        Seq::empty()
    } else {
        seq![s[0]] + strip_markers(s.skip(1))
    }
}

/// Whether a `../` marker starts at index `i` of `s`.
fn marker_at(s: &[u8], i: usize) -> (r: bool)
    requires
        i <= s@.len(),
    ensures
        r == (s@.len() - i >= 3 && s@[i as int] == DOT && s@[i + 1] == DOT && s@[i + 2] == SLASH),
        s@.len() <= usize::MAX,
{
    s.len() - i >= 3 && s[i] == DOT && s[i + 1] == DOT && s[i + 2] == SLASH
}

/// Count the leading `../` markers of `s` from index `from` on.
fn count_markers_from(s: &[u8], from: usize) -> (r: usize)
    requires
        from <= s@.len(),
    ensures
        r == leading_markers(s@.skip(from as int)),
        3 * r <= s@.len() - from,
    decreases s@.len() - from,
{
    proof {
        assert(s@.skip(from as int).len() == s@.len() - from);
        assert forall|k: int| 0 <= k < s@.len() - from implies s@.skip(from as int)[k] == s@[from
            + k] by {}
    }
    if marker_at(s, from) {
        let n = count_markers_from(s, from + 3);
        proof {
            assert(s@.skip(from as int).skip(3) =~= s@.skip(from as int + 3));
        }
        n + 1
    } else {
        0
    }
}

/// `s` from index `from` on, with every `../` marker removed.
fn strip_markers_from(s: &[u8], from: usize) -> (r: Vec<u8>)
    requires
        from <= s@.len(),
    ensures
        r@ == strip_markers(s@.skip(from as int)),
    decreases s@.len() - from,
{
    proof {
        assert forall|k: int| 0 <= k < s@.len() - from implies s@.skip(from as int)[k] == s@[from
            + k] by {}
    }
    if marker_at(s, from) {
        let r = strip_markers_from(s, from + 3);
        proof {
            assert(s@.skip(from as int).skip(3) =~= s@.skip(from as int + 3));
        }
        r
    } else if from == s.len() {
        let r: Vec<u8> = Vec::new();
        proof {
            assert(r@ =~= strip_markers(s@.skip(from as int)));
        }
        r
    } else {
        let mut r = strip_markers_from(s, from + 1);
        r.insert(0, s[from]);
        proof {
            assert(s@.skip(from as int).skip(1) =~= s@.skip(from as int + 1));
            assert(r@ =~= seq![s@[from as int]] + strip_markers(s@.skip(from as int + 1)));
        }
        r
    }
}

/// The relative-convention reassembly of `raw` against `page`: discard one
/// trailing segment of `page` for each leading marker, and one more for the
/// page's own final segment; then append `/` and the marker-stripped
/// reference. `None` when `page` has too few segments.
pub open spec fn spec_assemble_relative(page: Seq<u8>, raw: Seq<u8>) -> Option<Seq<u8>> {
    let n = leading_markers(raw);
    let segs = spec_split(page);
    if segs.len() < n + 1 {
        Option::None
    } else {
        Option::Some(
            spec_join(segs.take(segs.len() - (n + 1))) + seq![SLASH] + strip_markers(raw),
        )
    }
}

/// An optional byte vector carries exactly the optional byte string `m`.
pub open spec fn opt_bytes_match(r: Option<Vec<u8>>, m: Option<Seq<u8>>) -> bool {
    match (r, m) {
        (Option::None, Option::None) => true,
        (Option::Some(v), Option::Some(ms)) => v@ == ms,
        _ => false,
    }
}

/// Reassemble a non-URL reference against the page URL by the
/// parent-directory-marker convention.
pub fn assemble_relative(page_url: &[u8], raw_ref: &[u8]) -> (r: Option<Vec<u8>>)
    ensures
        opt_bytes_match(r, spec_assemble_relative(page_url@, raw_ref@)),
{
    let n = count_markers_from(raw_ref, 0);
    let mut segs = split_segments(page_url, 0);
    proof {
        assert(page_url@.skip(0) =~= page_url@);
        assert(raw_ref@.skip(0) =~= raw_ref@);
    }
    if segs.len() <= n {
        return None;
    }
    let keep = segs.len() - n - 1;
    segs.truncate(keep);
    proof {
        assert(views_of(segs@) =~= spec_split(page_url@).take(keep as int));
    }
    let mut out = join_segments(&segs);
    out.push(SLASH);
    let stripped = strip_markers_from(raw_ref, 0);
    crate::bytes::append_bytes(&mut out, stripped.as_slice());
    proof {
        assert(out@ =~= spec_join(spec_split(page_url@).take(keep as int)) + seq![SLASH]
            + strip_markers(raw_ref@));
    }
    Some(out)
}

/// What resolution returns for a reference `raw` on page `page` with the
/// allowed image host `allowed`: the accepted absolute URL, or `None` for a
/// rejected reference.
pub open spec fn spec_resolve(page: Seq<u8>, raw: Seq<u8>, allowed: Seq<u8>) -> Option<Seq<u8>> {
    match url_parse_of(raw) {
        Option::Some(parts) => if parts.0 == https_scheme() && parts.1 == Option::Some(allowed) {
            Option::Some(raw)
        } else {
            Option::None
        },
        Option::None => match spec_assemble_relative(page, raw) {
            Option::None => Option::None,
            Option::Some(assembled) => match url_parse_of(assembled) {
                Option::Some(parts) => if parts.0 == https_scheme() && parts.1 == Option::Some(
                    allowed,
                ) {
                    Option::Some(assembled)
                } else {
                    Option::None
                },
                Option::None => Option::None,
            },
        },
    }
}

/// Resolve one candidate image reference against its containing page URL,
/// accepting only references on the allowed image host.
pub fn resolve(page_url: &[u8], raw_ref: &[u8], allowed_host: &[u8]) -> (r: Option<Vec<u8>>)
    ensures
        opt_bytes_match(r, spec_resolve(page_url@, raw_ref@, allowed_host@)),
{
    match parse_url_parts(raw_ref) {
        Some(parts) => {
            let https = https_bytes();
            let scheme_ok = bytes_eq(parts.0.as_slice(), https.as_slice());
            let host_ok = match &parts.1 {
                Some(h) => bytes_eq(h.as_slice(), allowed_host),
                None => false,
            };
            if scheme_ok && host_ok {
                let copy = subrange_vec(raw_ref, 0, raw_ref.len());
                proof {
                    assert(copy@ =~= raw_ref@);
                }
                Some(copy)
            } else {
                None
            }
        },
        None => {
            match assemble_relative(page_url, raw_ref) {
                None => None,
                Some(assembled) => {
                    match parse_url_parts(assembled.as_slice()) {
                        Some(parts) => {
                            let https = https_bytes();
                            let scheme_ok = bytes_eq(parts.0.as_slice(), https.as_slice());
                            let host_ok = match &parts.1 {
                                Some(h) => bytes_eq(h.as_slice(), allowed_host),
                                None => false,
                            };
                            if scheme_ok && host_ok {
                                Some(assembled)
                            } else {
                                None
                            }
                        },
                        None => None,
                    }
                },
            }
        },
    }
}

/// An absolute reference with the secure scheme and the allowed host is
/// accepted unchanged.
pub proof fn lemma_absolute_accepted(page: Seq<u8>, raw: Seq<u8>, allowed: Seq<u8>)
    requires
        url_parse_of(raw) matches Option::Some(parts) && parts.0 == https_scheme() && parts.1
            == Option::Some(allowed),
    ensures
        spec_resolve(page, raw, allowed) == Option::Some(raw),
{
}

/// An absolute reference without the secure scheme, or with a host other
/// than the allowed one, is rejected.
pub proof fn lemma_absolute_rejected(page: Seq<u8>, raw: Seq<u8>, allowed: Seq<u8>)
    requires
        url_parse_of(raw) matches Option::Some(parts) && !(parts.0 == https_scheme() && parts.1
            == Option::Some(allowed)),
    ensures
        spec_resolve(page, raw, allowed) is None,
{
}

/// Every accepted resolution parses as a URL with the secure scheme and the
/// allowed host: the invariant of every resolved image URL.
pub proof fn lemma_resolved_url_invariant(page: Seq<u8>, raw: Seq<u8>, allowed: Seq<u8>)
    ensures
        spec_resolve(page, raw, allowed) matches Option::Some(u) ==> (url_parse_of(u)
            matches Option::Some(parts) && parts.0 == https_scheme() && parts.1 == Option::Some(
            allowed,
        )),
{
}

} // verus!

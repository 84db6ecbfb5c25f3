//! Scanning HTML markup for link references.
//!
//! The scanner makes a single pass over the document's characters. Inside a
//! tag it reads quoted attribute values and keeps those whose attribute name
//! carries a URL (`href`, `src`, `action`, `cite`, `poster`, `data`); outside
//! tags it can, on request, also keep bare `http://` / `https://` URLs found
//! in text. Malformed markup never fails the scan: what does not match the
//! grammar is stepped over. The grammar is written down as the recursive
//! specification functions `scan` and `scan_tag`; the executable scanner is
//! proved to return exactly that sequence, in document order.

use vstd::prelude::*;
use vstd::string::StrSliceExecFns;

use crate::uri::view_opt_str;

verus! {

/// One discovered reference: the literal text as it stood in the markup, the
/// enclosing element's name, and the attribute the text was read from. The
/// element and attribute are absent for a bare URL found in text content.
#[derive(Debug, PartialEq, Eq)]
pub struct RawLink {
    pub text: String,
    pub element: Option<String>,
    pub attribute: Option<String>,
}

/// The mathematical shape of a `RawLink`.
pub ghost struct RawLinkView {
    pub text: Seq<char>,
    pub element: Option<Seq<char>>,
    pub attribute: Option<Seq<char>>,
}

impl View for RawLink {
    type V = RawLinkView;

    open spec fn view(&self) -> RawLinkView {
        RawLinkView {
            text: self.text@,
            element: view_opt_str(self.element),
            attribute: view_opt_str(self.attribute),
        }
    }
}

/// The views of a sequence of occurrence records.
pub open spec fn occ_views(v: Seq<RawLink>) -> Seq<RawLinkView> {
    v.map_values(|l: RawLink| l@)
}

pub open spec fn is_letter(c: char) -> bool {
    (('a' as u32) <= (c as u32) && (c as u32) <= ('z' as u32)) || (('A' as u32) <= (c as u32)
        && (c as u32) <= ('Z' as u32))
}

pub open spec fn is_digit(c: char) -> bool {
    ('0' as u32) <= (c as u32) && (c as u32) <= ('9' as u32)
}

/// Characters allowed in element and attribute names.
pub open spec fn is_name_char(c: char) -> bool {
    is_letter(c) || is_digit(c) || c == '-' || c == '_'
}

/// Characters that end a bare URL in text content.
pub open spec fn is_url_stop(c: char) -> bool {
    c == ' ' || c == '\n' || c == '\t' || c == '\r' || c == '<' || c == '>' || c == '"' || c
        == '\''
}

/// Attribute names whose value is a URL reference.
pub open spec fn spec_is_url_attr(n: Seq<char>) -> bool {
    ||| n == seq!['h', 'r', 'e', 'f']
    ||| n == seq!['s', 'r', 'c']
    ||| n == seq!['a', 'c', 't', 'i', 'o', 'n']
    ||| n == seq!['c', 'i', 't', 'e']
    ||| n == seq!['p', 'o', 's', 't', 'e', 'r']
    ||| n == seq!['d', 'a', 't', 'a']
}

/// Whether a bare URL begins at position `i`: `http://` or `https://`.
pub open spec fn starts_http(s: Seq<char>, i: int) -> bool {
    &&& 0 <= i
    &&& i + 7 <= s.len()
    &&& s[i] == 'h' && s[i + 1] == 't' && s[i + 2] == 't' && s[i + 3] == 'p'
    &&& ((s[i + 4] == ':' && s[i + 5] == '/' && s[i + 6] == '/') || (i + 8 <= s.len() && s[i + 4]
        == 's' && s[i + 5] == ':' && s[i + 6] == '/' && s[i + 7] == '/'))
}

/// The first position at or after `j` that is past the end or does not hold a
/// name character.
pub open spec fn name_end(s: Seq<char>, j: int) -> int
    decreases s.len() - j,
{
    if !(0 <= j < s.len()) {
        j
    } else if is_name_char(s[j]) {
        name_end(s, j + 1)
    } else {
        j
    }
}

/// The first position at or after `k` that is past the end or holds the
/// closing quote.
pub open spec fn quote_end(s: Seq<char>, k: int, q: char) -> int
    decreases s.len() - k,
{
    if !(0 <= k < s.len()) {
        k
    } else if s[k] == q {
        k
    } else {
        quote_end(s, k + 1, q)
    }
}

/// The first position at or after `k` that is past the end or holds a
/// character that ends a bare URL.
pub open spec fn url_end(s: Seq<char>, k: int) -> int
    decreases s.len() - k,
{
    if !(0 <= k < s.len()) {
        k
    } else if is_url_stop(s[k]) {
        k
    } else {
        url_end(s, k + 1)
    }
}

pub proof fn lemma_name_end(s: Seq<char>, j: int)
    requires
        0 <= j <= s.len(),
    ensures
        j <= name_end(s, j) <= s.len(),
    decreases s.len() - j,
{
    if j < s.len() && is_name_char(s[j]) {
        lemma_name_end(s, j + 1);
    }
}

pub proof fn lemma_quote_end(s: Seq<char>, k: int, q: char)
    requires
        0 <= k <= s.len(),
    ensures
        k <= quote_end(s, k, q) <= s.len(),
    decreases s.len() - k,
{
    if k < s.len() && s[k] != q {
        lemma_quote_end(s, k + 1, q);
    }
}

pub proof fn lemma_url_end(s: Seq<char>, k: int)
    requires
        0 <= k <= s.len(),
    ensures
        k <= url_end(s, k) <= s.len(),
    decreases s.len() - k,
{
    if k < s.len() && !is_url_stop(s[k]) {
        lemma_url_end(s, k + 1);
    }
}

/// The occurrences found inside one tag, scanning from `j` (just past the
/// element name), and the position just past the tag. A quoted value of a
/// URL-bearing attribute is an occurrence when it is non-empty; everything
/// else inside the tag is stepped over; an unterminated tag ends the scan.
pub open spec fn scan_tag(s: Seq<char>, el: Seq<char>, j: int) -> (Seq<RawLinkView>, int)
    decreases s.len() - j,
{
    if !(0 <= j < s.len()) {
        (Seq::<RawLinkView>::empty(), j)
    } else if s[j] == '>' {
        (Seq::<RawLinkView>::empty(), j + 1)
    } else if is_name_char(s[j]) {
        let ne = name_end(s, j + 1);
        let name = s.subrange(j, ne);
        if ne + 1 < s.len() && s[ne] == '=' && (s[ne + 1] == '"' || s[ne + 1] == '\'') {
            let ve = quote_end(s, ne + 2, s[ne + 1]);
            let cont = if ve < s.len() {
                ve + 1
            } else {
                ve
            };
            proof {
                lemma_name_end(s, j + 1);
                lemma_quote_end(s, ne + 2, s[ne + 1]);
            }
            let rest = scan_tag(s, el, cont);
            if spec_is_url_attr(name) && ne + 2 < ve {
                (
                    seq![
                        RawLinkView {
                            text: s.subrange(ne + 2, ve),
                            element: Some(el),
                            attribute: Some(name),
                        },
                    ] + rest.0,
                    rest.1,
                )
            } else {
                rest
            }
        } else {
            proof {
                lemma_name_end(s, j + 1);
            }
            scan_tag(s, el, ne)
        }
    } else {
        scan_tag(s, el, j + 1)
    }
}

pub proof fn lemma_scan_tag_bounds(s: Seq<char>, el: Seq<char>, j: int)
    requires
        0 <= j <= s.len(),
    ensures
        j <= scan_tag(s, el, j).1 <= s.len(),
    decreases s.len() - j,
{
    if 0 <= j < s.len() {
        if s[j] == '>' {
        } else if is_name_char(s[j]) {
            lemma_name_end(s, j + 1);
            let ne = name_end(s, j + 1);
            if ne + 1 < s.len() && s[ne] == '=' && (s[ne + 1] == '"' || s[ne + 1] == '\'') {
                lemma_quote_end(s, ne + 2, s[ne + 1]);
                let ve = quote_end(s, ne + 2, s[ne + 1]);
                let cont = if ve < s.len() {
                    ve + 1
                } else {
                    ve
                };
                lemma_scan_tag_bounds(s, el, cont);
            } else {
                lemma_scan_tag_bounds(s, el, ne);
            }
        } else {
            lemma_scan_tag_bounds(s, el, j + 1);
        }
    }
}

/// The ordered sequence of occurrences found from position `i` to the end.
/// A `<` followed by a letter opens a tag, whose attributes are read by
/// `scan_tag`; outside tags, when `include_text` is set, a bare URL beginning
/// with `http://` or `https://` runs to the first stopping character; any
/// other character is stepped over.
pub open spec fn scan(s: Seq<char>, include_text: bool, i: int) -> Seq<RawLinkView>
    decreases s.len() - i,
{
    if !(0 <= i < s.len()) {
        Seq::<RawLinkView>::empty()
    } else if s[i] == '<' && i + 1 < s.len() && is_letter(s[i + 1]) {
        let ne = name_end(s, i + 2);
        let el = s.subrange(i + 1, ne);
        let a = scan_tag(s, el, ne);
        proof {
            lemma_name_end(s, i + 2);
            lemma_scan_tag_bounds(s, el, ne);
        }
        a.0 + scan(s, include_text, a.1)
    } else if include_text && starts_http(s, i) {
        let ue = url_end(s, i + 1);
        proof {
            lemma_url_end(s, i + 1);
        }
        seq![RawLinkView { text: s.subrange(i, ue), element: None, attribute: None }] + scan(
            s,
            include_text,
            ue,
        )
    } else {
        scan(s, include_text, i + 1)
    }
}

/// All occurrences of one document, in document order.
pub open spec fn occurrences(s: Seq<char>, include_text: bool) -> Seq<RawLinkView> {
    scan(s, include_text, 0)
}

/// Extraction is deterministic and restartable: two runs over the same
/// document with the same flag setting describe the same sequence of
/// occurrences.
pub proof fn lemma_extract_deterministic(
    d: Seq<char>,
    include_text: bool,
    r1: Seq<RawLinkView>,
    r2: Seq<RawLinkView>,
)
    requires
        r1 == occurrences(d, include_text),
        r2 == occurrences(d, include_text),
    ensures
        r1 == r2,
{
}

proof fn lemma_scan_tag_texts_nonempty(s: Seq<char>, el: Seq<char>, j: int)
    requires
        0 <= j <= s.len(),
    ensures
        forall|k: int|
            0 <= k < scan_tag(s, el, j).0.len() ==> (#[trigger] scan_tag(s, el, j).0[k]).text.len()
                > 0,
    decreases s.len() - j,
{
    if 0 <= j < s.len() {
        if s[j] == '>' {
        } else if is_name_char(s[j]) {
            lemma_name_end(s, j + 1);
            let ne = name_end(s, j + 1);
            if ne + 1 < s.len() && s[ne] == '=' && (s[ne + 1] == '"' || s[ne + 1] == '\'') {
                lemma_quote_end(s, ne + 2, s[ne + 1]);
                let ve = quote_end(s, ne + 2, s[ne + 1]);
                let cont = if ve < s.len() {
                    ve + 1
                } else {
                    ve
                };
                lemma_scan_tag_texts_nonempty(s, el, cont);
            } else {
                lemma_scan_tag_texts_nonempty(s, el, ne);
            }
        } else {
            lemma_scan_tag_texts_nonempty(s, el, j + 1);
        }
    }
}

proof fn lemma_scan_texts_nonempty(s: Seq<char>, include_text: bool, i: int)
    requires
        0 <= i,
    ensures
        forall|k: int|
            0 <= k < scan(s, include_text, i).len() ==> (#[trigger] scan(
                s,
                include_text,
                i,
            )[k]).text.len() > 0,
    decreases s.len() - i,
{
    if 0 <= i < s.len() {
        if s[i] == '<' && i + 1 < s.len() && is_letter(s[i + 1]) {
            lemma_name_end(s, i + 2);
            let ne = name_end(s, i + 2);
            let el = s.subrange(i + 1, ne);
            lemma_scan_tag_bounds(s, el, ne);
            lemma_scan_tag_texts_nonempty(s, el, ne);
            lemma_scan_texts_nonempty(s, include_text, scan_tag(s, el, ne).1);
        } else if include_text && starts_http(s, i) {
            lemma_url_end(s, i + 1);
            lemma_scan_texts_nonempty(s, include_text, url_end(s, i + 1));
        } else {
            lemma_scan_texts_nonempty(s, include_text, i + 1);
        }
    }
}

/// Every discovered occurrence carries a non-empty literal text: empty
/// attribute values are never emitted, and a bare URL holds at least its
/// leading `http` marker.
pub proof fn lemma_occurrence_texts_nonempty(d: Seq<char>, include_text: bool)
    ensures
        forall|k: int|
            0 <= k < occurrences(d, include_text).len() ==> (#[trigger] occurrences(
                d,
                include_text,
            )[k]).text.len() > 0,
{
    lemma_scan_texts_nonempty(d, include_text, 0);
}

proof fn lemma_scan_tag_provenance(s: Seq<char>, el: Seq<char>, j: int)
    requires
        0 <= j <= s.len(),
    ensures
        forall|k: int|
            0 <= k < scan_tag(s, el, j).0.len() ==> (#[trigger] scan_tag(s, el, j).0[k]).element
                == Some(el) && scan_tag(s, el, j).0[k].attribute is Some,
    decreases s.len() - j,
{
    if 0 <= j < s.len() {
        if s[j] == '>' {
        } else if is_name_char(s[j]) {
            lemma_name_end(s, j + 1);
            let ne = name_end(s, j + 1);
            if ne + 1 < s.len() && s[ne] == '=' && (s[ne + 1] == '"' || s[ne + 1] == '\'') {
                lemma_quote_end(s, ne + 2, s[ne + 1]);
                let ve = quote_end(s, ne + 2, s[ne + 1]);
                let cont = if ve < s.len() {
                    ve + 1
                } else {
                    ve
                };
                lemma_scan_tag_provenance(s, el, cont);
            } else {
                lemma_scan_tag_provenance(s, el, ne);
            }
        } else {
            lemma_scan_tag_provenance(s, el, j + 1);
        }
    }
}

proof fn lemma_scan_attribute_only(s: Seq<char>, i: int)
    requires
        0 <= i,
    ensures
        forall|k: int|
            0 <= k < scan(s, false, i).len() ==> (#[trigger] scan(s, false, i)[k]).element is Some
                && scan(s, false, i)[k].attribute is Some,
    decreases s.len() - i,
{
    if 0 <= i < s.len() {
        if s[i] == '<' && i + 1 < s.len() && is_letter(s[i + 1]) {
            lemma_name_end(s, i + 2);
            let ne = name_end(s, i + 2);
            let el = s.subrange(i + 1, ne);
            lemma_scan_tag_bounds(s, el, ne);
            lemma_scan_tag_provenance(s, el, ne);
            lemma_scan_attribute_only(s, scan_tag(s, el, ne).1);
        } else {
            lemma_scan_attribute_only(s, i + 1);
        }
    }
}

/// Without the text flag, extraction is attribute-based only: every
/// occurrence names the element and the attribute it was read from; a bare
/// URL in text content is never among them.
pub proof fn lemma_strict_extraction_has_provenance(d: Seq<char>)
    ensures
        forall|k: int|
            0 <= k < occurrences(d, false).len() ==> (#[trigger] occurrences(
                d,
                false,
            )[k]).element is Some && occurrences(d, false)[k].attribute is Some,
{
    lemma_scan_attribute_only(d, 0);
}

fn is_letter_x(c: char) -> (b: bool)
    ensures
        b == is_letter(c),
{
    let u = c as u32;
    (('a' as u32) <= u && u <= ('z' as u32)) || (('A' as u32) <= u && u <= ('Z' as u32))
}

fn is_name_char_x(c: char) -> (b: bool)
    ensures
        b == is_name_char(c),
{
    let u = c as u32;
    is_letter_x(c) || (('0' as u32) <= u && u <= ('9' as u32)) || c == '-' || c == '_'
}

fn is_url_stop_x(c: char) -> (b: bool)
    ensures
        b == is_url_stop(c),
{
    c == ' ' || c == '\n' || c == '\t' || c == '\r' || c == '<' || c == '>' || c == '"' || c == '\''
}

fn find_name_end(s: &Vec<char>, start: usize) -> (e: usize)
    requires
        start <= s@.len(),
    ensures
        e as int == name_end(s@, start as int),
        start <= e <= s@.len(),
    decreases s@.len() - start,
{
    let mut k: usize = start;
    loop
        invariant
            start <= k <= s@.len(),
            name_end(s@, start as int) == name_end(s@, k as int),
        decreases s@.len() - k,
    {
        if k == s.len() {
            return k;
        }
        if !is_name_char_x(s[k]) {
            return k;
        }
        assert(name_end(s@, k as int) == name_end(s@, k as int + 1));
        k = k + 1;
    }
}

fn find_quote_end(s: &Vec<char>, start: usize, q: char) -> (e: usize)
    requires
        start <= s@.len(),
    ensures
        e as int == quote_end(s@, start as int, q),
        start <= e <= s@.len(),
{
    let mut k: usize = start;
    loop
        invariant
            start <= k <= s@.len(),
            quote_end(s@, start as int, q) == quote_end(s@, k as int, q),
        decreases s@.len() - k,
    {
        if k == s.len() {
            return k;
        }
        if s[k] == q {
            return k;
        }
        assert(quote_end(s@, k as int, q) == quote_end(s@, k as int + 1, q));
        k = k + 1;
    }
}

fn find_url_end(s: &Vec<char>, start: usize) -> (e: usize)
    requires
        start <= s@.len(),
    ensures
        e as int == url_end(s@, start as int),
        start <= e <= s@.len(),
{
    let mut k: usize = start;
    loop
        invariant
            start <= k <= s@.len(),
            url_end(s@, start as int) == url_end(s@, k as int),
        decreases s@.len() - k,
    {
        if k == s.len() {
            return k;
        }
        if is_url_stop_x(s[k]) {
            return k;
        }
        assert(url_end(s@, k as int) == url_end(s@, k as int + 1));
        k = k + 1;
    }
}

fn sub_chars(s: &Vec<char>, a: usize, b: usize) -> (r: Vec<char>)
    requires
        a <= b <= s@.len(),
    ensures
        r@ == s@.subrange(a as int, b as int),
{
    let mut r: Vec<char> = Vec::new();
    let mut k: usize = a;
    assert(r@ =~= s@.subrange(a as int, a as int));
    while k < b
        invariant
            a <= k <= b <= s@.len(),
            r@ == s@.subrange(a as int, k as int),
        decreases b - k,
    {
        r.push(s[k]);
        assert(r@ =~= s@.subrange(a as int, k as int + 1));
        k = k + 1;
    }
    r
}

/// The characters of the string, in order.
pub(crate) fn chars_vec(s: &str) -> (r: Vec<char>)
    ensures
        r@ == s@,
{
    let n: usize = s.unicode_len();
    let mut r: Vec<char> = Vec::new();
    let mut i: usize = 0;
    while i < n
        invariant
            i <= n,
            n == s@.len(),
            r@ == s@.subrange(0, i as int),
        decreases n - i,
    {
        let c = s.get_char(i);
        r.push(c);
        assert(r@ =~= s@.subrange(0, i as int + 1));
        i = i + 1;
    }
    assert(r@ =~= s@);
    r
}

/// Relies on `String::from_iter` over `str::chars`' items: the collected
/// string holds exactly the characters of the vector, in order.
#[verifier::external_body]
pub(crate) fn string_from_chars(v: &Vec<char>) -> (r: String)
    ensures
        r@ == v@,
{
    v.iter().collect()
}

fn chars_eq3(v: &Vec<char>, a: char, b: char, c: char) -> (r: bool)
    ensures
        r <==> v@ == seq![a, b, c],
{
    if v.len() == 3 {
        let r = v[0] == a && v[1] == b && v[2] == c;
        proof {
            if r {
                assert(v@ =~= seq![a, b, c]);
            } else if v@ == seq![a, b, c] {
                assert(v@[0] == a && v@[1] == b && v@[2] == c);
            }
        }
        r
    } else {
        proof {
            if v@ == seq![a, b, c] {
                assert(v@.len() == 3);
            }
        }
        false
    }
}

fn chars_eq4(v: &Vec<char>, a: char, b: char, c: char, d: char) -> (r: bool)
    ensures
        r <==> v@ == seq![a, b, c, d],
{
    if v.len() == 4 {
        let r = v[0] == a && v[1] == b && v[2] == c && v[3] == d;
        proof {
            if r {
                assert(v@ =~= seq![a, b, c, d]);
            } else if v@ == seq![a, b, c, d] {
                assert(v@[0] == a && v@[1] == b && v@[2] == c && v@[3] == d);
            }
        }
        r
    } else {
        proof {
            if v@ == seq![a, b, c, d] {
                assert(v@.len() == 4);
            }
        }
        false
    }
}

fn chars_eq6(v: &Vec<char>, a: char, b: char, c: char, d: char, e: char, f: char) -> (r: bool)
    ensures
        r <==> v@ == seq![a, b, c, d, e, f],
{
    if v.len() == 6 {
        let r = v[0] == a && v[1] == b && v[2] == c && v[3] == d && v[4] == e && v[5] == f;
        proof {
            if r {
                assert(v@ =~= seq![a, b, c, d, e, f]);
            } else if v@ == seq![a, b, c, d, e, f] {
                assert(v@[0] == a && v@[1] == b && v@[2] == c && v@[3] == d && v@[4] == e
                    && v@[5] == f);
            }
        }
        r
    } else {
        proof {
            if v@ == seq![a, b, c, d, e, f] {
                assert(v@.len() == 6);
            }
        }
        false
    }
}

fn is_url_attr(name: &Vec<char>) -> (b: bool)
    ensures
        b == spec_is_url_attr(name@),
{
    chars_eq4(name, 'h', 'r', 'e', 'f') || chars_eq3(name, 's', 'r', 'c') || chars_eq6(
        name,
        'a',
        'c',
        't',
        'i',
        'o',
        'n',
    ) || chars_eq4(name, 'c', 'i', 't', 'e') || chars_eq6(name, 'p', 'o', 's', 't', 'e', 'r')
        || chars_eq4(name, 'd', 'a', 't', 'a')
}

fn starts_http_x(s: &Vec<char>, i: usize) -> (b: bool)
    requires
        i <= s@.len(),
    ensures
        b == starts_http(s@, i as int),
{
    if s.len() < 7 || i > s.len() - 7 {
        return false;
    }
    if !(s[i] == 'h' && s[i + 1] == 't' && s[i + 2] == 't' && s[i + 3] == 'p') {
        return false;
    }
    if s[i + 4] == ':' && s[i + 5] == '/' && s[i + 6] == '/' {
        return true;
    }
    if s.len() >= 8 && i <= s.len() - 8 {
        s[i + 4] == 's' && s[i + 5] == ':' && s[i + 6] == '/' && s[i + 7] == '/'
    } else {
        false
    }
}

proof fn lemma_occ_views_push(v: Seq<RawLink>, x: RawLink)
    ensures
        occ_views(v.push(x)) == occ_views(v).push(x@),
{
    assert(occ_views(v.push(x)) =~= occ_views(v).push(x@));
}

/// Read one tag's attributes from position `j`, pushing each occurrence onto
/// `out`; returns the position just past the tag.
fn scan_tag_x(s: &Vec<char>, el: &Vec<char>, j: usize, out: &mut Vec<RawLink>) -> (nx: usize)
    requires
        j <= s@.len(),
    ensures
        occ_views(final(out)@) == occ_views(old(out)@) + scan_tag(s@, el@, j as int).0,
        nx as int == scan_tag(s@, el@, j as int).1,
        j <= nx <= s@.len(),
    decreases s@.len() - j,
{
    if j == s.len() {
        assert(occ_views(out@) =~= occ_views(out@) + scan_tag(s@, el@, j as int).0);
        return j;
    }
    let c = s[j];
    if c == '>' {
        assert(occ_views(out@) =~= occ_views(out@) + scan_tag(s@, el@, j as int).0);
        return j + 1;
    }
    if is_name_char_x(c) {
        let ne = find_name_end(&s, j + 1);
        if ne < s.len() && ne + 1 < s.len() && s[ne] == '=' && (s[ne + 1] == '"' || s[ne + 1]
            == '\'') {
            let q = s[ne + 1];
            let ve = find_quote_end(&s, ne + 2, q);
            let cont: usize = if ve < s.len() {
                ve + 1
            } else {
                ve
            };
            let name = sub_chars(&s, j, ne);
            if is_url_attr(&name) && ne + 2 < ve {
                let text = sub_chars(&s, ne + 2, ve);
                let occ = RawLink {
                    text: string_from_chars(&text),
                    element: Some(string_from_chars(el)),
                    attribute: Some(string_from_chars(&name)),
                };
                proof {
                    lemma_occ_views_push(out@, occ);
                }
                out.push(occ);
                let nx = scan_tag_x(&s, el, cont, out);
                proof {
                    assert(occ_views(final(out)@) =~= occ_views(old(out)@) + (seq![occ@]
                        + scan_tag(s@, el@, cont as int).0));
                    assert(scan_tag(s@, el@, j as int).0 == seq![occ@] + scan_tag(
                        s@,
                        el@,
                        cont as int,
                    ).0);
                }
                return nx;
            } else {
                let nx = scan_tag_x(&s, el, cont, out);
                return nx;
            }
        } else {
            let nx = scan_tag_x(&s, el, ne, out);
            return nx;
        }
    }
    let nx = scan_tag_x(&s, el, j + 1, out);
    nx
}

/// Scan the document text for link occurrences, in document order. With
/// `include_text_links` set, bare URLs in text content are kept besides the
/// URL-bearing attribute values; without it, only the attribute values are.
/// The result is exactly the sequence that the specification `occurrences`
/// describes, so re-invocation on the same input yields the same sequence.
pub fn extract_links(source: &str, include_text_links: bool) -> (r: Vec<RawLink>)
    ensures
        occ_views(r@) == occurrences(source@, include_text_links),
{
    let s = chars_vec(source);
    let mut out: Vec<RawLink> = Vec::new();
    let mut i: usize = 0;
    assert(occ_views(out@) + scan(source@, include_text_links, 0) =~= scan(
        source@,
        include_text_links,
        0,
    ));
    while i < s.len()
        invariant
            i <= s@.len(),
            s@ == source@,
            scan(source@, include_text_links, 0) == occ_views(out@) + scan(
                source@,
                include_text_links,
                i as int,
            ),
        decreases s@.len() - i,
    {
        let c = s[i];
        if c == '<' && i + 1 < s.len() && is_letter_x(s[i + 1]) {
            let ne = find_name_end(&s, i + 2);
            let el = sub_chars(&s, i + 1, ne);
            let ghost out_before = out@;
            let nx = scan_tag_x(&s, &el, ne, &mut out);
            proof {
                assert(scan(source@, include_text_links, i as int) == scan_tag(
                    s@,
                    el@,
                    ne as int,
                ).0 + scan(source@, include_text_links, nx as int));
                assert(occ_views(out_before) + scan(source@, include_text_links, i as int)
                    =~= occ_views(out@) + scan(source@, include_text_links, nx as int));
            }
            i = nx;
        } else if include_text_links && starts_http_x(&s, i) {
            let ue = find_url_end(&s, i + 1);
            let text = sub_chars(&s, i, ue);
            let occ = RawLink { text: string_from_chars(&text), element: None, attribute: None };
            proof {
                lemma_occ_views_push(out@, occ);
                assert(scan(source@, include_text_links, i as int) == seq![occ@] + scan(
                    source@,
                    include_text_links,
                    ue as int,
                ));
                assert(occ_views(out@.push(occ)) + scan(source@, include_text_links, ue as int)
                    =~= occ_views(out@) + scan(source@, include_text_links, i as int));
            }
            out.push(occ);
            i = ue;
        } else {
            proof {
                assert(scan(source@, include_text_links, i as int) == scan(
                    source@,
                    include_text_links,
                    i as int + 1,
                ));
            }
            i = i + 1;
        }
    }
    assert(scan(source@, include_text_links, i as int) =~= Seq::<RawLinkView>::empty());
    assert(occ_views(out@) =~= occ_views(out@) + scan(source@, include_text_links, i as int));
    out
}

} // verus!

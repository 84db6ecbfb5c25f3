//! Decomposition of absolute URL strings into their structural parts, and
//! resolution of possibly-relative references against a base document URL.
//!
//! Parsing itself is done by the `url` crate; this module gives each parsing
//! outcome a name and states the decomposition over those names, so that the
//! rest of the crate can reason about resolution exactly.

use vstd::prelude::*;

verus! {

/// One decomposed absolute URL. `scheme` and `path` are set on every value
/// produced by this crate; `host` and `authority` carry the same registrable
/// domain (`authority` is kept as a separate field of the record shape);
/// `fragment` and `userinfo` are kept in the shape but never populated.
#[derive(Debug, PartialEq, Eq)]
pub struct Uri {
    pub authority: Option<String>,
    pub fragment: Option<String>,
    pub host: Option<String>,
    pub path: Option<String>,
    pub port: Option<u16>,
    pub query: Option<String>,
    pub scheme: Option<String>,
    pub userinfo: Option<String>,
}

/// The mathematical shape of a `Uri`: each textual field as a sequence of
/// characters.
pub ghost struct UriView {
    pub authority: Option<Seq<char>>,
    pub fragment: Option<Seq<char>>,
    pub host: Option<Seq<char>>,
    pub path: Option<Seq<char>>,
    pub port: Option<u16>,
    pub query: Option<Seq<char>>,
    pub scheme: Option<Seq<char>>,
    pub userinfo: Option<Seq<char>>,
}

pub open spec fn view_opt_str(o: Option<String>) -> Option<Seq<char>> {
    match o {
        Some(s) => Some(s@),
        None => None,
    }
}

impl View for Uri {
    type V = UriView;

    open spec fn view(&self) -> UriView {
        UriView {
            authority: view_opt_str(self.authority),
            fragment: view_opt_str(self.fragment),
            host: view_opt_str(self.host),
            path: view_opt_str(self.path),
            port: self.port,
            query: view_opt_str(self.query),
            scheme: view_opt_str(self.scheme),
            userinfo: view_opt_str(self.userinfo),
        }
    }
}

/// Whether `url::Url::parse` accepts the string as an absolute URL.
pub uninterp spec fn parses_as_absolute(s: Seq<char>) -> bool;

/// The scheme of the URL parsed from the string, per `url::Url::scheme`.
pub uninterp spec fn url_scheme(s: Seq<char>) -> Seq<char>;

/// The registrable domain of the URL parsed from the string, per
/// `url::Url::domain`; `None` where the host is empty or not a domain.
pub uninterp spec fn url_host(s: Seq<char>) -> Option<Seq<char>>;

/// The explicit port of the URL parsed from the string, per `url::Url::port`;
/// `None` where the port is absent or is the scheme's default.
pub uninterp spec fn url_port(s: Seq<char>) -> Option<u16>;

/// The path of the URL parsed from the string, per `url::Url::path`.
pub uninterp spec fn url_path(s: Seq<char>) -> Seq<char>;

/// The query of the URL parsed from the string, without its leading `?`, per
/// `url::Url::query`; `None` where there is no query.
pub uninterp spec fn url_query(s: Seq<char>) -> Option<Seq<char>>;

/// The serialization of `url::Url::join`'s result for the reference string
/// against the base URL string, or `None` where the join fails.
pub uninterp spec fn joined(base: Seq<char>, reference: Seq<char>) -> Option<Seq<char>>;

/// The decomposition of an absolute URL string, component by component.
pub open spec fn decomposition(s: Seq<char>) -> UriView {
    UriView {
        authority: url_host(s),
        fragment: None,
        host: url_host(s),
        path: Some(url_path(s)),
        port: url_port(s),
        query: url_query(s),
        scheme: Some(url_scheme(s)),
        userinfo: None,
    }
}

/// Relies on `url::Url::parse` to decide whether the string is a valid
/// absolute URL, and on the accessors `Url::scheme`, `Url::domain`,
/// `Url::port`, `Url::path` and `Url::query` for the parts of the parsed URL.
#[verifier::external_body]
fn url_decompose(s: &str) -> (r: Option<Uri>)
    ensures
        r is Some <==> parses_as_absolute(s@),
        (r matches Some(u) ==> u@.scheme == Some(url_scheme(s@)) && u@.host == url_host(s@)
            && u@.authority == url_host(s@) && u@.port == url_port(s@) && u@.path == Some(
            url_path(s@),
        ) && u@.query == url_query(s@) && u@.fragment is None && u@.userinfo is None),
{
    match url::Url::parse(s) {
        Ok(u) => Some(Uri {
            authority: u.domain().map(str::to_string),
            fragment: None,
            host: u.domain().map(str::to_string),
            path: Some(u.path().to_string()),
            port: u.port(),
            query: u.query().map(str::to_string),
            scheme: Some(u.scheme().to_string()),
            userinfo: None,
        }),
        Err(_) => None,
    }
}

/// Relies on `url::Url::parse` for the base and on `url::Url::join`, which
/// parses a reference string with the base as its resolution base, and on
/// `Url::as_str` for the serialization of the joined result.
#[verifier::external_body]
fn url_join(base: &str, reference: &str) -> (r: Option<String>)
    ensures
        r is Some <==> (parses_as_absolute(base@) && joined(base@, reference@) is Some),
        (r matches Some(j) ==> Some(j@) == joined(base@, reference@)),
{
    match url::Url::parse(base) {
        Ok(b) => match b.join(reference) {
            Ok(u) => Some(u.as_str().to_string()),
            Err(_) => None,
        },
        Err(_) => None,
    }
}

/// Decompose an absolute URL string into its parts; `None` exactly when the
/// string is not a valid absolute URL.
pub fn decompose_url(s: &str) -> (r: Option<Uri>)
    ensures
        r is Some <==> parses_as_absolute(s@),
        (r matches Some(u) ==> u@ == decomposition(s@)),
{
    url_decompose(s)
}

/// Whether a reference resolves against a base document URL: the base is a
/// valid absolute URL, the join of the reference against it succeeds, and the
/// joined serialization is itself a valid absolute URL.
pub open spec fn resolvable(base: Seq<char>, reference: Seq<char>) -> bool {
    &&& parses_as_absolute(base)
    &&& joined(base, reference) is Some
    &&& parses_as_absolute(joined(base, reference).unwrap())
}

/// The decomposition of the URL a reference resolves to against a base.
pub open spec fn resolved_uri(base: Seq<char>, reference: Seq<char>) -> UriView {
    decomposition(joined(base, reference).unwrap())
}

/// Resolve a raw reference against the base document URL. An absolute
/// reference stands for itself; a relative one is resolved against the base;
/// a reference that cannot be parsed either way yields `None`.
pub fn resolve_reference(reference: &str, base: &str) -> (r: Option<Uri>)
    ensures
        r is Some <==> resolvable(base@, reference@),
        (r matches Some(u) ==> u@ == resolved_uri(base@, reference@)),
{
    match url_join(base, reference) {
        Some(j) => decompose_url(j.as_str()),
        None => None,
    }
}

/// Every URI this crate emits is populated: its scheme and path are set, so
/// an all-unset record never occurs as output.
pub proof fn lemma_decomposition_populated(s: Seq<char>)
    ensures
        decomposition(s).scheme is Some,
        decomposition(s).path is Some,
{
}

/// The decimal digit characters of a number, most significant first.
pub open spec fn dec_digits(n: nat) -> Seq<char>
    decreases n,
{
    if n < 10 {
        seq![digit_char(n)]
    } else {
        dec_digits(n / 10).push(digit_char(n % 10))
    }
}

pub open spec fn digit_char(d: nat) -> char {
    if d == 0 {
        '0'
    } else if d == 1 {
        '1'
    } else if d == 2 {
        '2'
    } else if d == 3 {
        '3'
    } else if d == 4 {
        '4'
    } else if d == 5 {
        '5'
    } else if d == 6 {
        '6'
    } else if d == 7 {
        '7'
    } else if d == 8 {
        '8'
    } else {
        '9'
    }
}

pub open spec fn opt_text(o: Option<Seq<char>>) -> Seq<char> {
    match o {
        Some(s) => s,
        None => Seq::<char>::empty(),
    }
}

/// The `:port` part of a serialization, empty where the port is absent.
pub open spec fn port_text(o: Option<u16>) -> Seq<char> {
    match o {
        Some(p) => seq![':'] + dec_digits(p as nat),
        None => Seq::<char>::empty(),
    }
}

/// The `?query` part of a serialization, empty where the query is absent.
pub open spec fn query_text(o: Option<Seq<char>>) -> Seq<char> {
    match o {
        Some(q) => seq!['?'] + q,
        None => Seq::<char>::empty(),
    }
}

/// The reconstruction of a decomposed URI: scheme, `://`, host, explicit
/// port, path and query, in that order, with absent parts left out.
pub open spec fn uri_string(u: UriView) -> Seq<char> {
    opt_text(u.scheme) + seq![':', '/', '/'] + opt_text(u.host) + port_text(u.port) + opt_text(
        u.path,
    ) + query_text(u.query)
}

fn digit_char_x(d: u16) -> (c: char)
    requires
        d < 10,
    ensures
        c == digit_char(d as nat),
{
    if d == 0 {
        '0'
    } else if d == 1 {
        '1'
    } else if d == 2 {
        '2'
    } else if d == 3 {
        '3'
    } else if d == 4 {
        '4'
    } else if d == 5 {
        '5'
    } else if d == 6 {
        '6'
    } else if d == 7 {
        '7'
    } else if d == 8 {
        '8'
    } else {
        '9'
    }
}

fn push_u16_digits(n: u16, out: &mut Vec<char>)
    ensures
        final(out)@ == old(out)@ + dec_digits(n as nat),
    decreases n,
{
    if n < 10 {
        let c = digit_char_x(n);
        out.push(c);
        assert(final(out)@ =~= old(out)@ + dec_digits(n as nat));
    } else {
        push_u16_digits(n / 10, out);
        let c = digit_char_x(n % 10);
        out.push(c);
        assert((n / 10) as nat == (n as nat) / 10);
        assert((n % 10) as nat == (n as nat) % 10);
        assert(final(out)@ =~= old(out)@ + dec_digits(n as nat));
    }
}

fn push_str_chars(out: &mut Vec<char>, s: &str)
    ensures
        final(out)@ == old(out)@ + s@,
{
    let cs = crate::extract::chars_vec(s);
    let mut k: usize = 0;
    assert(out@ =~= old(out)@ + s@.subrange(0, 0));
    while k < cs.len()
        invariant
            k <= cs@.len(),
            cs@ == s@,
            out@ == old(out)@ + s@.subrange(0, k as int),
        decreases cs@.len() - k,
    {
        out.push(cs[k]);
        assert(out@ =~= old(out)@ + s@.subrange(0, k as int + 1));
        k = k + 1;
    }
    assert(out@ =~= old(out)@ + s@);
}

/// Reconstruct the serialization of a decomposed URI, exactly as `uri_string`
/// describes it.
pub fn uri_to_string(u: &Uri) -> (r: String)
    ensures
        r@ == uri_string(u@),
{
    let mut cs: Vec<char> = Vec::new();
    match &u.scheme {
        Some(s) => push_str_chars(&mut cs, s.as_str()),
        None => {},
    }
    assert(cs@ =~= opt_text(u@.scheme));
    cs.push(':');
    cs.push('/');
    cs.push('/');
    assert(cs@ =~= opt_text(u@.scheme) + seq![':', '/', '/']);
    match &u.host {
        Some(h) => push_str_chars(&mut cs, h.as_str()),
        None => {},
    }
    assert(cs@ =~= opt_text(u@.scheme) + seq![':', '/', '/'] + opt_text(u@.host));
    match u.port {
        Some(p) => {
            cs.push(':');
            push_u16_digits(p, &mut cs);
        },
        None => {},
    }
    assert(cs@ =~= opt_text(u@.scheme) + seq![':', '/', '/'] + opt_text(u@.host) + port_text(
        u@.port,
    ));
    match &u.path {
        Some(p) => push_str_chars(&mut cs, p.as_str()),
        None => {},
    }
    match &u.query {
        Some(q) => {
            cs.push('?');
            push_str_chars(&mut cs, q.as_str());
        },
        None => {},
    }
    assert(cs@ =~= uri_string(u@));
    crate::extract::string_from_chars(&cs)
}

} // verus!

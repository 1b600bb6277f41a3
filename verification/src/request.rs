//! The request that the client sends: its parts, how the command line
//! describes it, and how its headers are set.

use crate::text::{chars_of, opt_text, pair_views};
use vstd::prelude::*;

verus! {

/// The HTTP methods that the client offers.
#[allow(clippy::upper_case_acronyms)]
#[derive(Clone, Copy, Debug, PartialEq, Eq, Structural)]
pub enum Method {
    GET,
    PUT,
    POST,
    DELETE,
}

impl Method {
    /// The method's name on the wire.
    pub open spec fn name(self) -> Seq<char> {
        match self {
            Method::GET => "GET"@,
            Method::PUT => "PUT"@,
            Method::POST => "POST"@,
            Method::DELETE => "DELETE"@,
        }
    }

    /// The method's name on the wire.
    pub fn as_str(&self) -> (s: &'static str)
        ensures
            s@ == self.name(),
    {
        match self {
            Method::GET => "GET",
            Method::PUT => "PUT",
            Method::POST => "POST",
            Method::DELETE => "DELETE",
        }
    }
}

/// What the command line says of the request to send.
#[derive(Debug)]
pub struct Commands {
    pub endpoint: Option<String>,
    pub method: Option<Method>,
    pub body: Option<String>,
}

/// An HTTP request. The order of the headers is that of transmission.
#[derive(Debug)]
pub struct Request {
    pub method: Method,
    pub uri: String,
    pub headers: Vec<(String, String)>,
    pub body: String,
}

/// The parts of a `Request`, as text.
pub struct RequestView {
    pub method: Method,
    pub uri: Seq<char>,
    pub headers: Seq<(Seq<char>, Seq<char>)>,
    pub body: Seq<char>,
}

impl View for Request {
    type V = RequestView;

    open spec fn view(&self) -> RequestView {
        RequestView {
            method: self.method,
            uri: self.uri@,
            headers: pair_views(self.headers@),
            body: self.body@,
        }
    }
}

/// Whether `s` holds `://`.
pub open spec fn has_scheme_mark(s: Seq<char>) -> bool {
    exists|i: int|
        0 <= i && i + 3 <= s.len() && #[trigger] s[i] == ':' && s[i + 1] == '/' && s[i + 2] == '/'
}

/// The URI of an endpoint: the endpoint itself where it names a scheme,
/// else the endpoint over HTTPS.
pub open spec fn uri_of(endpoint: Seq<char>) -> Seq<char> {
    if has_scheme_mark(endpoint) {
        endpoint
    } else {
        "https://"@ + endpoint
    }
}

/// Whether `endpoint` holds `://`.
pub fn names_scheme(endpoint: &str) -> (b: bool)
    ensures
        b == has_scheme_mark(endpoint@),
{
    let v = chars_of(endpoint);
    if v.len() < 3 {
        return false;
    }
    let last: usize = v.len() - 3;
    let mut i: usize = 0;
    while i <= last
        invariant
            v@ == endpoint@,
            last + 3 == v.len(),
            i <= last + 1,
            forall|k: int|
                0 <= k < i ==> !(#[trigger] v@[k] == ':' && v@[k + 1] == '/' && v@[k + 2] == '/'),
        decreases last + 1 - i,
    {
        if v[i] == ':' && v[i + 1] == '/' && v[i + 2] == '/' {
            assert(v@[i as int] == ':');
            return true;
        }
        i = i + 1;
    }
    false
}

/// The unsigned request for `endpoint`: no headers, and HTTPS where the
/// endpoint names no scheme.
pub fn request(endpoint: String, method: Method, body: String) -> (r: Request)
    ensures
        r@ == (RequestView {
            method,
            uri: uri_of(endpoint@),
            headers: Seq::empty(),
            body: body@,
        }),
{
    let uri = if names_scheme(endpoint.as_str()) {
        endpoint
    } else {
        let mut uri = "https://".to_owned();
        uri.append(endpoint.as_str());
        uri
    };
    let headers: Vec<(String, String)> = Vec::new();
    assert(pair_views(headers@) =~= Seq::<(Seq<char>, Seq<char>)>::empty());
    Request { method, uri, headers, body }
}

/// The text of an optional argument: empty where it was not given.
pub open spec fn given(arg: Option<Seq<char>>) -> Seq<char> {
    match arg {
        Some(a) => a,
        None => Seq::empty(),
    }
}

/// The unsigned request that the command line describes: `GET` where no
/// method is given, an empty body where none is given.
pub fn handle(args: Commands) -> (r: Request)
    ensures
        r@ == (RequestView {
            method: match args.method {
                Some(m) => m,
                None => Method::GET,
            },
            uri: uri_of(given(opt_text(args.endpoint))),
            headers: Seq::empty(),
            body: given(opt_text(args.body)),
        }),
{
    let method = match args.method {
        Some(m) => m,
        None => Method::GET,
    };
    let body = match args.body {
        Some(b) => b,
        None => String::new(),
    };
    let endpoint = match args.endpoint {
        Some(e) => e,
        None => String::new(),
    };
    request(endpoint, method, body)
}

/// The number by which a character of a header name is compared: that of
/// its lower-case form where it is an ASCII capital.
pub open spec fn folded(c: char) -> u32 {
    if 'A' <= c <= 'Z' {
        (c as u32 + 32) as u32
    } else {
        c as u32
    }
}

/// Whether two header names are the same but for the case of ASCII letters.
pub open spec fn same_name(a: Seq<char>, b: Seq<char>) -> bool {
    a.len() == b.len() && forall|i: int| 0 <= i < a.len() ==> folded(a[i]) == folded(b[i])
}

/// The headers without those named `name`.
pub open spec fn without_header(headers: Seq<(Seq<char>, Seq<char>)>, name: Seq<char>) -> Seq<
    (Seq<char>, Seq<char>),
>
    decreases headers.len(),
{
    if headers.len() == 0 {
        Seq::empty()
    } else if same_name(headers.last().0, name) {
        without_header(headers.drop_last(), name)
    } else {
        without_header(headers.drop_last(), name).push(headers.last())
    }
}

/// The headers once `name` is set to `value`: the first header of that
/// name gives its place to the new one and the later ones of that name are
/// gone; where there is none, the new header stands last. The others keep
/// their order.
pub open spec fn with_header(
    headers: Seq<(Seq<char>, Seq<char>)>,
    name: Seq<char>,
    value: Seq<char>,
) -> Seq<(Seq<char>, Seq<char>)>
    decreases headers.len(),
{
    if headers.len() == 0 {
        seq![(name, value)]
    } else if same_name(headers.first().0, name) {
        seq![(name, value)] + without_header(headers.drop_first(), name)
    } else {
        seq![headers.first()] + with_header(headers.drop_first(), name, value)
    }
}

/// The headers once each of `added` is set, in order.
pub open spec fn with_headers(
    headers: Seq<(Seq<char>, Seq<char>)>,
    added: Seq<(Seq<char>, Seq<char>)>,
) -> Seq<(Seq<char>, Seq<char>)>
    decreases added.len(),
{
    if added.len() == 0 {
        headers
    } else {
        with_header(with_headers(headers, added.drop_last()), added.last().0, added.last().1)
    }
}

/// The value of the last header named `name`, if there is one.
pub open spec fn header_value(headers: Seq<(Seq<char>, Seq<char>)>, name: Seq<char>) -> Option<
    Seq<char>,
>
    decreases headers.len(),
{
    if headers.len() == 0 {
        None
    } else if same_name(headers.last().0, name) {
        Some(headers.last().1)
    } else {
        header_value(headers.drop_last(), name)
    }
}

/// The number by which `c` is compared in a header name.
fn fold_char(c: char) -> (n: u32)
    ensures
        n == folded(c),
{
    let n: u32 = c as u32;
    if 65 <= n && n <= 90 {
        n + 32
    } else {
        n
    }
}

/// Whether two header names are the same but for the case of ASCII letters.
pub fn names_match(a: &str, b: &str) -> (r: bool)
    ensures
        r == same_name(a@, b@),
{
    let x = chars_of(a);
    let y = chars_of(b);
    if x.len() != y.len() {
        return false;
    }
    let mut i: usize = 0;
    while i < x.len()
        invariant
            i <= x.len(),
            x.len() == y.len(),
            x@ == a@,
            y@ == b@,
            forall|k: int| 0 <= k < i ==> folded(x@[k]) == folded(y@[k]),
        decreases x.len() - i,
    {
        if fold_char(x[i]) != fold_char(y[i]) {
            return false;
        }
        i = i + 1;
    }
    true
}

impl Request {
    /// The value of the last header named `name`, if there is one.
    pub fn header(&self, name: &str) -> (r: Option<String>)
        ensures
            opt_text(r) == header_value(self@.headers, name@),
    {
        let mut found: Option<String> = None;
        let mut i: usize = 0;
        let ghost all = pair_views(self.headers@);
        assert(all.take(0) =~= Seq::<(Seq<char>, Seq<char>)>::empty());
        while i < self.headers.len()
            invariant
                i <= self.headers.len(),
                all == pair_views(self.headers@),
                opt_text(found) == header_value(all.take(i as int), name@),
            decreases self.headers.len() - i,
        {
            proof {
                assert(all.take(i as int + 1).drop_last() =~= all.take(i as int));
                assert(all.take(i as int + 1).last() == all[i as int]);
            }
            if names_match(self.headers[i].0.as_str(), name) {
                found = Some(self.headers[i].1.clone());
            }
            i = i + 1;
        }
        assert(all.take(self.headers.len() as int) =~= all);
        found
    }

    /// Sets the header `name` to `value`: the first header of that name
    /// gives its place to the new one, later ones of that name go, and the
    /// others stay as they are; where there is none, the new header stands
    /// last.
    pub fn set_header(&mut self, name: String, value: String)
        ensures
            final(self)@ == (RequestView {
                headers: with_header(old(self)@.headers, name@, value@),
                ..old(self)@
            }),
    {
        let mut kept: Vec<(String, String)> = Vec::new();
        let mut placed = false;
        let mut i: usize = 0;
        let ghost all = pair_views(self.headers@);
        assert(all.skip(0) =~= all);
        assert(pair_views(kept@) + with_header(all, name@, value@) =~= with_header(
            all,
            name@,
            value@,
        ));
        while i < self.headers.len()
            invariant
                i <= self.headers.len(),
                *self == *old(self),
                all == pair_views(self.headers@),
                placed ==> with_header(all, name@, value@) == pair_views(kept@) + without_header(
                    all.skip(i as int),
                    name@,
                ),
                !placed ==> with_header(all, name@, value@) == pair_views(kept@) + with_header(
                    all.skip(i as int),
                    name@,
                    value@,
                ),
            decreases self.headers.len() - i,
        {
            let ghost rest = all.skip(i as int);
            let ghost after = all.skip(i as int + 1);
            proof {
                assert(rest.first() == all[i as int]);
                assert(rest.drop_first() =~= after);
                assert(rest =~= seq![all[i as int]] + after);
                lemma_removal_from_the_front(all[i as int], after, name@);
            }
            if names_match(self.headers[i].0.as_str(), name.as_str()) {
                if !placed {
                    let entry = (name.clone(), value.clone());
                    proof {
                        let tail = without_header(after, name@);
                        assert(pair_views(kept@.push(entry)) =~= pair_views(kept@).push(
                            (name@, value@),
                        ));
                        assert(pair_views(kept@).push((name@, value@)) + tail =~= pair_views(kept@)
                            + (seq![(name@, value@)] + tail));
                    }
                    kept.push(entry);
                    placed = true;
                }
            } else {
                let entry = (self.headers[i].0.clone(), self.headers[i].1.clone());
                proof {
                    let x = all[i as int];
                    assert(pair_views(kept@.push(entry)) =~= pair_views(kept@).push(x));
                    let tail = if placed {
                        without_header(after, name@)
                    } else {
                        with_header(after, name@, value@)
                    };
                    assert(pair_views(kept@).push(x) + tail =~= pair_views(kept@) + (seq![x]
                        + tail));
                }
                kept.push(entry);
            }
            i = i + 1;
        }
        if !placed {
            assert(all.skip(self.headers.len() as int) =~= Seq::<(Seq<char>, Seq<char>)>::empty());
            assert(pair_views(kept@.push((name, value))) =~= pair_views(kept@) + seq![
                (name@, value@),
            ]);
            kept.push((name, value));
        } else {
            assert(all.skip(self.headers.len() as int) =~= Seq::<(Seq<char>, Seq<char>)>::empty());
            assert(pair_views(kept@) + Seq::<(Seq<char>, Seq<char>)>::empty() =~= pair_views(
                kept@,
            ));
        }
        self.headers = kept;
    }
}

/// What the service answered.
#[derive(Debug)]
pub struct Response {
    pub status_code: u16,
    pub body: String,
}

impl Response {
    /// Whether the service reported a failure: any status but 200.
    pub fn failed(&self) -> (b: bool)
        ensures
            b == (self.status_code != 200),
    {
        self.status_code != 200
    }
}

/// Leaving out the headers named `name` changes the value of no header
/// with another name, and leaves none named `name`.
pub proof fn lemma_header_after_removal(
    headers: Seq<(Seq<char>, Seq<char>)>,
    name: Seq<char>,
    other: Seq<char>,
)
    ensures
        header_value(without_header(headers, name), other) == if same_name(name, other) {
            None
        } else {
            header_value(headers, other)
        },
    decreases headers.len(),
{
    if headers.len() > 0 {
        lemma_header_after_removal(headers.drop_last(), name, other);
        let h = headers.last();
        if !same_name(h.0, name) {
            let kept = without_header(headers.drop_last(), name).push(h);
            assert(kept.drop_last() =~= without_header(headers.drop_last(), name));
            assert(kept.last() == h);
        }
    }
}

/// Leaving out the headers of a name, seen from the first header.
pub proof fn lemma_removal_from_the_front(
    first: (Seq<char>, Seq<char>),
    rest: Seq<(Seq<char>, Seq<char>)>,
    name: Seq<char>,
)
    ensures
        without_header(seq![first] + rest, name) == if same_name(first.0, name) {
            without_header(rest, name)
        } else {
            seq![first] + without_header(rest, name)
        },
    decreases rest.len(),
{
    let all = seq![first] + rest;
    let none = Seq::<(Seq<char>, Seq<char>)>::empty();
    if rest.len() == 0 {
        assert(all.drop_last() =~= none);
        assert(all.last() == first);
        assert(without_header(none, name) =~= none);
        assert(none.push(first) =~= seq![first] + none);
    } else {
        assert(all.drop_last() =~= seq![first] + rest.drop_last());
        assert(all.last() == rest.last());
        lemma_removal_from_the_front(first, rest.drop_last(), name);
        if !same_name(rest.last().0, name) && !same_name(first.0, name) {
            assert((seq![first] + without_header(rest.drop_last(), name)).push(rest.last())
                =~= seq![first] + without_header(rest.drop_last(), name).push(rest.last()));
        }
    }
}

/// The value of a name, seen from the first header: that of the rest
/// where the rest has the name, else that of the first header where it
/// bears the name.
pub proof fn lemma_value_from_the_front(
    first: (Seq<char>, Seq<char>),
    rest: Seq<(Seq<char>, Seq<char>)>,
    name: Seq<char>,
)
    ensures
        header_value(seq![first] + rest, name) == match header_value(rest, name) {
            Some(v) => Some(v),
            None => if same_name(first.0, name) {
                Some(first.1)
            } else {
                None
            },
        },
    decreases rest.len(),
{
    let all = seq![first] + rest;
    let none = Seq::<(Seq<char>, Seq<char>)>::empty();
    if rest.len() == 0 {
        assert(all.drop_last() =~= none);
        assert(all.last() == first);
        assert(rest =~= none);
        assert(header_value(none, name) is None);
    } else {
        assert(all.drop_last() =~= seq![first] + rest.drop_last());
        assert(all.last() == rest.last());
        lemma_value_from_the_front(first, rest.drop_last(), name);
    }
}

/// After a header is set, its name has the new value and every other name
/// has the value it had.
pub proof fn lemma_header_after_set(
    headers: Seq<(Seq<char>, Seq<char>)>,
    name: Seq<char>,
    value: Seq<char>,
    other: Seq<char>,
)
    ensures
        header_value(with_header(headers, name, value), other) == if same_name(name, other) {
            Some(value)
        } else {
            header_value(headers, other)
        },
    decreases headers.len(),
{
    let none = Seq::<(Seq<char>, Seq<char>)>::empty();
    if headers.len() == 0 {
        assert(seq![(name, value)].drop_last() =~= none);
        assert(seq![(name, value)].last() == (name, value));
        assert(headers =~= none);
        assert(header_value(none, other) is None);
    } else {
        let first = headers.first();
        let rest = headers.drop_first();
        assert(headers =~= seq![first] + rest);
        lemma_value_from_the_front(first, rest, other);
        if same_name(first.0, name) {
            lemma_value_from_the_front((name, value), without_header(rest, name), other);
            lemma_header_after_removal(rest, name, other);
            lemma_same_name_is_an_equivalence(first.0, name, other);
            lemma_same_name_is_an_equivalence(name, first.0, other);
            lemma_same_name_is_an_equivalence(first.0, name, name);
        } else {
            lemma_header_after_set(rest, name, value, other);
            lemma_value_from_the_front(first, with_header(rest, name, value), other);
        }
    }
}

/// Header names are compared by an equivalence: every name is the same as
/// itself, and sameness is symmetric and transitive.
pub proof fn lemma_same_name_is_an_equivalence(a: Seq<char>, b: Seq<char>, c: Seq<char>)
    ensures
        same_name(a, a),
        same_name(a, b) ==> same_name(b, a),
        same_name(a, b) && same_name(b, c) ==> same_name(a, c),
{
    if same_name(a, b) && same_name(b, c) {
        assert forall|i: int| 0 <= i < a.len() implies folded(a[i]) == folded(c[i]) by {
            assert(folded(a[i]) == folded(b[i]));
            assert(folded(b[i]) == folded(c[i]));
        }
    }
}

} // verus!

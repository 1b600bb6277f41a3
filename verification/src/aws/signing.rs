//! Signature Version 4 signing of a request. The signature itself is
//! computed by the `aws-sigv4` crate; this module decides what can be
//! signed, hands the request over and sets the headers that come back.

use crate::auth::AuthError;
use crate::aws::credentials::{
    chosen_profile, profile_name, resolve, resolve_region, Credentials, CredentialsView, Profile,
};
use crate::aws::config::{FileRead, FileText};
use crate::config::{Env, EnvView};
use crate::request::{
    header_value, lemma_header_after_set, lemma_same_name_is_an_equivalence, same_name,
    with_header, with_headers, without_header, Request, RequestView,
};
use crate::text::{chars_of, opt_text, pair_views};
use aws_sigv4::http_request::{sign as sigv4_sign, SignableRequest, SigningParams, SigningSettings};
use std::time::{Duration, UNIX_EPOCH};
use vstd::prelude::*;

verus! {

/// The last second of the year 9999, counted from the Unix epoch: the
/// latest time that can be written in the timestamp of a signature.
pub const MAX_TIMESTAMP: u64 = 253_402_300_799;

/// The most headers that a request may have when it is signed. The
/// signer's header map has at most 32,768 slots and doubles them while a
/// fifth or more are in use; with this many headers and its own three it
/// never asks for more than it can have.
pub const MAX_HEADERS: usize = 4096;

/// All that goes into one signature besides the request.
#[derive(Debug)]
pub struct SigningContext {
    pub credentials: Credentials,
    pub region: String,
    pub service_name: String,
    /// Seconds since the Unix epoch.
    pub timestamp: u64,
}

/// The parts of a `SigningContext`, as text.
pub struct SigningContextView {
    pub credentials: CredentialsView,
    pub region: Seq<char>,
    pub service_name: Seq<char>,
    pub timestamp: u64,
}

impl View for SigningContext {
    type V = SigningContextView;

    open spec fn view(&self) -> SigningContextView {
        SigningContextView {
            credentials: self.credentials@,
            region: self.region@,
            service_name: self.service_name@,
            timestamp: self.timestamp,
        }
    }
}

/// Scheme, authority and path of a URI that has all three.
#[derive(Debug)]
pub struct UriParts {
    pub scheme: String,
    pub authority: String,
    pub path: String,
}

/// What the URI parser reports of a text that it accepts.
#[derive(Debug)]
pub struct ParsedUri {
    pub scheme: Option<String>,
    pub authority: Option<String>,
    pub path: String,
}

/// The texts of an optional `ParsedUri`.
pub open spec fn parsed_view(parts: Option<ParsedUri>) -> Option<
    (Option<Seq<char>>, Option<Seq<char>>, Seq<char>),
> {
    match parts {
        Some(p) => Some((opt_text(p.scheme), opt_text(p.authority), p.path@)),
        None => None,
    }
}

/// The text of an optional string slice.
pub open spec fn opt_str(o: Option<&str>) -> Option<Seq<char>> {
    match o {
        Some(s) => Some(s@),
        None => None,
    }
}

/// The texts of an optional list of headers.
pub open spec fn opt_pairs(o: Option<Vec<(String, String)>>) -> Option<
    Seq<(Seq<char>, Seq<char>)>,
> {
    match o {
        Some(h) => Some(pair_views(h@)),
        None => None,
    }
}

/// What the `http` crate's URI parser makes of `uri`: `None` where it
/// rejects the text, else the scheme and the authority, each where the
/// URI has one, and the path.
pub uninterp spec fn uri_parts(uri: Seq<char>) -> Option<
    (Option<Seq<char>>, Option<Seq<char>>, Seq<char>),
>;

/// The headers that `aws-sigv4` adds to sign a request, with its default
/// settings; `None` where it reports an error.
pub uninterp spec fn sigv4(
    method: Seq<char>,
    uri: Seq<char>,
    headers: Seq<(Seq<char>, Seq<char>)>,
    body: Seq<char>,
    access_key: Seq<char>,
    secret_key: Seq<char>,
    token: Option<Seq<char>>,
    region: Seq<char>,
    service: Seq<char>,
    timestamp: u64,
) -> Option<Seq<(Seq<char>, Seq<char>)>>;

/// Whether `uri` is a URI with a scheme and an authority.
pub open spec fn is_absolute(uri: Seq<char>) -> bool {
    uri_parts(uri) matches Some(p) && p.0 is Some && p.1 is Some
}

/// Whether `c` may stand in the value of a header: a tab, or anything from
/// the space on but the delete character.
pub open spec fn header_char(c: char) -> bool {
    c as u32 == 9 || (c as u32 >= 32 && c as u32 != 127)
}

/// Whether `s` can be the value of a header.
pub open spec fn header_safe(s: Seq<char>) -> bool {
    forall|i: int| 0 <= i < s.len() ==> header_char(#[trigger] s[i])
}

/// Whether `s` can be the value of a header.
pub fn is_header_safe(s: &str) -> (b: bool)
    ensures
        b == header_safe(s@),
{
    let v = chars_of(s);
    let mut i: usize = 0;
    while i < v.len()
        invariant
            i <= v.len(),
            v@ == s@,
            forall|k: int| 0 <= k < i ==> header_char(#[trigger] v@[k]),
        decreases v.len() - i,
    {
        let n: u32 = v[i] as u32;
        if !(n == 9 || (n >= 32 && n != 127)) {
            assert(!header_char(v@[i as int]));
            return false;
        }
        i = i + 1;
    }
    true
}

/// `http::Uri`'s `FromStr`, read out with `Uri::scheme_str`,
/// `Uri::authority` and `Uri::path`: `None` where the parser rejects the
/// text, else what it found, as text. The contract only names the result.
#[verifier::external_body]
fn split_uri(uri: &str) -> (parts: Option<ParsedUri>)
    ensures
        parsed_view(parts) == uri_parts(uri@),
{
    let parsed: http::Uri = uri.parse().ok()?;
    Some(
        ParsedUri {
            scheme: parsed.scheme_str().map(|s| s.to_owned()),
            authority: parsed.authority().map(|a| a.as_str().to_owned()),
            path: parsed.path().to_owned(),
        },
    )
}

/// `aws_sigv4::http_request::sign` with `SigningSettings::default()`, on
/// the request built of the first four arguments: the headers of its
/// signing instructions, as text, or `None` where the request cannot be
/// built or the signer reports an error. The contract names that result
/// and says what the signer's source shows of it: it comes to the date
/// header, the authorization header and, where there is a session token,
/// the token header holding that token, in this order. `requires` leaves
/// out the inputs on which the signer is known to panic: a URI without
/// scheme or authority, an access key, region or service that cannot stand
/// in a header, a time past the year 9999, and more headers than
/// `MAX_HEADERS`, for which its header map may ask for more slots than it
/// can have.
#[verifier::external_body]
fn sigv4_headers(
    method: &str,
    uri: &str,
    headers: &Vec<(String, String)>,
    body: &str,
    access_key: &str,
    secret_key: &str,
    token: Option<&str>,
    region: &str,
    service: &str,
    timestamp: u64,
) -> (added: Option<Vec<(String, String)>>)
    requires
        is_absolute(uri@),
        headers@.len() <= MAX_HEADERS,
        header_safe(access_key@),
        header_safe(region@),
        header_safe(service@),
        timestamp <= MAX_TIMESTAMP,
    ensures
        opt_pairs(added) == sigv4(
            method@,
            uri@,
            pair_views(headers@),
            body@,
            access_key@,
            secret_key@,
            opt_str(token),
            region@,
            service@,
            timestamp,
        ),
        added matches Some(h) ==> names_signature(pair_views(h@), opt_str(token)),
{
    let mut builder = http::Request::builder().method(method).uri(uri);
    for (name, value) in headers {
        builder = builder.header(name, value);
    }
    let unsigned = builder.body(body).ok()?;
    let mut params = SigningParams::builder().access_key(access_key).secret_key(secret_key)
        .region(region).service_name(service).time(UNIX_EPOCH + Duration::from_secs(timestamp))
        .settings(SigningSettings::default());
    params.set_security_token(token);
    Some(
        sigv4_sign(SignableRequest::from(&unsigned), &params.build().ok()?).ok()?.output().headers()?.iter().map(
            |(k, v)| (k.to_string(), String::from_utf8_lossy(v.as_bytes()).into_owned())
        ).collect()
    )
}

/// Whether `added` has the shape of the headers of a signature: the date,
/// the authorization and, where there is a session token, the token.
pub open spec fn names_signature(added: Seq<(Seq<char>, Seq<char>)>, token: Option<Seq<char>>) -> bool {
    &&& added.len() == if token is Some {
        3int
    } else {
        2int
    }
    &&& added[0].0 == "x-amz-date"@
    &&& added[1].0 == "authorization"@
    &&& token matches Some(t) ==> added[2] == ("x-amz-security-token"@, t)
}

/// Whether the signer can be handed `request` and `context`: the URI has a
/// scheme and an authority, there are no more headers than `MAX_HEADERS`,
/// access key, region and service can stand in a header, and the time is
/// no later than `MAX_TIMESTAMP`.
pub open spec fn can_sign(request: RequestView, context: SigningContextView) -> bool {
    &&& is_absolute(request.uri)
    &&& request.headers.len() <= MAX_HEADERS
    &&& header_safe(context.credentials.access_key_id)
    &&& header_safe(context.region)
    &&& header_safe(context.service_name)
    &&& context.timestamp <= MAX_TIMESTAMP
}

/// The headers that sign `request` in `context`, where the signer gives any.
pub open spec fn signature_of(request: RequestView, context: SigningContextView) -> Option<
    Seq<(Seq<char>, Seq<char>)>,
> {
    sigv4(
        request.method.name(),
        request.uri,
        request.headers,
        request.body,
        context.credentials.access_key_id,
        context.credentials.secret_key,
        context.credentials.security_token,
        context.region,
        context.service_name,
        context.timestamp,
    )
}

/// `request` with each header of `added` set: method, URI and body are
/// those of `request`.
pub open spec fn signed(request: RequestView, added: Seq<(Seq<char>, Seq<char>)>) -> RequestView {
    RequestView { headers: with_headers(request.headers, added), ..request }
}

/// The request where there is one, else the error.
pub open spec fn request_view(r: Result<Request, AuthError>) -> Result<RequestView, AuthError> {
    match r {
        Ok(request) => Ok(request@),
        Err(e) => Err(e),
    }
}

/// What signing comes to: the request with the headers of the signature
/// set, where the signer can be handed the inputs and gives the date, the
/// authorization and, for a session token, the token; else
/// `InvalidRequest`.
pub open spec fn sign_outcome(request: RequestView, context: SigningContextView) -> Result<
    RequestView,
    AuthError,
> {
    match signature_of(request, context) {
        Some(added) => if can_sign(request, context) && names_signature(
            added,
            context.credentials.security_token,
        ) {
            Ok(signed(request, added))
        } else {
            Err(AuthError::InvalidRequest)
        },
        None => Err(AuthError::InvalidRequest),
    }
}

/// Whether `name` is one of the three names that a signature sets.
pub open spec fn is_signature_name(name: Seq<char>) -> bool {
    same_name(name, "x-amz-date"@) || same_name(name, "authorization"@) || same_name(
        name,
        "x-amz-security-token"@,
    )
}

/// The headers whose names are none of the three that a signature sets, in
/// their order.
pub open spec fn other_headers(headers: Seq<(Seq<char>, Seq<char>)>) -> Seq<
    (Seq<char>, Seq<char>),
>
    decreases headers.len(),
{
    if headers.len() == 0 {
        Seq::empty()
    } else if is_signature_name(headers.last().0) {
        other_headers(headers.drop_last())
    } else {
        other_headers(headers.drop_last()).push(headers.last())
    }
}

/// Whether `signed` is `request` with a signature for credentials with the
/// session token `token`: method, URI and body are the same; the date and
/// the authorization header are there; the token header holds the token
/// where there is one and is as it was where there is none; the headers of
/// other names are the same, in the same order.
pub open spec fn carries_signature(
    request: RequestView,
    token: Option<Seq<char>>,
    signed: RequestView,
) -> bool {
    &&& signed.method == request.method
    &&& signed.uri == request.uri
    &&& signed.body == request.body
    &&& header_value(signed.headers, "x-amz-date"@) is Some
    &&& header_value(signed.headers, "authorization"@) is Some
    &&& header_value(signed.headers, "x-amz-security-token"@) == match token {
        Some(t) => Some(t),
        None => header_value(request.headers, "x-amz-security-token"@),
    }
    &&& other_headers(signed.headers) == other_headers(request.headers)
    &&& forall|name: Seq<char>|
        !is_signature_name(name) ==> #[trigger] header_value(signed.headers, name) == header_value(
            request.headers,
            name,
        )
}

/// Scheme, authority and path of `uri`: `InvalidRequest` where the text is
/// no URI or lacks a scheme or an authority.
pub fn parse_uri(uri: &str) -> (r: Result<UriParts, AuthError>)
    ensures
        r is Ok == is_absolute(uri@),
        r matches Ok(p) ==> uri_parts(uri@) == Some((Some(p.scheme@), Some(p.authority@), p.path@)),
        r matches Err(e) ==> e == AuthError::InvalidRequest,
{
    match split_uri(uri) {
        Some(ParsedUri { scheme: Some(scheme), authority: Some(authority), path }) => Ok(
            UriParts { scheme, authority, path },
        ),
        _ => Err(AuthError::InvalidRequest),
    }
}

/// Sets each header of `added` on `request`, in order. Nothing else of the
/// request changes.
pub fn apply_signature(request: Request, added: Vec<(String, String)>) -> (r: Request)
    ensures
        r@ == signed(request@, pair_views(added@)),
{
    let mut request = request;
    let mut i: usize = 0;
    let ghost start = request@;
    let ghost all = pair_views(added@);
    assert(all.take(0) =~= Seq::<(Seq<char>, Seq<char>)>::empty());
    while i < added.len()
        invariant
            i <= added.len(),
            all == pair_views(added@),
            request@ == signed(start, all.take(i as int)),
        decreases added.len() - i,
    {
        proof {
            assert(all.take(i as int + 1).drop_last() =~= all.take(i as int));
            assert(all.take(i as int + 1).last() == all[i as int]);
        }
        request.set_header(added[i].0.clone(), added[i].1.clone());
        i = i + 1;
    }
    assert(all.take(added.len() as int) =~= all);
    request
}

/// Signs `request` with the credentials, region, service and time of
/// `context`. The signed request is `request` with the headers of the
/// signature set; `InvalidRequest` comes back where the URI lacks a scheme
/// or an authority, where the request has more headers than `MAX_HEADERS`,
/// where access key, region or service cannot stand in a header, where the
/// time is later than `MAX_TIMESTAMP`, and where the signer reports an
/// error.
pub fn sign(request: Request, context: SigningContext) -> (r: Result<Request, AuthError>)
    ensures
        request_view(r) == sign_outcome(request@, context@),
        r matches Ok(s) ==> carries_signature(
            request@,
            context@.credentials.security_token,
            s@,
        ),
{
    proof {
        lemma_signed_request_carries_signature(request@, context@);
    }
    if context.timestamp > MAX_TIMESTAMP || request.headers.len() > MAX_HEADERS {
        return Err(AuthError::InvalidRequest);
    }
    if !is_header_safe(context.credentials.access_key_id.as_str()) || !is_header_safe(
        context.region.as_str(),
    ) || !is_header_safe(context.service_name.as_str()) {
        return Err(AuthError::InvalidRequest);
    }
    if parse_uri(request.uri.as_str()).is_err() {
        return Err(AuthError::InvalidRequest);
    }
    let token: Option<&str> = match &context.credentials.security_token {
        Some(t) => Some(t.as_str()),
        None => None,
    };
    let added = sigv4_headers(
        request.method.as_str(),
        request.uri.as_str(),
        &request.headers,
        request.body.as_str(),
        context.credentials.access_key_id.as_str(),
        context.credentials.secret_key.as_str(),
        token,
        context.region.as_str(),
        context.service_name.as_str(),
        context.timestamp,
    );
    match added {
        Some(headers) => Ok(apply_signature(request, headers)),
        None => Err(AuthError::InvalidRequest),
    }
}

/// The service that requests are signed for.
pub open spec fn service() -> Seq<char> {
    "es"@
}

/// What resolving and signing comes to: the error of the credentials, else
/// the error of the region, else the outcome of signing for the service
/// with what was resolved for the profile that the environment names.
pub open spec fn sign_request_outcome(
    request: RequestView,
    env: EnvView,
    credentials_file: FileText,
    config_file: FileText,
    timestamp: u64,
) -> Result<RequestView, AuthError> {
    match resolve(chosen_profile(env), env, credentials_file) {
        Err(e) => Err(e),
        Ok(credentials) => match resolve_region(chosen_profile(env), env, config_file) {
            Err(e) => Err(e),
            Ok(region) => sign_outcome(
                request,
                SigningContextView { credentials, region, service_name: service(), timestamp },
            ),
        },
    }
}

/// The session token of the credentials that are resolved for the profile
/// that the environment names, where there is one.
pub open spec fn resolved_token(env: EnvView, credentials_file: FileText) -> Option<Seq<char>> {
    match resolve(chosen_profile(env), env, credentials_file) {
        Ok(credentials) => credentials.security_token,
        Err(_) => None,
    }
}

/// Resolves credentials and region for the profile that the environment
/// names (`default` where it names none) and signs `request` with them at
/// the time `timestamp`, in seconds since the Unix epoch. An error of the
/// resolution comes back unchanged. A request that comes back is `request`
/// with the signature for the resolved credentials.
pub fn sign_request(
    request: Request,
    env: &Env,
    credentials_file: &FileRead,
    config_file: &FileRead,
    timestamp: u64,
) -> (r: Result<Request, AuthError>)
    ensures
        request_view(r) == sign_request_outcome(
            request@,
            env@,
            credentials_file@,
            config_file@,
            timestamp,
        ),
        r matches Ok(s) ==> carries_signature(
            request@,
            resolved_token(env@, credentials_file@),
            s@,
        ),
{
    let profile = profile_name(env);
    let credentials = match Credentials::get(profile.as_str(), env, credentials_file) {
        Ok(c) => c,
        Err(e) => {
            return Err(e);
        },
    };
    let region = match Profile::get(profile.as_str(), env, config_file) {
        Ok(p) => p.region,
        Err(e) => {
            return Err(e);
        },
    };
    let context = SigningContext {
        credentials,
        region,
        service_name: "es".to_owned(),
        timestamp,
    };
    sign(request, context)
}

/// Signing is a function of the request and the context: two signings of
/// the same request with the same credentials, region, service and time
/// come to the same outcome, header for header.
pub proof fn lemma_signing_is_deterministic(
    first: Result<Request, AuthError>,
    second: Result<Request, AuthError>,
    request: RequestView,
    context: SigningContextView,
)
    requires
        request_view(first) == sign_outcome(request, context),
        request_view(second) == sign_outcome(request, context),
    ensures
        request_view(first) == request_view(second),
{
}

/// Signing only adds: method, URI and body of a signed request are those
/// of the request, and a header whose name is none of the names that the
/// signature sets has the value it had.
pub proof fn lemma_signing_is_additive(
    request: RequestView,
    added: Seq<(Seq<char>, Seq<char>)>,
    name: Seq<char>,
)
    requires
        forall|i: int| 0 <= i < added.len() ==> !same_name(#[trigger] added[i].0, name),
    ensures
        signed(request, added).method == request.method,
        signed(request, added).uri == request.uri,
        signed(request, added).body == request.body,
        header_value(signed(request, added).headers, name) == header_value(request.headers, name),
    decreases added.len(),
{
    if added.len() > 0 {
        let before = added.drop_last();
        assert forall|i: int| 0 <= i < before.len() implies !same_name(
            #[trigger] before[i].0,
            name,
        ) by {
            assert(before[i] == added[i]);
        }
        lemma_signing_is_additive(request, before, name);
        lemma_header_after_set(
            with_headers(request.headers, before),
            added.last().0,
            added.last().1,
            name,
        );
    }
}

/// A signed request carries each header of its signature that no later
/// header of the signature replaces.
pub proof fn lemma_signed_request_has_header(
    request: RequestView,
    added: Seq<(Seq<char>, Seq<char>)>,
    i: int,
)
    requires
        0 <= i < added.len(),
        forall|j: int| i < j < added.len() ==> !same_name(#[trigger] added[j].0, added[i].0),
    ensures
        header_value(signed(request, added).headers, added[i].0) == Some(added[i].1),
    decreases added.len(),
{
    let before = added.drop_last();
    if i < added.len() - 1 {
        assert(before[i] == added[i]);
        assert forall|j: int| i < j < before.len() implies !same_name(
            #[trigger] before[j].0,
            before[i].0,
        ) by {
            assert(before[j] == added[j]);
        }
        lemma_signed_request_has_header(request, before, i);
    }
    lemma_header_after_set(
        with_headers(request.headers, before),
        added.last().0,
        added.last().1,
        added[i].0,
    );
}

/// Leaving out the headers of one of the three names changes nothing
/// among the headers of other names.
pub proof fn lemma_other_headers_after_removal(
    headers: Seq<(Seq<char>, Seq<char>)>,
    name: Seq<char>,
)
    requires
        is_signature_name(name),
    ensures
        other_headers(without_header(headers, name)) == other_headers(headers),
    decreases headers.len(),
{
    if headers.len() > 0 {
        let h = headers.last();
        lemma_other_headers_after_removal(headers.drop_last(), name);
        if same_name(h.0, name) {
            lemma_same_name_is_an_equivalence(h.0, name, "x-amz-date"@);
            lemma_same_name_is_an_equivalence(h.0, name, "authorization"@);
            lemma_same_name_is_an_equivalence(h.0, name, "x-amz-security-token"@);
        } else {
            let kept = without_header(headers.drop_last(), name).push(h);
            assert(kept.drop_last() =~= without_header(headers.drop_last(), name));
            assert(kept.last() == h);
        }
    }
}

/// The headers of other names, seen from the first header.
pub proof fn lemma_other_headers_from_the_front(
    first: (Seq<char>, Seq<char>),
    rest: Seq<(Seq<char>, Seq<char>)>,
)
    ensures
        other_headers(seq![first] + rest) == if is_signature_name(first.0) {
            other_headers(rest)
        } else {
            seq![first] + other_headers(rest)
        },
    decreases rest.len(),
{
    let all = seq![first] + rest;
    let none = Seq::<(Seq<char>, Seq<char>)>::empty();
    if rest.len() == 0 {
        assert(all.drop_last() =~= none);
        assert(all.last() == first);
        assert(other_headers(none) =~= none);
        assert(none.push(first) =~= seq![first] + none);
    } else {
        assert(all.drop_last() =~= seq![first] + rest.drop_last());
        assert(all.last() == rest.last());
        lemma_other_headers_from_the_front(first, rest.drop_last());
        if !is_signature_name(rest.last().0) && !is_signature_name(first.0) {
            assert((seq![first] + other_headers(rest.drop_last())).push(rest.last()) =~= seq![
                first,
            ] + other_headers(rest.drop_last()).push(rest.last()));
        }
    }
}

/// Setting a header of one of the three names changes nothing among the
/// headers of other names.
pub proof fn lemma_other_headers_after_set(
    headers: Seq<(Seq<char>, Seq<char>)>,
    name: Seq<char>,
    value: Seq<char>,
)
    requires
        is_signature_name(name),
    ensures
        other_headers(with_header(headers, name, value)) == other_headers(headers),
    decreases headers.len(),
{
    let none = Seq::<(Seq<char>, Seq<char>)>::empty();
    if headers.len() == 0 {
        lemma_other_headers_from_the_front((name, value), none);
        assert(seq![(name, value)] + none =~= seq![(name, value)]);
    } else {
        let first = headers.first();
        let rest = headers.drop_first();
        assert(headers =~= seq![first] + rest);
        lemma_other_headers_from_the_front(first, rest);
        if same_name(first.0, name) {
            lemma_other_headers_from_the_front((name, value), without_header(rest, name));
            lemma_other_headers_after_removal(rest, name);
            lemma_same_name_is_an_equivalence(first.0, name, "x-amz-date"@);
            lemma_same_name_is_an_equivalence(first.0, name, "authorization"@);
            lemma_same_name_is_an_equivalence(first.0, name, "x-amz-security-token"@);
        } else {
            lemma_other_headers_after_set(rest, name, value);
            lemma_other_headers_from_the_front(first, with_header(rest, name, value));
        }
    }
}

/// Setting headers of the three names changes nothing among the headers
/// of other names: they keep their values and their order.
pub proof fn lemma_other_headers_after_signing(
    headers: Seq<(Seq<char>, Seq<char>)>,
    added: Seq<(Seq<char>, Seq<char>)>,
)
    requires
        forall|i: int| 0 <= i < added.len() ==> is_signature_name(#[trigger] added[i].0),
    ensures
        other_headers(with_headers(headers, added)) == other_headers(headers),
    decreases added.len(),
{
    if added.len() > 0 {
        let before = added.drop_last();
        assert forall|i: int| 0 <= i < before.len() implies is_signature_name(
            #[trigger] before[i].0,
        ) by {
            assert(before[i] == added[i]);
        }
        lemma_other_headers_after_signing(headers, before);
        let so_far = with_headers(headers, before);
        let last = added.last();
        assert(is_signature_name(added[added.len() - 1].0));
        lemma_other_headers_after_set(so_far, last.0, last.1);
    }
}

/// A request that signing gives back is the request with its signature:
/// the date and the authorization header are set, the token header holds
/// the session token where the credentials have one, and everything else
/// is as it was.
pub proof fn lemma_signed_request_carries_signature(
    request: RequestView,
    context: SigningContextView,
)
    ensures
        sign_outcome(request, context) matches Ok(s) ==> carries_signature(
            request,
            context.credentials.security_token,
            s,
        ),
{
    if let Ok(s) = sign_outcome(request, context) {
        let added = signature_of(request, context)->0;
        let token = context.credentials.security_token;
        let date = "x-amz-date"@;
        let authorization = "authorization"@;
        let token_name = "x-amz-security-token"@;
        reveal_strlit("x-amz-date");
        reveal_strlit("authorization");
        reveal_strlit("x-amz-security-token");
        assert(date.len() == 10);
        assert(authorization.len() == 13);
        assert(token_name.len() == 20);
        lemma_same_name_is_an_equivalence(date, date, date);
        lemma_same_name_is_an_equivalence(authorization, authorization, authorization);
        lemma_same_name_is_an_equivalence(token_name, token_name, token_name);
        lemma_signed_request_has_header(request, added, 0);
        lemma_signed_request_has_header(request, added, 1);
        if token is Some {
            lemma_signed_request_has_header(request, added, 2);
        } else {
            lemma_signing_is_additive(request, added, token_name);
        }
        assert forall|i: int| 0 <= i < added.len() implies is_signature_name(
            #[trigger] added[i].0,
        ) by {}
        lemma_other_headers_after_signing(request.headers, added);
        assert forall|name: Seq<char>| !is_signature_name(name) implies #[trigger] header_value(
            s.headers,
            name,
        ) == header_value(request.headers, name) by {
            assert forall|i: int| 0 <= i < added.len() implies !same_name(
                #[trigger] added[i].0,
                name,
            ) by {
                lemma_same_name_is_an_equivalence(added[i].0, name, name);
            }
            lemma_signing_is_additive(request, added, name);
        }
    }
}

} // verus!

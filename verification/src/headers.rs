//! The headers of an upstream request.
use vstd::prelude::*;
use crate::backend::{config_of, Backend};
use crate::text;

verus! {

/// One header: its name and the bytes of its value.
#[derive(Debug, PartialEq, Eq)]
pub struct Header {
    pub name: String,
    pub value: Vec<u8>,
}

/// What a header says.
pub type HeaderView = (Seq<char>, Seq<u8>);

impl View for Header {
    type V = HeaderView;

    open spec fn view(&self) -> HeaderView {
        (self.name@, self.value@)
    }
}

/// What a list of headers says.
pub open spec fn headers_view(headers: Seq<Header>) -> Seq<HeaderView> {
    Seq::new(headers.len(), |i: int| headers[i]@)
}

/// Headers that the client owns, that carry credentials, or that are hop-by-hop.
pub open spec fn reserved_names() -> Seq<Seq<char>> {
    seq![
        "host"@,
        "content-length"@,
        "connection"@,
        "authorization"@,
        "proxy-authorization"@,
        "proxy-authenticate"@,
        "cookie"@,
        "set-cookie"@,
        "x-api-key"@,
        "chatgpt-account-id"@,
        "x-openai-fedramp"@,
        "api-key"@,
        "openai-organization"@,
        "openai-project"@,
        "anthropic-beta"@,
        "anthropic-version"@,
        "content-type"@,
        "accept-encoding"@,
    ]
}

/// Two header names are the same but for the case of ASCII letters.
pub open spec fn same_name(a: Seq<char>, b: Seq<char>) -> bool {
    text::lower(a) == text::lower(b)
}

/// The name is reserved.
pub open spec fn reserved(name: Seq<char>) -> bool {
    exists|i: int| 0 <= i < reserved_names().len() && same_name(name, #[trigger] reserved_names()[i])
}

/// The backend sets a header of this name itself.
pub open spec fn overridden(name: Seq<char>, extra: Seq<(String, String)>) -> bool {
    exists|i: int| 0 <= i < extra.len() && same_name((#[trigger] extra[i]).0@, name)
}

/// A character that may stand in a header name.
pub open spec fn name_char(c: char) -> bool {
    ||| 'a' <= c && c <= 'z'
    ||| 'A' <= c && c <= 'Z'
    ||| '0' <= c && c <= '9'
    ||| c == '!' || c == '#' || c == '$' || c == '%' || c == '&'
    ||| c == '\'' || c == '*' || c == '+' || c == '-' || c == '.'
    ||| c == '^' || c == '_' || c == '`' || c == '|' || c == '~'
}

/// A text is a header name.
pub open spec fn valid_name(name: Seq<char>) -> bool {
    &&& 0 < name.len() <= 65535
    &&& forall|i: int| 0 <= i < name.len() ==> name_char(#[trigger] name[i])
}

/// A text is a header value: it holds no control character but the tab.
pub open spec fn valid_value(value: Seq<char>) -> bool {
    forall|i: int|
        0 <= i < value.len() ==> (#[trigger] value[i]) == '\t' || (value[i] as u32 >= 32
            && value[i] as u32 != 127)
}

/// Calls `http::HeaderName::from_bytes`. The claim: it accepts the names of one to
/// 65535 characters that are letters, digits or token punctuation, all of ASCII,
/// and no others.
#[verifier::external_body]
fn is_header_name(name: &str) -> (r: bool)
    ensures
        r == valid_name(name@),
{
    http::HeaderName::from_bytes(name.as_bytes()).is_ok()
}

/// Calls `http::HeaderValue::from_str`. The claim: it accepts the texts without
/// control characters other than the tab, characters beyond ASCII among them, and
/// no others.
#[verifier::external_body]
fn is_header_value(value: &str) -> (r: bool)
    ensures
        r == valid_value(value@),
{
    http::HeaderValue::from_str(value).is_ok()
}

/// The name of the first header of a backend that cannot be sent.
pub open spec fn bad_header(extra: Seq<(String, String)>) -> Option<Seq<char>>
    decreases extra.len(),
{
    if extra.len() == 0 {
        None
    } else if !(valid_name(extra[0].0@) && valid_value(extra[0].1@)) {
        Some(extra[0].0@)
    } else {
        bad_header(extra.drop_first())
    }
}

/// The name of the first of a backend's own headers that cannot be sent.
pub fn find_bad_header(backend: &Backend) -> (r: Option<String>)
    ensures
        text::opt_text(r) == bad_header(config_of(*backend).extra_headers@),
{
    let extra = &backend.config().extra_headers;
    let mut i: usize = 0;
    proof {
        assert(extra@.skip(0) =~= extra@);
    }
    while i < extra.len()
        invariant
            i <= extra.len(),
            bad_header(config_of(*backend).extra_headers@) == bad_header(extra@.skip(i as int)),
        decreases extra.len() - i,
    {
        if !is_header_name(extra[i].0.as_str()) || !is_header_value(extra[i].1.as_str()) {
            return Some(text::copy_str(extra[i].0.as_str()));
        }
        proof {
            assert(extra@.skip(i as int).drop_first() =~= extra@.skip(i + 1));
        }
        i = i + 1;
    }
    None
}

/// The caller's headers that go upstream: those that are neither reserved nor
/// set by the backend, in order.
pub open spec fn forwarded(headers: Seq<HeaderView>, extra: Seq<(String, String)>) -> Seq<
    HeaderView,
> {
    headers.filter(|h: HeaderView| !reserved(h.0) && !overridden(h.0, extra))
}

/// The backend's own headers, as name and text.
pub open spec fn own_headers(extra: Seq<(String, String)>) -> Seq<(Seq<char>, Seq<char>)> {
    Seq::new(extra.len(), |i: int| (extra[i].0@, extra[i].1@))
}

fn reserved_list() -> (r: Vec<&'static str>)
    ensures
        r@.len() == reserved_names().len(),
        forall|i: int| 0 <= i < r@.len() ==> (#[trigger] r@[i])@ == reserved_names()[i],
{
    vec![
        "host",
        "content-length",
        "connection",
        "authorization",
        "proxy-authorization",
        "proxy-authenticate",
        "cookie",
        "set-cookie",
        "x-api-key",
        "chatgpt-account-id",
        "x-openai-fedramp",
        "api-key",
        "openai-organization",
        "openai-project",
        "anthropic-beta",
        "anthropic-version",
        "content-type",
        "accept-encoding",
    ]
}

/// Whether two header names are the same but for the case of ASCII letters.
pub fn eq_ignore_case(a: &str, b: &str) -> (r: bool)
    ensures
        r == same_name(a@, b@),
{
    let x = text::to_lower(a);
    let y = text::to_lower(b);
    text::str_eq(x.as_str(), y.as_str())
}

/// Case-insensitive membership test against the reserved names.
pub fn is_reserved_header(name: &str) -> (r: bool)
    ensures
        r == reserved(name@),
{
    let list = reserved_list();
    let mut i: usize = 0;
    while i < list.len()
        invariant
            i <= list.len(),
            list@.len() == reserved_names().len(),
            forall|k: int| 0 <= k < list@.len() ==> (#[trigger] list@[k])@ == reserved_names()[k],
            forall|k: int| 0 <= k < i ==> !same_name(name@, #[trigger] reserved_names()[k]),
        decreases list.len() - i,
    {
        assert(list@[i as int]@ == reserved_names()[i as int]);
        if eq_ignore_case(name, list[i]) {
            return true;
        }
        i = i + 1;
    }
    false
}

fn is_overridden(name: &str, extra: &Vec<(String, String)>) -> (r: bool)
    ensures
        r == overridden(name@, extra@),
{
    let mut i: usize = 0;
    while i < extra.len()
        invariant
            i <= extra.len(),
            forall|k: int| 0 <= k < i ==> !same_name((#[trigger] extra@[k]).0@, name@),
        decreases extra.len() - i,
    {
        if eq_ignore_case(extra[i].0.as_str(), name) {
            assert(same_name(extra@[i as int].0@, name@));
            return true;
        }
        i = i + 1;
    }
    false
}

/// The caller's headers that go upstream: all but credentials, client-owned
/// headers, and those that the backend sets itself.
pub fn forward_metadata_headers(headers: &Vec<Header>, backend: &Backend) -> (r: Vec<Header>)
    ensures
        headers_view(r@) == forwarded(headers_view(headers@), config_of(*backend).extra_headers@),
{
    let extra = &backend.config().extra_headers;
    let ghost all = headers_view(headers@);
    let ghost keep = |h: HeaderView| !reserved(h.0) && !overridden(h.0, extra@);
    let mut out: Vec<Header> = Vec::new();
    let mut i: usize = 0;
    proof {
        reveal(Seq::filter);
        assert(all.take(0).filter(keep) =~= Seq::empty());
        assert(headers_view(out@) =~= Seq::empty());
    }
    while i < headers.len()
        invariant
            i <= headers.len(),
            all == headers_view(headers@),
            keep == (|h: HeaderView| !reserved(h.0) && !overridden(h.0, extra@)),
            headers_view(out@) == all.take(i as int).filter(keep),
        decreases headers.len() - i,
    {
        let header = &headers[i];
        proof {
            reveal(Seq::filter);
            assert(all.take(i + 1).drop_last() =~= all.take(i as int));
            assert(all.take(i + 1).last() == header@);
        }
        if !is_reserved_header(header.name.as_str()) && !is_overridden(
            header.name.as_str(),
            extra,
        ) {
            let ghost before = headers_view(out@);
            out.push(
                Header { name: text::copy_str(header.name.as_str()), value: copy_bytes(&header.value) },
            );
            proof {
                assert(headers_view(out@) =~= before.push(header@));
            }
        }
        i = i + 1;
    }
    proof {
        assert(all.take(all.len() as int) =~= all);
    }
    out
}

fn copy_bytes(bytes: &Vec<u8>) -> (r: Vec<u8>)
    ensures
        r@ == bytes@,
{
    let mut out: Vec<u8> = Vec::new();
    let mut i: usize = 0;
    while i < bytes.len()
        invariant
            i <= bytes.len(),
            out@ == bytes@.take(i as int),
        decreases bytes.len() - i,
    {
        out.push(bytes[i]);
        proof {
            assert(bytes@.take(i + 1) =~= bytes@.take(i as int).push(bytes@[i as int]));
        }
        i = i + 1;
    }
    proof {
        assert(bytes@.take(bytes@.len() as int) =~= bytes@);
    }
    out
}

/// The backend's own per-call headers, each once, in order.
pub fn apply_extra_headers(backend: &Backend) -> (r: Vec<(String, String)>)
    ensures
        own_headers(r@) == own_headers(config_of(*backend).extra_headers@),
{
    let extra = &backend.config().extra_headers;
    let mut out: Vec<(String, String)> = Vec::new();
    let mut i: usize = 0;
    while i < extra.len()
        invariant
            i <= extra.len(),
            out.len() == i,
            forall|k: int|
                0 <= k < i ==> (#[trigger] out@[k]).0@ == extra@[k].0@ && out@[k].1@
                    == extra@[k].1@,
        decreases extra.len() - i,
    {
        out.push((text::copy_str(extra[i].0.as_str()), text::copy_str(extra[i].1.as_str())));
        i = i + 1;
    }
    proof {
        assert(own_headers(out@) =~= own_headers(extra@));
    }
    out
}

/// No forwarded header is reserved, and none has the name of a header that the
/// backend sets: the backend's value is applied exactly once.
pub proof fn forwarded_headers_are_the_callers_to_set(
    headers: Seq<HeaderView>,
    extra: Seq<(String, String)>,
    i: int,
)
    requires
        0 <= i < forwarded(headers, extra).len(),
    ensures
        !reserved(forwarded(headers, extra)[i].0),
        !overridden(forwarded(headers, extra)[i].0, extra),
        headers.contains(forwarded(headers, extra)[i]),
{
    let keep = |h: HeaderView| !reserved(h.0) && !overridden(h.0, extra);
    headers.lemma_filter_contains_rev(keep, forwarded(headers, extra)[i]);
    headers.lemma_filter_pred(keep, i);
}

/// A header of the caller's that is neither reserved nor set by the backend goes
/// upstream.
pub proof fn other_headers_are_forwarded(
    headers: Seq<HeaderView>,
    extra: Seq<(String, String)>,
    i: int,
)
    requires
        0 <= i < headers.len(),
        !reserved(headers[i].0),
        !overridden(headers[i].0, extra),
    ensures
        forwarded(headers, extra).contains(headers[i]),
{
    let keep = |h: HeaderView| !reserved(h.0) && !overridden(h.0, extra);
    headers.lemma_filter_contains(keep, i);
}

/// The names of all headers that go upstream beside the credentials: the
/// forwarded ones, then the backend's own.
pub open spec fn outgoing_names(headers: Seq<HeaderView>, extra: Seq<(String, String)>) -> Seq<
    Seq<char>,
> {
    Seq::new(forwarded(headers, extra).len(), |i: int| forwarded(headers, extra)[i].0) + Seq::new(
        extra.len(),
        |i: int| extra[i].0@,
    )
}

/// A header that the backend sets, under a name of its own among the backend's
/// headers, goes upstream exactly once, whatever the caller sends.
pub proof fn backend_header_is_applied_exactly_once(
    headers: Seq<HeaderView>,
    extra: Seq<(String, String)>,
    i: int,
    k: int,
)
    requires
        0 <= i < extra.len(),
        forall|j: int|
            0 <= j < extra.len() && j != i ==> !same_name((#[trigger] extra[j]).0@, extra[i].0@),
        0 <= k < outgoing_names(headers, extra).len(),
    ensures
        same_name(outgoing_names(headers, extra)[k], extra[i].0@) <==> k == forwarded(
            headers,
            extra,
        ).len() + i,
{
    let n = forwarded(headers, extra).len();
    if k < n {
        forwarded_headers_are_the_callers_to_set(headers, extra, k);
        if same_name(outgoing_names(headers, extra)[k], extra[i].0@) {
            assert(same_name(extra[i].0@, forwarded(headers, extra)[k].0));
            assert(overridden(forwarded(headers, extra)[k].0, extra));
        }
    } else {
        assert(outgoing_names(headers, extra)[k] == extra[k - n].0@);
    }
}

/// The reserved names, in any case, and no others.
pub proof fn reserved_names_are(name: &str, r: bool)
    requires
        call_ensures(is_reserved_header, (name,), r),
    ensures
        r <==> {
            let n = text::lower(name@);
            ||| n == text::lower("host"@)
            ||| n == text::lower("content-length"@)
            ||| n == text::lower("connection"@)
            ||| n == text::lower("authorization"@)
            ||| n == text::lower("proxy-authorization"@)
            ||| n == text::lower("proxy-authenticate"@)
            ||| n == text::lower("cookie"@)
            ||| n == text::lower("set-cookie"@)
            ||| n == text::lower("x-api-key"@)
            ||| n == text::lower("chatgpt-account-id"@)
            ||| n == text::lower("x-openai-fedramp"@)
            ||| n == text::lower("api-key"@)
            ||| n == text::lower("openai-organization"@)
            ||| n == text::lower("openai-project"@)
            ||| n == text::lower("anthropic-beta"@)
            ||| n == text::lower("anthropic-version"@)
            ||| n == text::lower("content-type"@)
            ||| n == text::lower("accept-encoding"@)
        },
{
    let p = reserved_names();
    assert(p[0] == "host"@ && p[1] == "content-length"@ && p[2] == "connection"@ && p[3]
        == "authorization"@ && p[4] == "proxy-authorization"@ && p[5] == "proxy-authenticate"@);
    assert(p[6] == "cookie"@ && p[7] == "set-cookie"@ && p[8] == "x-api-key"@ && p[9]
        == "chatgpt-account-id"@ && p[10] == "x-openai-fedramp"@ && p[11] == "api-key"@);
    assert(p[12] == "openai-organization"@ && p[13] == "openai-project"@ && p[14]
        == "anthropic-beta"@ && p[15] == "anthropic-version"@ && p[16] == "content-type"@ && p[17]
        == "accept-encoding"@);
}

/// Each header of the caller's goes upstream as it came, in its turn, unless its name
/// is reserved or the backend sets a header that has the same name but for case.
pub proof fn headers_are_forwarded_in_order(
    headers: Seq<HeaderView>,
    header: HeaderView,
    extra: Seq<(String, String)>,
    name: &str,
    withheld: bool,
)
    requires
        name@ == header.0,
        call_ensures(is_reserved_header, (name,), withheld),
    ensures
        forwarded(Seq::empty(), extra) == Seq::<HeaderView>::empty(),
        forwarded(headers.push(header), extra) == (if withheld || (exists|i: int|
            0 <= i < extra.len() && text::lower((#[trigger] extra[i]).0@) == text::lower(header.0)) {
            forwarded(headers, extra)
        } else {
            forwarded(headers, extra).push(header)
        }),
{
    reveal(Seq::filter);
    assert(headers.push(header).drop_last() =~= headers);
    if overridden(header.0, extra) {
        let i = choose|i: int| 0 <= i < extra.len() && same_name((#[trigger] extra[i]).0@, header.0);
        assert(text::lower(extra[i].0@) == text::lower(header.0));
    }
    if exists|i: int|
        0 <= i < extra.len() && text::lower((#[trigger] extra[i]).0@) == text::lower(header.0) {
        let i = choose|i: int|
            0 <= i < extra.len() && text::lower((#[trigger] extra[i]).0@) == text::lower(header.0);
        assert(same_name(extra[i].0@, header.0));
    }
}

/// The backend's own headers go out as they are configured, each once, in order.
pub proof fn own_headers_go_out_as_configured(
    backend: Backend,
    r: Vec<(String, String)>,
    i: int,
)
    requires
        call_ensures(apply_extra_headers, (&backend,), r),
    ensures
        r@.len() == config_of(backend).extra_headers@.len(),
        0 <= i < r@.len() ==> r@[i].0@ == config_of(backend).extra_headers@[i].0@ && r@[i].1@
            == config_of(backend).extra_headers@[i].1@,
{
    let extra = config_of(backend).extra_headers@;
    assert(own_headers(r@).len() == own_headers(extra).len());
    if 0 <= i < r@.len() {
        assert(own_headers(r@)[i] == own_headers(extra)[i]);
    }
}

/// The first header that cannot be sent is the one that is named: every one before
/// it has a name of token characters and a value without control characters other
/// than the tab.
pub proof fn first_bad_header_is_named(backend: Backend, r: Option<String>, i: int)
    requires
        call_ensures(find_bad_header, (&backend,), r),
        0 <= i < config_of(backend).extra_headers@.len(),
    ensures
        ({
            let extra = config_of(backend).extra_headers@;
            &&& r is None ==> valid_name(extra[i].0@) && valid_value(extra[i].1@)
            &&& !(valid_name(extra[i].0@) && valid_value(extra[i].1@)) && (forall|j: int|
                0 <= j < i ==> valid_name((#[trigger] extra[j]).0@) && valid_value(extra[j].1@))
                ==> r is Some && r->0@ == extra[i].0@
        }),
{
    bad_header_at(config_of(backend).extra_headers@, i);
}

proof fn bad_header_at(extra: Seq<(String, String)>, i: int)
    requires
        0 <= i < extra.len(),
    ensures
        bad_header(extra) is None ==> valid_name(extra[i].0@) && valid_value(extra[i].1@),
        !(valid_name(extra[i].0@) && valid_value(extra[i].1@)) && (forall|j: int|
            0 <= j < i ==> valid_name((#[trigger] extra[j]).0@) && valid_value(extra[j].1@))
            ==> bad_header(extra) == Some(extra[i].0@),
    decreases extra.len(),
{
    if i > 0 {
        let rest = extra.drop_first();
        assert(rest[i - 1] == extra[i]);
        bad_header_at(rest, i - 1);
        if forall|j: int|
            0 <= j < i ==> valid_name((#[trigger] extra[j]).0@) && valid_value(extra[j].1@) {
            assert(valid_name(extra[0].0@) && valid_value(extra[0].1@));
            assert forall|j: int| 0 <= j < i - 1 implies valid_name((#[trigger] rest[j]).0@)
                && valid_value(rest[j].1@) by {
                assert(rest[j] == extra[j + 1]);
            }
        }
    }
}

/// Which headers can be sent is decided character by character: a value takes the tab
/// and everything but the other controls; a name takes letters, digits and token
/// punctuation, but no space, colon or control, and is not empty.
pub proof fn headers_are_valid_by_their_characters(a: Seq<char>, b: Seq<char>, c: char)
    ensures
        valid_value(Seq::empty()),
        valid_value(a + b) <==> valid_value(a) && valid_value(b),
        valid_value(seq![c]) <==> c == '\t' || (c as u32 > 31 && c as u32 != 127),
        !valid_name(Seq::empty()),
        a.len() + b.len() <= 65535 && valid_name(a) && valid_name(b) ==> valid_name(a + b),
        valid_name(a + b) && a.len() > 0 ==> valid_name(a),
        valid_name(seq![c]) ==> 33 <= c as u32 <= 126 && c != ':',
        'a' <= c && c <= 'z' || 'A' <= c && c <= 'Z' || '0' <= c && c <= '9' || c == '-' || c == '_'
            ==> valid_name(seq![c]),
{
    let whole = a + b;
    if valid_value(whole) {
        assert forall|i: int| 0 <= i < a.len() implies (#[trigger] a[i]) == '\t' || (a[i] as u32
            >= 32 && a[i] as u32 != 127) by {
            assert(whole[i] == a[i]);
        }
        assert forall|i: int| 0 <= i < b.len() implies (#[trigger] b[i]) == '\t' || (b[i] as u32
            >= 32 && b[i] as u32 != 127) by {
            assert(whole[a.len() + i] == b[i]);
        }
    }
    if valid_value(seq![c]) {
        assert(seq![c][0] == c);
    }
    if valid_name(whole) {
        assert forall|i: int| 0 <= i < a.len() implies name_char(#[trigger] a[i]) by {
            assert(whole[i] == a[i]);
        }
    }
    if valid_name(seq![c]) {
        assert(name_char(seq![c][0]));
    }
}

} // verus!

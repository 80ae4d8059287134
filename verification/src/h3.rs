//! Requests over HTTP/3: their heads and bodies, and the errors that are told
//! without a request.

use vstd::prelude::*;
use vstd::utf8::{decode_utf8, valid_utf8};

use crate::json::{Fields, Json, JsonView};
use crate::response::{Reply, ReplyView};
use crate::security::is_header_byte;
use crate::sort::views;
use crate::text::{opt_text, owned, res_text};

verus! {

/// How many bytes the body of a request has at most.
pub const MAX_H3_BODY_BYTES: usize = 4194304;

/// A header as it comes.
#[derive(Debug)]
pub struct H3Header {
    pub name: Vec<u8>,
    pub value: Vec<u8>,
}

/// What was read of a header.
#[derive(Debug)]
pub enum ReadHeader {
    /// The method, or why it is none.
    Method(Result<String, String>),
    /// The path, where it is text.
    Path(Option<String>),
    /// Another header of the protocol.
    Other,
    /// A header of the request: its name, or why it is none, and its value, or
    /// why it is none.
    Plain(Result<String, String>, Result<Vec<u8>, String>),
}

/// What was read of a header.
pub ghost enum ReadView {
    Method(Result<Seq<char>, Seq<char>>),
    Path(Option<Seq<char>>),
    Other,
    Plain(Result<Seq<char>, Seq<char>>, Result<Seq<u8>, Seq<char>>),
}

/// Bytes, or why there are none.
pub open spec fn res_bytes(r: Result<Vec<u8>, String>) -> Result<Seq<u8>, Seq<char>> {
    match r {
        Ok(b) => Ok(b@),
        Err(e) => Err(e@),
    }
}

impl View for ReadHeader {
    type V = ReadView;

    open spec fn view(&self) -> ReadView {
        match self {
            ReadHeader::Method(r) => ReadView::Method(res_text(*r)),
            ReadHeader::Path(p) => ReadView::Path(opt_text(*p)),
            ReadHeader::Other => ReadView::Other,
            ReadHeader::Plain(n, v) => ReadView::Plain(res_text(*n), res_bytes(*v)),
        }
    }
}

/// The head of a request.
#[derive(Debug)]
pub struct RequestHead {
    pub method: String,
    pub path: String,
    pub headers: Vec<(String, Vec<u8>)>,
}

/// Headers as they are.
pub open spec fn header_views(headers: Seq<(String, Vec<u8>)>) -> Seq<(Seq<char>, Seq<u8>)> {
    headers.map_values(|h: (String, Vec<u8>)| (h.0@, h.1@))
}

/// What the head of a request is, as far as it was read.
pub ghost struct PartialHead {
    pub method: Option<Seq<char>>,
    pub path: Option<Seq<char>>,
    pub headers: Seq<(Seq<char>, Seq<u8>)>,
}

/// What a head is with one more header.
pub open spec fn with_header(h: PartialHead, r: ReadView) -> Result<PartialHead, Seq<char>> {
    match r {
        ReadView::Method(Ok(m)) => Ok(PartialHead { method: Some(m), ..h }),
        ReadView::Method(Err(e)) => Err(e),
        ReadView::Path(Some(p)) => Ok(PartialHead { path: Some(p), ..h }),
        ReadView::Path(None) => Err("invalid :path utf-8"@),
        ReadView::Other => Ok(h),
        ReadView::Plain(Err(e), _) => Err(e),
        ReadView::Plain(Ok(_), Err(e)) => Err(e),
        ReadView::Plain(Ok(n), Ok(v)) => Ok(PartialHead { headers: h.headers.push((n, v)), ..h }),
    }
}

/// What the head of some headers is; the first header that is wrong decides.
pub open spec fn head_of(read: Seq<ReadView>) -> Result<PartialHead, Seq<char>>
    decreases read.len(),
{
    if read.len() == 0 {
        Ok(PartialHead { method: None, path: None, headers: Seq::empty() })
    } else {
        match head_of(read.drop_last()) {
            Ok(h) => with_header(h, read.last()),
            Err(e) => Err(e),
        }
    }
}

/// A head is that of some headers.
pub open spec fn is_head(head: RequestHead, read: Seq<ReadView>) -> bool {
    head_of(read) == Ok::<PartialHead, Seq<char>>(
        PartialHead {
            method: Some(head.method@),
            path: Some(head.path@),
            headers: header_views(head.headers@),
        },
    )
}

/// What is wrong with the head of a request.
pub open spec fn head_problem(read: Seq<ReadView>) -> Option<Seq<char>> {
    match head_of(read) {
        Err(e) => Some(e),
        Ok(h) => if h.method is None {
            Some("missing :method pseudo-header"@)
        } else if h.path is None {
            Some("missing :path pseudo-header"@)
        } else {
            None
        },
    }
}

proof fn lemma_problem_stays(read: Seq<ReadView>, n: int)
    requires
        0 <= n <= read.len(),
        head_of(read.take(n)) is Err,
    ensures
        head_of(read) == head_of(read.take(n)),
    decreases read.len() - n,
{
    if n < read.len() {
        assert(read.take(n + 1).drop_last() =~= read.take(n));
        lemma_problem_stays(read, n + 1);
    } else {
        assert(read.take(n) =~= read);
    }
}

/// The head of a request, from what was read of its headers. Of a header of the
/// protocol that comes more than once the last counts.
pub fn assemble_head(read: Vec<ReadHeader>) -> (r: Result<RequestHead, String>)
    ensures
        match r {
            Ok(head) => head_problem(views(read@)) is None && is_head(head, views(read@)),
            Err(e) => head_problem(views(read@)) == Some(e@),
        },
{
    let ghost all = views(read@);
    let mut method: Option<String> = None;
    let mut path: Option<String> = None;
    let mut headers: Vec<(String, Vec<u8>)> = Vec::new();
    assert(all.take(0) =~= Seq::empty());
    assert(header_views(headers@) =~= Seq::empty());
    for one in iter: read
        invariant
            iter.seq() == read@,
            all == views(read@),
            head_of(all.take(iter.index() as int)) == Ok::<PartialHead, Seq<char>>(
                PartialHead {
                    method: opt_text(method),
                    path: opt_text(path),
                    headers: header_views(headers@),
                },
            ),
    {
        let ghost i = iter.index() as int;
        proof {
            assert(all.take(i + 1).drop_last() =~= all.take(i));
            assert(all.take(i + 1).last() == read@[i]@);
            assert(one == read@[i]);
            if head_of(all.take(i + 1)) is Err {
                lemma_problem_stays(all, i + 1);
            }
        }
        match one {
            ReadHeader::Method(Ok(m)) => {
                method = Some(m);
            },
            ReadHeader::Method(Err(e)) => {
                return Err(e);
            },
            ReadHeader::Path(Some(p)) => {
                path = Some(p);
            },
            ReadHeader::Path(None) => {
                return Err(owned("invalid :path utf-8"));
            },
            ReadHeader::Other => {},
            ReadHeader::Plain(Err(e), _) => {
                return Err(e);
            },
            ReadHeader::Plain(Ok(_), Err(e)) => {
                return Err(e);
            },
            ReadHeader::Plain(Ok(n), Ok(v)) => {
                let ghost before = header_views(headers@);
                let ghost pair = (n@, v@);
                headers.push((n, v));
                assert(header_views(headers@) =~= before.push(pair));
            },
        }
    }
    assert(all.take(read@.len() as int) =~= all);
    match (method, path) {
        (None, _) => Err(owned("missing :method pseudo-header")),
        (Some(_), None) => Err(owned("missing :path pseudo-header")),
        (Some(method), Some(path)) => Ok(RequestHead { method, path, headers }),
    }
}

/// What `axum::http::Method::from_bytes` reads from some bytes: the name of a
/// method, or the error.
pub uninterp spec fn method_of(bytes: Seq<u8>) -> Result<Seq<char>, Seq<char>>;

/// `axum::http::Method::from_bytes`, and `as_str` or the error's `to_string`: a
/// function of the bytes alone.
#[verifier::external_body]
fn read_method(bytes: &[u8]) -> (r: Result<String, String>)
    ensures
        res_text(r) == method_of(bytes@),
{
    match axum::http::Method::from_bytes(bytes) {
        Ok(method) => Ok(method.as_str().to_string()),
        Err(err) => Err(err.to_string()),
    }
}

/// What `axum::http::HeaderName::from_bytes` reads from some bytes: a name in
/// lower case, or the error.
pub uninterp spec fn header_name_of(bytes: Seq<u8>) -> Result<Seq<char>, Seq<char>>;

/// `axum::http::HeaderName::from_bytes`, and `as_str` or the error's
/// `to_string`: a function of the bytes alone.
#[verifier::external_body]
fn read_header_name(bytes: &[u8]) -> (r: Result<String, String>)
    ensures
        res_text(r) == header_name_of(bytes@),
{
    match axum::http::HeaderName::from_bytes(bytes) {
        Ok(name) => Ok(name.as_str().to_string()),
        Err(err) => Err(err.to_string()),
    }
}

/// What the value of a header is, or that it is none.
pub open spec fn header_value_of(bytes: Seq<u8>) -> Result<Seq<u8>, Seq<char>> {
    if forall|i: int| 0 <= i < bytes.len() ==> is_header_byte(#[trigger] bytes[i]) {
        Ok(bytes)
    } else {
        Err("failed to parse header value"@)
    }
}

/// `axum::http::HeaderValue::from_bytes`, and `as_bytes` or the error's
/// `to_string`: the same bytes, where each is a tab or no control character.
#[verifier::external_body]
fn read_header_value(bytes: &[u8]) -> (r: Result<Vec<u8>, String>)
    ensures
        res_bytes(r) == header_value_of(bytes@),
{
    match axum::http::HeaderValue::from_bytes(bytes) {
        Ok(value) => Ok(value.as_bytes().to_vec()),
        Err(err) => Err(err.to_string()),
    }
}

/// The text that some bytes are.
pub open spec fn text_of_bytes(bytes: Seq<u8>) -> Option<Seq<char>> {
    if valid_utf8(bytes) {
        Some(decode_utf8(bytes))
    } else {
        None
    }
}

/// `std::str::from_utf8`: the text that some bytes are, where they are UTF-8.
#[verifier::external_body]
pub(crate) fn read_text(bytes: &[u8]) -> (r: Option<String>)
    ensures
        opt_text(r) == text_of_bytes(bytes@),
{
    std::str::from_utf8(bytes).ok().map(|text| text.to_string())
}

/// The name of the header that says the method.
pub open spec fn method_name() -> Seq<u8> {
    seq![0x3a, 0x6d, 0x65, 0x74, 0x68, 0x6f, 0x64]
}

/// The name of the header that says the path.
pub open spec fn path_name() -> Seq<u8> {
    seq![0x3a, 0x70, 0x61, 0x74, 0x68]
}

/// What is read of a header.
pub open spec fn read_of(name: Seq<u8>, value: Seq<u8>) -> ReadView {
    if name.len() > 0 && name[0] == 0x3a {
        if name == method_name() {
            ReadView::Method(method_of(value))
        } else if name == path_name() {
            ReadView::Path(text_of_bytes(value))
        } else {
            ReadView::Other
        }
    } else {
        ReadView::Plain(header_name_of(name), header_value_of(value))
    }
}

fn same_bytes(a: &Vec<u8>, b: &Vec<u8>) -> (r: bool)
    ensures
        r == (a@ == b@),
{
    if a.len() != b.len() {
        return false;
    }
    let mut i: usize = 0;
    while i < a.len()
        invariant
            a@.len() == b@.len(),
            i <= a@.len(),
            forall|j: int| 0 <= j < i ==> a@[j] == b@[j],
        decreases a@.len() - i,
    {
        if a[i] != b[i] {
            return false;
        }
        i += 1;
    }
    assert(a@ =~= b@);
    true
}

/// Reads a header.
pub fn read_header(header: &H3Header) -> (r: ReadHeader)
    ensures
        r@ == read_of(header.name@, header.value@),
{
    if header.name.len() > 0 && header.name[0] == 0x3a {
        let method: Vec<u8> = vec![0x3a, 0x6d, 0x65, 0x74, 0x68, 0x6f, 0x64];
        let path: Vec<u8> = vec![0x3a, 0x70, 0x61, 0x74, 0x68];
        assert(method@ =~= method_name());
        assert(path@ =~= path_name());
        if same_bytes(&header.name, &method) {
            ReadHeader::Method(read_method(header.value.as_slice()))
        } else if same_bytes(&header.name, &path) {
            ReadHeader::Path(read_text(header.value.as_slice()))
        } else {
            ReadHeader::Other
        }
    } else {
        ReadHeader::Plain(
            read_header_name(header.name.as_slice()),
            read_header_value(header.value.as_slice()),
        )
    }
}

/// What is read of some headers.
pub open spec fn all_read(headers: Seq<H3Header>) -> Seq<ReadView> {
    headers.map_values(|h: H3Header| read_of(h.name@, h.value@))
}

/// The head of a request.
pub fn parse_h3_request_head(headers: &Vec<H3Header>) -> (r: Result<RequestHead, String>)
    ensures
        match r {
            Ok(head) => head_problem(all_read(headers@)) is None && is_head(
                head,
                all_read(headers@),
            ),
            Err(e) => head_problem(all_read(headers@)) == Some(e@),
        },
{
    let mut read: Vec<ReadHeader> = Vec::new();
    let mut i: usize = 0;
    while i < headers.len()
        invariant
            i <= headers@.len(),
            views(read@) == all_read(headers@).take(i as int),
        decreases headers@.len() - i,
    {
        let ghost before = views(read@);
        let one = read_header(&headers[i]);
        let ghost ov = one@;
        read.push(one);
        assert(views(read@) =~= before.push(ov));
        assert(all_read(headers@).take(i + 1) =~= before.push(ov));
        i += 1;
    }
    assert(all_read(headers@).take(i as int) =~= all_read(headers@));
    assemble_head(read)
}

/// Adds a piece to the body of a request, where it fits.
pub fn push_body(body: &mut Vec<u8>, chunk: &[u8]) -> (r: Result<(), String>)
    ensures
        match r {
            Ok(_) => old(body)@.len() + chunk@.len() <= MAX_H3_BODY_BYTES && final(body)@
                == old(body)@ + chunk@,
            Err(e) => old(body)@.len() + chunk@.len() > MAX_H3_BODY_BYTES && final(body)@
                == old(body)@ && e@ == "request body exceeds 4194304 bytes"@,
        },
{
    if body.len() > MAX_H3_BODY_BYTES || chunk.len() > MAX_H3_BODY_BYTES - body.len() {
        return Err(owned("request body exceeds 4194304 bytes"));
    }
    let ghost start = body@;
    let mut i: usize = 0;
    assert(start + chunk@.take(0) =~= start);
    while i < chunk.len()
        invariant
            i <= chunk@.len(),
            body@ == start + chunk@.take(i as int),
        decreases chunk@.len() - i,
    {
        body.push(chunk[i]);
        assert(start + chunk@.take(i + 1) =~= (start + chunk@.take(i as int)).push(
            chunk@[i as int],
        ));
        i += 1;
    }
    assert(chunk@.take(i as int) =~= chunk@);
    Ok(())
}

/// An error that is told without a request.
pub open spec fn transport_error_view(
    status: u16,
    code: Seq<char>,
    message: Seq<char>,
) -> ReplyView {
    ReplyView {
        status,
        body: JsonView::Object(
            seq![
                (
                    "error"@,
                    JsonView::Object(
                        seq![
                            ("code"@, JsonView::Text(code)),
                            ("message"@, JsonView::Text(message)),
                        ],
                    ),
                ),
            ],
        ),
    }
}

fn transport_error(status: u16, code: &str, message: &str) -> (r: Reply)
    ensures
        r@ == transport_error_view(status, code@, message@),
{
    let mut inner = Fields::new();
    inner.put("code", Json::text(code));
    inner.put("message", Json::text(message));
    let ghost want = transport_error_view(status, code@, message@).body;
    assert(inner@ =~= want->Object_0[0].1->Object_0);
    let mut outer = Fields::new();
    outer.put("error", inner.object());
    assert(outer@ =~= want->Object_0);
    Reply { status, body: outer.object() }
}

/// The reply to a request whose head or body is wrong.
pub fn refuse_h3_request(message: &str) -> (r: Reply)
    ensures
        r@ == transport_error_view(400, "bad_request"@, message@),
{
    transport_error(400, "bad_request", message)
}

/// The reply where the body of a reply could not be read.
pub fn fail_h3_response(error: &str) -> (r: Reply)
    ensures
        r@ == transport_error_view(
            500,
            "internal_error"@,
            "failed to read response body: "@ + error@,
        ),
{
    let mut message = owned("failed to read response body: ");
    message.push_str(error);
    transport_error(500, "internal_error", message.as_str())
}

/// Lines of a head are taken one by one: the method and the path replace the
/// former ones, a plain line is added behind the others, other lines with a
/// colon are passed over, and one that cannot be read spoils the head.
pub proof fn each_line_is_taken(read: Seq<ReadView>, r: ReadView)
    ensures
        ({
            let before = head_of(read);
            let after = head_of(read.push(r));
            &&& before is Err ==> after == before
            &&& before matches Ok(h) ==> {
                &&& r matches ReadView::Method(Ok(m)) ==> after is Ok && after->Ok_0.method == Some(m)
                    && after->Ok_0.path == h.path && after->Ok_0.headers == h.headers
                &&& r matches ReadView::Path(Some(p)) ==> after is Ok && after->Ok_0.path == Some(p)
                    && after->Ok_0.method == h.method && after->Ok_0.headers == h.headers
                &&& r is Other ==> after == before
                &&& r matches ReadView::Plain(Ok(n), Ok(v)) ==> after is Ok && after->Ok_0.headers
                    == h.headers.push((n, v)) && after->Ok_0.method == h.method && after->Ok_0.path
                    == h.path
                &&& (r matches ReadView::Method(Err(_))) || (r matches ReadView::Path(None)) || (
                r matches ReadView::Plain(Err(_), _)) || (r matches ReadView::Plain(_, Err(_)))
                    ==> after is Err
            }
        }),
{
    assert(read.push(r).drop_last() =~= read);
}

/// A head is accepted exactly if each of its lines can be read and it names a
/// method and a path.
pub proof fn heads_name_method_and_path(read: Seq<ReadView>)
    ensures
        head_problem(read) is None <==> head_of(read) is Ok && head_of(read)->Ok_0.method is Some
            && head_of(read)->Ok_0.path is Some,
        head_of(read) is Ok && head_of(read)->Ok_0.method is None ==> head_problem(read) == Some(
            "missing :method pseudo-header"@,
        ),
{
}

/// A line whose name begins with a colon is never handed on; any other is, if
/// its value holds visible bytes and tabs only.
pub proof fn lines_with_a_colon_are_not_handed_on(name: Seq<u8>, value: Seq<u8>)
    ensures
        name.len() > 0 && name[0] == 58 ==> read_of(name, value) !is Plain,
        !(name.len() > 0 && name[0] == 58) ==> read_of(name, value) is Plain,
        read_of(name, value) matches ReadView::Plain(_, v) ==> (v is Ok <==> forall|i: int|
            0 <= i < value.len() ==> (#[trigger] value[i] == 9 || value[i] >= 32 && value[i]
                != 127)),
        read_of(name, value) matches ReadView::Plain(_, Ok(v)) ==> v == value,
{
}

} // verus!

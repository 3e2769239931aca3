//! Request handling decisions.
//!
//! Parsing, dispatch and response construction are pure decisions and live
//! here; the surrounding loop performs the transport reads and writes and
//! the file read, and hands their outcomes back. A request proceeds
//! linearly: parse the collected header bytes, dispatch on the method
//! (`GET` exactly, byte for byte; anything else is answered with 501),
//! resolve the target into a document path, and turn the file-read
//! outcome into a structured response. Target resolution wraps the raw
//! target with a fixed synthetic scheme-and-host prefix so that a bare
//! origin-form target becomes a complete URI reference for the resolver.

use vstd::prelude::*;

use crate::request::{parse_request, spec_parse, ParseError};
use crate::response::{
    append_bytes,
    build_head,
    dec_digits,
    field_pairs,
    head_bytes,
    head_ok,
    lemma_dec_digits_are_digits,
    render_decimal,
    ser_head,
    token_ok,
    BuildError,
    HeaderField,
    ResponseHead,
};

verus! {

/// Dot, the prefix that anchors a resolved path under the document root.
pub const DOT: u8 = 46;

/// The method token `GET`.
pub open spec fn method_get() -> Seq<u8> {
    seq![71u8, 69u8, 84u8]
}

/// The protocol version token `HTTP/1.1`.
pub open spec fn http11() -> Seq<u8> {
    seq![72u8, 84u8, 84u8, 80u8, 47u8, 49u8, 46u8, 49u8]
}

/// The reason phrase `OK`.
pub open spec fn reason_ok() -> Seq<u8> {
    seq![79u8, 75u8]
}

/// The reason phrase `Not Found`.
pub open spec fn reason_not_found() -> Seq<u8> {
    seq![78u8, 111u8, 116u8, 32u8, 70u8, 111u8, 117u8, 110u8, 100u8]
}

/// The reason phrase `Not Implemented`.
pub open spec fn reason_not_implemented() -> Seq<u8> {
    seq![
        78u8,
        111u8,
        116u8,
        32u8,
        73u8,
        109u8,
        112u8,
        108u8,
        101u8,
        109u8,
        101u8,
        110u8,
        116u8,
        101u8,
        100u8,
    ]
}

/// The diagnostic body `not found`.
pub open spec fn body_not_found() -> Seq<u8> {
    seq![110u8, 111u8, 116u8, 32u8, 102u8, 111u8, 117u8, 110u8, 100u8]
}

/// The diagnostic body `not implemented`.
pub open spec fn body_not_implemented() -> Seq<u8> {
    seq![
        110u8,
        111u8,
        116u8,
        32u8,
        105u8,
        109u8,
        112u8,
        108u8,
        101u8,
        109u8,
        101u8,
        110u8,
        116u8,
        101u8,
        100u8,
    ]
}

/// The field name `content-type`.
pub open spec fn content_type_name() -> Seq<u8> {
    seq![99u8, 111u8, 110u8, 116u8, 101u8, 110u8, 116u8, 45u8, 116u8, 121u8, 112u8, 101u8]
}

/// The field name `content-length`.
pub open spec fn content_length_name() -> Seq<u8> {
    seq![
        99u8,
        111u8,
        110u8,
        116u8,
        101u8,
        110u8,
        116u8,
        45u8,
        108u8,
        101u8,
        110u8,
        103u8,
        116u8,
        104u8,
    ]
}

/// The fixed content type `text/html`.
pub open spec fn text_html() -> Seq<u8> {
    seq![116u8, 101u8, 120u8, 116u8, 47u8, 104u8, 116u8, 109u8, 108u8]
}

/// The synthetic scheme-and-host prefix `schema://server` that turns a
/// bare origin-form target into a complete URI reference.
pub open spec fn uri_prefix() -> Seq<u8> {
    seq![
        115u8,
        99u8,
        104u8,
        101u8,
        109u8,
        97u8,
        58u8,
        47u8,
        47u8,
        115u8,
        101u8,
        114u8,
        118u8,
        101u8,
        114u8,
    ]
}

/// The path component that a URI-reference parse of `s` yields, or `None`
/// when `s` is not a well-formed URI; a pure function of the bytes alone.
pub uninterp spec fn uri_path_of(s: Seq<u8>) -> Option<Seq<u8>>;

/// Relies on `uriparse::URI::try_from` and `uriparse::URI::path`: parsing
/// a URI and reading its path component depend on the input bytes alone,
/// and an input that is not UTF-8 cannot be a well-formed URI. The input
/// must start with the synthetic scheme-and-host prefix: on a reference
/// without a scheme, `URI::try_from` can panic while converting certain
/// parse errors (a schemeless first path segment holding a colon), and
/// with the prefix in place the scheme always parses, so that branch is
/// unreachable.
#[verifier::external_body]
fn parse_uri_path(uri: &[u8]) -> (r: Option<Vec<u8>>)
    requires
        uri@.len() >= uri_prefix().len(),
        uri@.subrange(0, uri_prefix().len() as int) == uri_prefix(),
    ensures
        r is Some <==> uri_path_of(uri@) is Some,
        r matches Some(p) ==> uri_path_of(uri@) == Some(p@),
{
    let text = match core::str::from_utf8(uri) {
        Ok(t) => t,
        Err(_) => return None,
    };
    let parsed = match uriparse::URI::try_from(text) {
        Ok(u) => u,
        Err(_) => return None,
    };
    Some(parsed.path().to_string().into_bytes())
}

/// What the handler decides to do once a request head is parsed.
pub enum Plan {
    /// Serve the file behind this document-root-relative path.
    Fetch(Vec<u8>),
    /// Answer with 501, the method is not supported.
    RespondNotImplemented,
}

/// Why a request gets no response at all: the connection is dropped.
#[derive(Clone, Copy, Debug, PartialEq, Eq, Structural)]
pub enum RequestError {
    /// The collected bytes are not a well-formed request head.
    Malformed(ParseError),
    /// The target of a `GET` cannot be read as a URI reference.
    UnresolvableTarget,
}

/// What reading the requested file produced. Handed in by the caller, who
/// owns the filesystem; the distinction between the two failures exists at
/// this boundary, though both are answered alike.
pub enum FileOutcome {
    /// The file exists and was read whole.
    Content(Vec<u8>),
    /// No file backs the path.
    NotFound,
    /// The file exists but could not be read.
    Unreadable,
}

/// A structured response: a head and the body appended after it.
pub struct Response {
    pub head: ResponseHead,
    pub body: Vec<u8>,
}

/// The document path a target resolves to: a dot, then the path component
/// of the target wrapped with the synthetic prefix.
pub open spec fn spec_resolve(target: Seq<u8>) -> Option<Seq<u8>> {
    match uri_path_of(uri_prefix() + target) {
        Some(p) => Some(seq![DOT] + p),
        None => None,
    }
}

/// Whether `m` is exactly the method token `GET`.
pub fn is_get(m: &[u8]) -> (r: bool)
    ensures
        r == (m@ == method_get()),
{
    if m.len() == 3 && m[0] == 71 && m[1] == 69 && m[2] == 84 {
        proof {
            assert(m@ =~= method_get());
        }
        true
    } else {
        false
    }
}

/// The raw target wrapped into a complete URI reference.
pub fn wrapped_target(target: &[u8]) -> (r: Vec<u8>)
    ensures
        r@ == uri_prefix() + target@,
{
    let mut r: Vec<u8> = vec![115u8, 99u8, 104u8, 101u8, 109u8, 97u8, 58u8, 47u8, 47u8, 115u8, 101u8, 114u8, 118u8, 101u8, 114u8];
    proof {
        assert(r@ =~= uri_prefix());
    }
    append_bytes(&mut r, target);
    r
}

/// Resolves a raw request target to a document path, exactly as
/// [`spec_resolve`] describes.
pub fn resolve_target(target: &[u8]) -> (r: Option<Vec<u8>>)
    ensures
        r is Some <==> spec_resolve(target@) is Some,
        r matches Some(p) ==> spec_resolve(target@) == Some(p@),
{
    let wrapped = wrapped_target(target);
    proof {
        assert(wrapped@.subrange(0, uri_prefix().len() as int) =~= uri_prefix());
    }
    match parse_uri_path(wrapped.as_slice()) {
        Some(p) => {
            let mut out: Vec<u8> = Vec::new();
            out.push(DOT);
            append_bytes(&mut out, p.as_slice());
            proof {
                assert(out@ =~= seq![DOT] + p@);
            }
            Some(out)
        },
        None => None,
    }
}

/// Dispatches on the method: `GET`, compared byte for byte, goes on to
/// target resolution and a file fetch; every other token, whatever it is,
/// is answered with 501. A `GET` whose target does not resolve gets no
/// response.
pub fn plan_request(method: &[u8], target: &[u8]) -> (r: Result<Plan, RequestError>)
    ensures
        ({
            if method@ == method_get() {
                match spec_resolve(target@) {
                    Some(p) => r matches Ok(Plan::Fetch(f)) && f@ == p,
                    None => r == Err::<Plan, RequestError>(RequestError::UnresolvableTarget),
                }
            } else {
                r matches Ok(Plan::RespondNotImplemented)
            }
        }),
{
    if is_get(method) {
        match resolve_target(target) {
            Some(path) => Ok(Plan::Fetch(path)),
            None => Err(RequestError::UnresolvableTarget),
        }
    } else {
        Ok(Plan::RespondNotImplemented)
    }
}

/// Parses a collected header block and decides what to do with it: the
/// whole decision chain of one request, from raw bytes to a plan.
pub fn plan_from_header(bytes: &[u8]) -> (r: Result<Plan, RequestError>)
    requires
        bytes@.len() <= usize::MAX - 4,
    ensures
        ({
            match spec_parse(bytes@) {
                Err(e) => r == Err::<Plan, RequestError>(RequestError::Malformed(e)),
                Ok(sp) => {
                    if sp.method == method_get() {
                        match spec_resolve(sp.target) {
                            Some(p) => r matches Ok(Plan::Fetch(f)) && f@ == p,
                            None => r == Err::<Plan, RequestError>(
                                RequestError::UnresolvableTarget,
                            ),
                        }
                    } else {
                        r matches Ok(Plan::RespondNotImplemented)
                    }
                },
            }
        }),
{
    let parsed = match parse_request(bytes) {
        Ok(p) => p,
        Err(e) => {
            return Err(RequestError::Malformed(e));
        },
    };
    plan_request(parsed.line.method.as_slice(), parsed.line.target.as_slice())
}

/// A 200 response for content `c`: fixed `text/html` content type, exact
/// decimal content length, body identical to `c`.
pub open spec fn is_ok_response(r: Response, c: Seq<u8>) -> bool {
    &&& r.head.version@ == http11()
    &&& r.head.status == 200
    &&& r.head.reason@ == reason_ok()
    &&& field_pairs(r.head.fields@) == seq![
        (content_type_name(), text_html()),
        (content_length_name(), dec_digits(c.len())),
    ]
    &&& r.body@ == c
}

/// A 404 response: no fields at all, fixed diagnostic body.
pub open spec fn is_not_found_response(r: Response) -> bool {
    &&& r.head.version@ == http11()
    &&& r.head.status == 404
    &&& r.head.reason@ == reason_not_found()
    &&& r.head.fields@.len() == 0
    &&& r.body@ == body_not_found()
}

/// A 501 response: no fields at all, fixed diagnostic body.
pub open spec fn is_not_implemented_response(r: Response) -> bool {
    &&& r.head.version@ == http11()
    &&& r.head.status == 501
    &&& r.head.reason@ == reason_not_implemented()
    &&& r.head.fields@.len() == 0
    &&& r.body@ == body_not_implemented()
}

/// Builds the response for a file-read outcome: 200 with the content when
/// the read succeeded, 404 otherwise — a missing file and an unreadable
/// one are deliberately answered alike.
pub fn serve_static_response(outcome: FileOutcome) -> (r: Response)
    ensures
        match outcome {
            FileOutcome::Content(c) => is_ok_response(r, c@),
            FileOutcome::NotFound => is_not_found_response(r),
            FileOutcome::Unreadable => is_not_found_response(r),
        },
{
    match outcome {
        FileOutcome::Content(c) => {
            let length = render_decimal(c.len() as u64);
            let ghost length_view = length@;
            let mut fields: Vec<HeaderField> = Vec::new();
            fields.push(
                HeaderField {
                    name: vec![99u8, 111u8, 110u8, 116u8, 101u8, 110u8, 116u8, 45u8, 116u8, 121u8, 112u8, 101u8],
                    value: vec![116u8, 101u8, 120u8, 116u8, 47u8, 104u8, 116u8, 109u8, 108u8],
                },
            );
            fields.push(
                HeaderField {
                    name: vec![99u8, 111u8, 110u8, 116u8, 101u8, 110u8, 116u8, 45u8, 108u8, 101u8, 110u8, 103u8, 116u8, 104u8],
                    value: length,
                },
            );
            let head = ResponseHead {
                version: vec![72u8, 84u8, 84u8, 80u8, 47u8, 49u8, 46u8, 49u8],
                status: 200,
                reason: vec![79u8, 75u8],
                fields,
            };
            proof {
                assert(field_pairs(head.fields@) =~= seq![
                    (content_type_name(), text_html()),
                    (content_length_name(), length_view),
                ]);
            }
            Response { head, body: c }
        },
        _ => {
            let head = ResponseHead {
                version: vec![72u8, 84u8, 84u8, 80u8, 47u8, 49u8, 46u8, 49u8],
                status: 404,
                reason: vec![78u8, 111u8, 116u8, 32u8, 70u8, 111u8, 117u8, 110u8, 100u8],
                fields: Vec::new(),
            };
            Response {
                head,
                body: vec![110u8, 111u8, 116u8, 32u8, 102u8, 111u8, 117u8, 110u8, 100u8],
            }
        },
    }
}

/// Builds the 501 response sent for every method other than `GET`.
pub fn not_implemented_response() -> (r: Response)
    ensures
        is_not_implemented_response(r),
{
    let head = ResponseHead {
        version: vec![72u8, 84u8, 84u8, 80u8, 47u8, 49u8, 46u8, 49u8],
        status: 501,
        reason: vec![
            78u8,
            111u8,
            116u8,
            32u8,
            73u8,
            109u8,
            112u8,
            108u8,
            101u8,
            109u8,
            101u8,
            110u8,
            116u8,
            101u8,
            100u8,
        ],
        fields: Vec::new(),
    };
    Response {
        head,
        body: vec![
            110u8,
            111u8,
            116u8,
            32u8,
            105u8,
            109u8,
            112u8,
            108u8,
            101u8,
            109u8,
            101u8,
            110u8,
            116u8,
            101u8,
            100u8,
        ],
    }
}

/// The exact wire bytes of the 200 response for content `c`.
pub open spec fn ok_response_bytes(c: Seq<u8>) -> Seq<u8> {
    ser_head(
        http11(),
        200,
        reason_ok(),
        seq![(content_type_name(), text_html()), (content_length_name(), dec_digits(c.len()))],
    ) + c
}

/// The exact wire bytes of the 404 response.
pub open spec fn not_found_response_bytes() -> Seq<u8> {
    ser_head(http11(), 404, reason_not_found(), Seq::empty()) + body_not_found()
}

/// The exact wire bytes of the 501 response.
pub open spec fn not_implemented_response_bytes() -> Seq<u8> {
    ser_head(http11(), 501, reason_not_implemented(), Seq::empty()) + body_not_implemented()
}

/// Serializes a whole response: the head's bytes followed by the body,
/// assembled in memory before anything is written out.
pub fn response_bytes(r: &Response) -> (out: Result<Vec<u8>, BuildError>)
    ensures
        match out {
            Ok(v) => head_ok(r.head) && v@ == head_bytes(r.head) + r.body@,
            Err(e) => !head_ok(r.head) && e == BuildError::InvalidToken,
        },
{
    let mut bytes = match build_head(&r.head) {
        Ok(b) => b,
        Err(e) => {
            return Err(e);
        },
    };
    append_bytes(&mut bytes, r.body.as_slice());
    Ok(bytes)
}

/// The three response shapes the handler produces are always serializable,
/// and their wire bytes are exactly the fixed byte sequences above: the
/// status line, the (possibly empty) field block, the blank line, then the
/// body.
pub proof fn lemma_response_wire_bytes(r: Response, c: Seq<u8>)
    ensures
        is_ok_response(r, c) ==> head_ok(r.head) && head_bytes(r.head) + r.body@
            == ok_response_bytes(c),
        is_not_found_response(r) ==> head_ok(r.head) && head_bytes(r.head) + r.body@
            == not_found_response_bytes(),
        is_not_implemented_response(r) ==> head_ok(r.head) && head_bytes(r.head) + r.body@
            == not_implemented_response_bytes(),
{
    lemma_dec_digits_are_digits(c.len());
    assert(r.head.fields@.len() == 0 ==> field_pairs(r.head.fields@) =~= Seq::<(
        Seq<u8>,
        Seq<u8>,
    )>::empty());
    assert(token_ok(http11()));
    assert(token_ok(reason_ok()));
    assert(token_ok(reason_not_found()));
    assert(token_ok(reason_not_implemented()));
    if is_ok_response(r, c) {
        let pairs = field_pairs(r.head.fields@);
        assert(pairs.len() == r.head.fields@.len());
        assert(pairs.len() == 2);
        assert(pairs[0] == (content_type_name(), text_html()));
        assert(pairs[1] == (content_length_name(), dec_digits(c.len())));
        assert(pairs[0] == (r.head.fields@[0].name@, r.head.fields@[0].value@));
        assert(pairs[1] == (r.head.fields@[1].name@, r.head.fields@[1].value@));
        assert(r.head.fields@[0].name@ == content_type_name() && r.head.fields@[0].value@
            == text_html());
        assert(r.head.fields@[1].name@ == content_length_name() && r.head.fields@[1].value@
            == dec_digits(c.len()));
        assert(forall|i: int| 0 <= i < dec_digits(c.len()).len() ==> 48 <= #[trigger] dec_digits(
            c.len(),
        )[i] <= 57);
        assert(head_ok(r.head));
    }
}

/// Issuing the same `GET` twice against an unchanged file is idempotent:
/// the response bytes are a function of the file content alone, so any two
/// responses built for the same content are byte-identical.
pub proof fn lemma_get_idempotent(c: Seq<u8>, first: Seq<u8>, second: Seq<u8>)
    requires
        first == ok_response_bytes(c),
        second == ok_response_bytes(c),
    ensures
        first == second,
{
}

} // verus!

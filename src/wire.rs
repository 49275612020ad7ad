//! Reading HTTP message heads off the wire. The head grammar is httparse's;
//! what a request or a response is made of once a head is there is decided here.

use vstd::prelude::*;
use vstd::utf8::{decode_utf8, valid_utf8};
use crate::headers::{has_name, header_value, names_unique, with_header, HeaderList, HeadersView};
use crate::request::{Request, RequestView};
use crate::text::{decode_strict, parse_decimal, parse_unsigned};

verus! {

/// The most header fields read from one message head.
pub const MAX_FIELDS: usize = 32;

/// A message head as httparse reports it: the start line's parts, the fields as
/// (name, raw value), and the length of the head in bytes.
pub enum RequestHead {
    Partial,
    Invalid,
    Complete { method: Option<String>, path: Option<String>, fields: Vec<(String, Vec<u8>)>, head_len: usize },
}

pub enum ResponseHead {
    Partial,
    Invalid,
    Complete { code: Option<u16>, fields: Vec<(String, Vec<u8>)>, head_len: usize },
}

pub type FieldsView = Seq<(Seq<char>, Seq<u8>)>;

pub enum HeadView {
    Partial,
    Invalid,
    Complete { start: (Option<Seq<char>>, Option<Seq<char>>, Option<u16>), fields: FieldsView, head_len: nat },
}

pub open spec fn fields_view(f: Seq<(String, Vec<u8>)>) -> FieldsView {
    f.map_values(|e: (String, Vec<u8>)| (e.0@, e.1@))
}

pub open spec fn opt_view(s: Option<String>) -> Option<Seq<char>> {
    match s {
        Some(t) => Some(t@),
        None => None,
    }
}

impl View for RequestHead {
    type V = HeadView;

    open spec fn view(&self) -> HeadView {
        match self {
            RequestHead::Partial => HeadView::Partial,
            RequestHead::Invalid => HeadView::Invalid,
            RequestHead::Complete { method, path, fields, head_len } => HeadView::Complete {
                start: (opt_view(*method), opt_view(*path), None),
                fields: fields_view(fields@),
                head_len: *head_len as nat,
            },
        }
    }
}

impl View for ResponseHead {
    type V = HeadView;

    open spec fn view(&self) -> HeadView {
        match self {
            ResponseHead::Partial => HeadView::Partial,
            ResponseHead::Invalid => HeadView::Invalid,
            ResponseHead::Complete { code, fields, head_len } => HeadView::Complete {
                start: (None, None, *code),
                fields: fields_view(fields@),
                head_len: *head_len as nat,
            },
        }
    }
}

/// What httparse's request parser reports for `buf`, with `max_fields` slots for fields.
pub uninterp spec fn request_head_of(buf: Seq<u8>, max_fields: nat) -> HeadView;

/// What httparse's response parser reports for `buf`, with `max_fields` slots for fields.
pub uninterp spec fn response_head_of(buf: Seq<u8>, max_fields: nat) -> HeadView;

/// Relies on `httparse::Request::parse`: a complete head ends within the
/// buffer, and its method and path are set before it reports completion.
#[verifier::external_body]
fn parse_request_head(buf: &[u8], max_fields: usize) -> (r: RequestHead)
    ensures
        r@ == request_head_of(buf@, max_fields as nat),
        r matches RequestHead::Complete { head_len, .. } ==> head_len <= buf@.len(),
        r matches RequestHead::Complete { method, path, .. } ==> method is Some && path is Some,
{
    let mut slots = vec![httparse::EMPTY_HEADER; max_fields];
    let mut req = httparse::Request::new(&mut slots);
    match req.parse(buf) {
        Ok(httparse::Status::Complete(n)) => RequestHead::Complete {
            method: req.method.map(|m| m.to_string()),
            path: req.path.map(|p| p.to_string()),
            fields: req.headers.iter().map(|h| (h.name.to_string(), h.value.to_vec())).collect(),
            head_len: n,
        },
        Ok(httparse::Status::Partial) => RequestHead::Partial,
        Err(_) => RequestHead::Invalid,
    }
}

/// Relies on `httparse::Response::parse`: a complete head ends within the
/// buffer, and its status code is set before it reports completion.
#[verifier::external_body]
pub(crate) fn parse_response_head(buf: &[u8], max_fields: usize) -> (r: ResponseHead)
    ensures
        r@ == response_head_of(buf@, max_fields as nat),
        r matches ResponseHead::Complete { head_len, .. } ==> head_len <= buf@.len(),
        r matches ResponseHead::Complete { code, .. } ==> code is Some,
{
    let mut slots = vec![httparse::EMPTY_HEADER; max_fields];
    let mut resp = httparse::Response::new(&mut slots);
    match resp.parse(buf) {
        Ok(httparse::Status::Complete(n)) => ResponseHead::Complete {
            code: resp.code,
            fields: resp.headers.iter().map(|h| (h.name.to_string(), h.value.to_vec())).collect(),
            head_len: n,
        },
        Ok(httparse::Status::Partial) => ResponseHead::Partial,
        Err(_) => ResponseHead::Invalid,
    }
}

/// A field value as text: UTF-8 decoded, or empty when it is not UTF-8.
pub open spec fn field_text(v: Seq<u8>) -> Seq<char> {
    if valid_utf8(v) {
        decode_utf8(v)
    } else {
        Seq::empty()
    }
}

/// The fields as a header list: a repeated name keeps its first place and its last value.
pub open spec fn fields_to_headers(f: FieldsView) -> HeadersView
    decreases f.len(),
{
    if f.len() == 0 {
        Seq::empty()
    } else {
        with_header(fields_to_headers(f.drop_last()), f.last().0, field_text(f.last().1))
    }
}

pub proof fn lemma_fields_to_headers_unique(f: FieldsView)
    ensures
        names_unique(fields_to_headers(f)),
    decreases f.len(),
{
    if f.len() > 0 {
        lemma_fields_to_headers_unique(f.drop_last());
        crate::headers::lemma_with_header_unique(
            fields_to_headers(f.drop_last()),
            f.last().0,
            field_text(f.last().1),
        );
    }
}

pub open spec fn content_length_name() -> Seq<char> {
    seq!['c', 'o', 'n', 't', 'e', 'n', 't', '-', 'l', 'e', 'n', 'g', 't', 'h']
}

/// The body length a header list announces: its `Content-Length` read as a
/// number, and 0 where there is none or it is not a number.
pub open spec fn announced_length(h: HeadersView) -> int {
    match header_value(h, content_length_name()) {
        Some(v) => match parse_unsigned(v, usize::MAX as int) {
            Some(n) => n,
            None => 0,
        },
        None => 0,
    }
}

/// How far reading a request has got.
pub enum RequestParse {
    /// More bytes are needed: the head or the announced body is not all there.
    Incomplete,
    /// The bytes are not an HTTP request head; the connection is dropped.
    Invalid,
    Complete(Request),
}

pub enum RequestParseView {
    Incomplete,
    Invalid,
    Complete(RequestView),
}

impl View for RequestParse {
    type V = RequestParseView;

    open spec fn view(&self) -> RequestParseView {
        match self {
            RequestParse::Incomplete => RequestParseView::Incomplete,
            RequestParse::Invalid => RequestParseView::Invalid,
            RequestParse::Complete(r) => RequestParseView::Complete(r@),
        }
    }
}

/// What the bytes `buf`, whose head parsed as `head`, make of a request.
pub open spec fn request_parse_spec(head: HeadView, buf: Seq<u8>) -> RequestParseView {
    match head {
        HeadView::Partial => RequestParseView::Incomplete,
        HeadView::Invalid => RequestParseView::Invalid,
        HeadView::Complete { start, fields, head_len } => {
            let h = fields_to_headers(fields);
            let len = announced_length(h);
            if start.0 is None || start.1 is None {
                RequestParseView::Invalid
            } else if head_len + len <= buf.len() {
                RequestParseView::Complete(
                    RequestView {
                        method: start.0->0,
                        url: start.1->0,
                        headers: h,
                        body: buf.subrange(head_len as int, head_len + len),
                        sent: false,
                    },
                )
            } else {
                RequestParseView::Incomplete
            }
        },
    }
}

/// Folds fields into a header list, decoding each value.
pub fn fields_into_headers(fields: &Vec<(String, Vec<u8>)>) -> (r: HeaderList)
    ensures
        r.wf(),
        r@ == fields_to_headers(fields_view(fields@)),
{
    let mut h = HeaderList::new();
    let mut i: usize = 0;
    while i < fields.len()
        invariant
            i <= fields@.len(),
            h.wf(),
            h@ == fields_to_headers(fields_view(fields@.subrange(0, i as int))),
        decreases fields@.len() - i,
    {
        let (name, raw) = &fields[i];
        let value = match decode_strict(raw.as_slice()) {
            Some(t) => t,
            None => String::new(),
        };
        h.set(name.clone(), value);
        proof {
            let s = fields_view(fields@.subrange(0, i as int + 1));
            assert(s.drop_last() =~= fields_view(fields@.subrange(0, i as int)));
            assert(s.last() == (name@, raw@));
            assert(value@ == field_text(raw@));
        }
        i = i + 1;
    }
    proof {
        assert(fields@.subrange(0, fields@.len() as int) =~= fields@);
    }
    h
}

/// The announced body length of a header list.
pub fn content_length(h: &HeaderList) -> (r: usize)
    requires
        h.wf(),
    ensures
        r as int == announced_length(h@),
{
    proof {
        reveal_strlit("content-length");
        assert("content-length"@ =~= content_length_name());
    }
    match h.get("content-length") {
        Some(v) => match parse_decimal(v.as_str(), usize::MAX as u64) {
            Some(n) => n as usize,
            None => 0,
        },
        None => 0,
    }
}

/// Makes a request out of a parsed head and the bytes read so far.
pub fn request_from_head(head: RequestHead, buf: &[u8]) -> (r: RequestParse)
    requires
        head matches RequestHead::Complete { head_len, .. } ==> head_len <= buf@.len(),
    ensures
        r@ == request_parse_spec(head@, buf@),
        r matches RequestParse::Complete(req) ==> req.wf(),
{
    match head {
        RequestHead::Partial => RequestParse::Incomplete,
        RequestHead::Invalid => RequestParse::Invalid,
        RequestHead::Complete { method, path, fields, head_len } => {
            let headers = fields_into_headers(&fields);
            let len = content_length(&headers);
            match (method, path) {
                (Some(m), Some(p)) => {
                    if len <= buf.len() - head_len {
                        let body = vstd::slice::slice_to_vec(
                            vstd::slice::slice_subrange(buf, head_len, head_len + len),
                        );
                        RequestParse::Complete(Request::new(m, p, headers, body))
                    } else {
                        RequestParse::Incomplete
                    }
                },
                _ => RequestParse::Invalid,
            }
        },
    }
}

/// Reads a request out of the bytes received so far on a connection.
pub fn parse_http_request(buf: &[u8]) -> (r: RequestParse)
    ensures
        r@ == request_parse_spec(request_head_of(buf@, MAX_FIELDS as nat), buf@),
        r matches RequestParse::Complete(req) ==> req.wf(),
        request_head_of(buf@, MAX_FIELDS as nat) matches HeadView::Complete { start, head_len, .. } ==> head_len
            <= buf@.len() && start.0 is Some && start.1 is Some,
        request_head_of(buf@, MAX_FIELDS as nat) matches HeadView::Complete { fields, .. } ==> (!has_name(
            fields_to_headers(fields),
            content_length_name(),
        ) ==> (r matches RequestParse::Complete(req) && req@.body.len() == 0)),
{
    let head = parse_request_head(buf, MAX_FIELDS);
    let r = request_from_head(head, buf);
    proof {
        if let HeadView::Complete { start, fields, head_len } = request_head_of(buf@, MAX_FIELDS as nat) {
            if !has_name(fields_to_headers(fields), content_length_name()) {
                lemma_no_content_length_empty_body(request_head_of(buf@, MAX_FIELDS as nat), buf@);
            }
        }
    }
    r
}

/// A request whose head announces no body length has an empty body.
pub proof fn lemma_no_content_length_empty_body(head: HeadView, buf: Seq<u8>)
    requires
        head is Complete,
        !has_name(fields_to_headers(head->fields), content_length_name()),
    ensures
        request_parse_spec(head, buf) matches RequestParseView::Complete(req) ==> req.body.len() == 0,
        head->start.0 is Some && head->start.1 is Some && head->head_len <= buf.len()
            ==> request_parse_spec(head, buf) is Complete,
{
}

/// Reads the head of a response out of the bytes received so far.
pub fn read_response_head(buf: &[u8]) -> (r: ResponseHead)
    ensures
        r@ == response_head_of(buf@, MAX_FIELDS as nat),
        r matches ResponseHead::Complete { head_len, .. } ==> head_len <= buf@.len(),
        r matches ResponseHead::Complete { code, .. } ==> code is Some,
{
    parse_response_head(buf, MAX_FIELDS)
}

} // verus!

//! The server-side response: status, headers in insertion order and a body,
//! written to the connection once by `end`.

use vstd::prelude::*;
use vstd::utf8::encode_utf8;
use crate::headers::{header_value, name_pos, names_unique, with_header, HeaderList, HeadersView};
use crate::text::{decimal, opt_bytes, opt_text, parse_decimal, parse_unsigned, push_bytes, push_decimal};

verus! {

pub open spec fn crlf() -> Seq<u8> {
    seq![13u8, 10u8]
}

/// `HTTP/1.1 <code> OK\r\n`: the reason phrase is always `OK`.
pub open spec fn status_line(code: u16) -> Seq<u8> {
    seq![72u8, 84u8, 84u8, 80u8, 47u8, 49u8, 46u8, 49u8, 32u8] + decimal(code as nat) + seq![
        32u8,
        79u8,
        75u8,
    ] + crlf()
}

/// `<name>: <value>\r\n`.
pub open spec fn header_line(e: (Seq<char>, Seq<char>)) -> Seq<u8> {
    encode_utf8(e.0) + seq![58u8, 32u8] + encode_utf8(e.1) + crlf()
}

/// The header lines, in the order of the list.
pub open spec fn header_lines(h: HeadersView) -> Seq<u8>
    decreases h.len(),
{
    if h.len() == 0 {
        Seq::empty()
    } else {
        header_lines(h.drop_last()) + header_line(h.last())
    }
}

/// The bytes of a response on the wire.
pub open spec fn response_bytes(code: u16, h: HeadersView, body: Seq<char>) -> Seq<u8> {
    status_line(code) + header_lines(h) + crlf() + encode_utf8(body)
}

pub struct ResponseView {
    pub status_code: u16,
    pub headers: HeadersView,
    pub body: Seq<char>,
    pub finished: bool,
}

/// What `end(chunk)` does to a response, and the bytes it hands out.
pub open spec fn end_spec(r: ResponseView, chunk: Option<Seq<char>>) -> (ResponseView, Option<Seq<u8>>) {
    if r.finished {
        (r, None)
    } else {
        let body = match chunk {
            Some(c) => r.body + c,
            None => r.body,
        };
        (
            ResponseView { body, finished: true, ..r },
            Some(response_bytes(r.status_code, r.headers, body)),
        )
    }
}

/// The status that `.statusCode = text` gives: an integer that fits, else 400.
pub open spec fn status_from_text(text: Seq<char>) -> u16 {
    match parse_unsigned(text, 65535) {
        Some(v) => v as u16,
        None => 400,
    }
}

pub struct Response {
    status_code: u16,
    headers: HeaderList,
    body: String,
    finished: bool,
}

impl View for Response {
    type V = ResponseView;

    closed spec fn view(&self) -> ResponseView {
        ResponseView {
            status_code: self.status_code,
            headers: self.headers@,
            body: self.body@,
            finished: self.finished,
        }
    }
}

fn push_crlf(out: &mut Vec<u8>)
    ensures
        final(out)@ == old(out)@ + crlf(),
{
    out.push(13u8);
    out.push(10u8);
    proof {
        assert(final(out)@ =~= old(out)@ + crlf());
    }
}

fn push_status_line(out: &mut Vec<u8>, code: u16)
    ensures
        final(out)@ == old(out)@ + status_line(code),
{
    let ghost start = out@;
    out.push(72u8);
    out.push(84u8);
    out.push(84u8);
    out.push(80u8);
    out.push(47u8);
    out.push(49u8);
    out.push(46u8);
    out.push(49u8);
    out.push(32u8);
    let ghost mid = out@;
    push_decimal(out, code as u64);
    out.push(32u8);
    out.push(79u8);
    out.push(75u8);
    push_crlf(out);
    proof {
        assert(mid =~= start + seq![72u8, 84u8, 84u8, 80u8, 47u8, 49u8, 46u8, 49u8, 32u8]);
        assert(final(out)@ =~= start + status_line(code));
    }
}

/// Appends the header lines of `h`, in order.
pub fn push_header_lines(out: &mut Vec<u8>, h: &HeaderList)
    ensures
        final(out)@ == old(out)@ + header_lines(h@),
{
    let mut i: usize = 0;
    let n = h.len();
    while i < n
        invariant
            n == h@.len(),
            i <= n,
            out@ == old(out)@ + header_lines(h@.subrange(0, i as int)),
        decreases n - i,
    {
        let (k, v) = h.entry(i);
        let ghost before = out@;
        push_bytes(out, k.as_str().as_bytes());
        out.push(58u8);
        out.push(32u8);
        push_bytes(out, v.as_str().as_bytes());
        push_crlf(out);
        proof {
            let s = h@.subrange(0, i as int + 1);
            assert(s.drop_last() =~= h@.subrange(0, i as int));
            assert(out@ =~= before + header_line(h@[i as int]));
            assert(out@ =~= old(out)@ + header_lines(s));
        }
        i = i + 1;
    }
    proof {
        assert(h@.subrange(0, n as int) =~= h@);
    }
}

/// The bytes of a response with this status, these headers and this body.
pub fn serialize_response(status_code: u16, headers: &HeaderList, body: &str) -> (r: Vec<u8>)
    ensures
        r@ == response_bytes(status_code, headers@, body@),
{
    let mut out: Vec<u8> = Vec::new();
    push_status_line(&mut out, status_code);
    push_header_lines(&mut out, headers);
    push_crlf(&mut out);
    push_bytes(&mut out, body.as_bytes());
    proof {
        assert(out@ =~= response_bytes(status_code, headers@, body@));
    }
    out
}

impl Response {
    pub open spec fn wf(&self) -> bool {
        names_unique(self@.headers)
    }

    pub fn new(status_code: u16, headers: HeaderList, body: String) -> (r: Response)
        requires
            headers.wf(),
        ensures
            r.wf(),
            r@ == (ResponseView { status_code, headers: headers@, body: body@, finished: false }),
    {
        Response { status_code, headers, body, finished: false }
    }

    pub fn status_code(&self) -> (r: u16)
        ensures
            r == self@.status_code,
    {
        self.status_code
    }

    pub fn headers(&self) -> (r: &HeaderList)
        ensures
            r@ == self@.headers,
    {
        &self.headers
    }

    pub fn body(&self) -> (r: &String)
        ensures
            r@ == self@.body,
    {
        &self.body
    }

    pub fn is_finished(&self) -> (r: bool)
        ensures
            r == self@.finished,
    {
        self.finished
    }

    /// Sets a header, replacing one of the same name; does nothing once ended.
    pub fn add_header(&mut self, key: String, value: String)
        requires
            old(self).wf(),
        ensures
            final(self).wf(),
            old(self)@.finished ==> final(self)@ == old(self)@,
            !old(self)@.finished ==> final(self)@ == (ResponseView {
                headers: with_header(old(self)@.headers, key@, value@),
                ..old(self)@
            }),
    {
        if !self.finished {
            self.headers.set(key, value);
        }
    }

    /// Sets the status code; does nothing once ended.
    pub fn set_status_code(&mut self, code: u16)
        ensures
            old(self)@.finished ==> final(self)@ == old(self)@,
            !old(self)@.finished ==> final(self)@ == (ResponseView { status_code: code, ..old(self)@ }),
    {
        if !self.finished {
            self.status_code = code;
        }
    }

    /// Sets the status from script text: an integer from 0 to 65535, else 400.
    pub fn set_status_text(&mut self, text: &str)
        ensures
            old(self)@.finished ==> final(self)@ == old(self)@,
            !old(self)@.finished ==> final(self)@ == (ResponseView {
                status_code: status_from_text(text@),
                ..old(self)@
            }),
    {
        let code: u16 = match parse_decimal(text, 65535) {
            Some(v) => v as u16,
            None => 400,
        };
        self.set_status_code(code);
    }

    /// Ends the response: the first call appends `chunk` to the body and hands
    /// out the bytes to write; any later call hands out nothing.
    pub fn end(&mut self, chunk: Option<String>) -> (r: Option<Vec<u8>>)
        requires
            old(self).wf(),
        ensures
            final(self).wf(),
            (final(self)@, opt_bytes(r)) == end_spec(old(self)@, opt_text(chunk)),
    {
        if self.finished {
            return None;
        }
        match chunk {
            Some(c) => {
                self.body.append(c.as_str());
            },
            None => {},
        }
        self.finished = true;
        let bytes = serialize_response(self.status_code, &self.headers, self.body.as_str());
        Some(bytes)
    }
}

/// Setting the same header twice leaves one field of that name, with the
/// second value.
pub proof fn lemma_set_header_twice(h: HeadersView, k: Seq<char>, v1: Seq<char>, v2: Seq<char>)
    requires
        names_unique(h),
    ensures
        header_value(with_header(with_header(h, k, v1), k, v2), k) == Some(v2),
        forall|i: int, j: int|
            0 <= i < with_header(with_header(h, k, v1), k, v2).len() && 0 <= j < with_header(
                with_header(h, k, v1),
                k,
                v2,
            ).len() && crate::text::same_name(
                #[trigger] with_header(with_header(h, k, v1), k, v2)[i].0,
                k,
            ) && crate::text::same_name(
                #[trigger] with_header(with_header(h, k, v1), k, v2)[j].0,
                k,
            ) ==> i == j,
        with_header(with_header(h, k, v1), k, v2).len() == with_header(h, k, v1).len(),
{
    let h1 = with_header(h, k, v1);
    crate::headers::lemma_with_header_unique(h, k, v1);
    crate::headers::lemma_with_header_unique(h1, k, v2);
    let h2 = with_header(h1, k, v2);
    crate::headers::lemma_same_name_equiv(k, k, k);
    let p = if crate::headers::has_name(h, k) {
        name_pos(h, k)
    } else {
        h.len() as int
    };
    if crate::headers::has_name(h, k) {
        crate::headers::lemma_name_pos_unique(h, k, p);
        crate::headers::lemma_same_name_equiv(h[p].0, k, k);
    }
    assert(crate::text::same_name(h1[p].0, k));
    crate::headers::lemma_name_pos_unique(h1, k, p);
    assert(crate::text::same_name(h2[p].0, k));
    crate::headers::lemma_name_pos_unique(h2, k, p);
    assert forall|i: int, j: int|
        0 <= i < h2.len() && 0 <= j < h2.len() && crate::text::same_name(#[trigger] h2[i].0, k)
            && crate::text::same_name(#[trigger] h2[j].0, k) implies i == j by {
        crate::headers::lemma_name_pos_unique(h2, k, i);
        crate::headers::lemma_name_pos_unique(h2, k, j);
    }
}

/// A header set under a new name is written after every header set before
/// it, byte for byte; the lines already there are unchanged.
pub proof fn lemma_new_header_goes_last(h: HeadersView, k: Seq<char>, v: Seq<char>)
    requires
        !crate::headers::has_name(h, k),
    ensures
        header_lines(with_header(h, k, v)) == header_lines(h) + header_line((k, v)),
{
    assert(with_header(h, k, v).drop_last() =~= h);
}

/// Ending a response twice puts one set of bytes on the wire: the second call
/// hands out nothing and changes nothing.
pub proof fn lemma_end_twice(r: ResponseView, first: Option<Seq<char>>, second: Option<Seq<char>>)
    ensures
        end_spec(r, first).1 is Some <==> !r.finished,
        end_spec(end_spec(r, first).0, second).1 is None,
        end_spec(end_spec(r, first).0, second).0 == end_spec(r, first).0,
{
}

} // verus!

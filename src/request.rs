//! HTTP requests: the ones a server receives, and the ones a client writes.

use vstd::prelude::*;
use vstd::utf8::encode_utf8;
use crate::headers::{header_value, names_unique, HeaderList, HeadersView};
use crate::response::{crlf, header_lines, push_header_lines};
use crate::text::{opt_bytes, opt_text, push_bytes};

verus! {

pub struct RequestView {
    pub method: Seq<char>,
    pub url: Seq<char>,
    pub headers: HeadersView,
    pub body: Seq<u8>,
    pub sent: bool,
}

/// `<method> <url> HTTP/1.1\r\n`.
pub open spec fn request_line(method: Seq<char>, url: Seq<char>) -> Seq<u8> {
    encode_utf8(method) + seq![32u8] + encode_utf8(url) + seq![32u8, 72u8, 84u8, 84u8, 80u8, 47u8, 49u8, 46u8, 49u8]
        + crlf()
}

/// The bytes of a request on the wire: request line, header lines in order,
/// a blank line, the body.
pub open spec fn request_bytes(method: Seq<char>, url: Seq<char>, h: HeadersView, body: Seq<u8>) -> Seq<u8> {
    request_line(method, url) + header_lines(h) + crlf() + body
}

/// What `end(data)` does to a client request, and the bytes it hands out.
pub open spec fn request_end_spec(r: RequestView, data: Option<Seq<char>>) -> (RequestView, Option<Seq<u8>>) {
    if r.sent {
        (r, None)
    } else {
        let body = match data {
            Some(d) => r.body + encode_utf8(d),
            None => r.body,
        };
        (RequestView { body, sent: true, ..r }, Some(request_bytes(r.method, r.url, r.headers, body)))
    }
}

pub struct Request {
    method: String,
    url: String,
    headers: HeaderList,
    body: Vec<u8>,
    sent: bool,
}

impl View for Request {
    type V = RequestView;

    closed spec fn view(&self) -> RequestView {
        RequestView {
            method: self.method@,
            url: self.url@,
            headers: self.headers@,
            body: self.body@,
            sent: self.sent,
        }
    }
}

impl Request {
    pub open spec fn wf(&self) -> bool {
        names_unique(self@.headers)
    }

    pub fn new(method: String, url: String, headers: HeaderList, body: Vec<u8>) -> (r: Request)
        requires
            headers.wf(),
        ensures
            r.wf(),
            r@ == (RequestView { method: method@, url: url@, headers: headers@, body: body@, sent: false }),
    {
        Request { method, url, headers, body, sent: false }
    }

    /// The value of a header, matched without regard to ASCII case.
    pub fn get_header(&self, key: &str) -> (r: Option<&String>)
        requires
            self.wf(),
        ensures
            r is Some <==> header_value(self@.headers, key@) is Some,
            r is Some ==> r->0@ == header_value(self@.headers, key@)->0,
    {
        self.headers.get(key)
    }

    pub fn get_method(&self) -> (r: &String)
        ensures
            r@ == self@.method,
    {
        &self.method
    }

    pub fn get_url(&self) -> (r: &String)
        ensures
            r@ == self@.url,
    {
        &self.url
    }

    pub fn headers(&self) -> (r: &HeaderList)
        ensures
            r@ == self@.headers,
    {
        &self.headers
    }

    pub fn body(&self) -> (r: &Vec<u8>)
        ensures
            r@ == self@.body,
    {
        &self.body
    }

    /// Sets a header before the request is sent; does nothing after.
    pub fn set_header(&mut self, key: String, value: String)
        requires
            old(self).wf(),
        ensures
            final(self).wf(),
            old(self)@.sent ==> final(self)@ == old(self)@,
            !old(self)@.sent ==> final(self)@ == (RequestView {
                headers: crate::headers::with_header(old(self)@.headers, key@, value@),
                ..old(self)@
            }),
    {
        if !self.sent {
            self.headers.set(key, value);
        }
    }

    /// Ends a client request: the first call appends `data` to the body and
    /// hands out the bytes to write; any later call hands out nothing.
    pub fn end(&mut self, data: Option<String>) -> (r: Option<Vec<u8>>)
        requires
            old(self).wf(),
        ensures
            final(self).wf(),
            (final(self)@, opt_bytes(r)) == request_end_spec(old(self)@, opt_text(data)),
    {
        if self.sent {
            return None;
        }
        match data {
            Some(d) => {
                push_bytes(&mut self.body, d.as_str().as_bytes());
            },
            None => {},
        }
        self.sent = true;
        let mut out: Vec<u8> = Vec::new();
        push_bytes(&mut out, self.method.as_str().as_bytes());
        out.push(32u8);
        push_bytes(&mut out, self.url.as_str().as_bytes());
        out.push(32u8);
        out.push(72u8);
        out.push(84u8);
        out.push(84u8);
        out.push(80u8);
        out.push(47u8);
        out.push(49u8);
        out.push(46u8);
        out.push(49u8);
        out.push(13u8);
        out.push(10u8);
        push_header_lines(&mut out, &self.headers);
        out.push(13u8);
        out.push(10u8);
        push_bytes(&mut out, self.body.as_slice());
        proof {
            assert(out@ =~= request_bytes(self.method@, self.url@, self.headers@, self.body@));
        }
        Some(out)
    }
}

} // verus!

//! Parsed requests: spans into the bytes they were parsed from.

use crate::buffer::ByteBuffer;
use crate::scan::{
    header_pieces, piece_at, tokenize, tokenized, Piece, Place, Scan, ScanView, Tokens,
    TokensView,
};
use vstd::prelude::*;
use vstd::slice::slice_subrange;
use vstd::string::{StringExecFns, StringSliceAdditionalSpecFns};
use vstd::utf8::{decode_utf8, valid_utf8};

verus! {

/// How many headers one request may carry. A request with more is turned
/// down as malformed.
pub const MAX_HEADERS: usize = 16;

/// A run of bytes inside a buffer, from `start` up to but not including
/// `end`.
#[derive(Clone, Copy, Debug, PartialEq, Eq, Structural)]
pub struct Span {
    pub start: usize,
    pub end: usize,
}

impl Span {
    /// Whether the span lies inside a buffer of `len` bytes.
    pub open spec fn within(self, len: int) -> bool {
        self.start <= self.end <= len
    }

    /// The bytes of `bytes` that the span covers.
    pub open spec fn of(self, bytes: Seq<u8>) -> Seq<u8> {
        bytes.subrange(self.start as int, self.end as int)
    }
}

/// Whether a token reported at `piece` ends within the first `limit` bytes.
pub open spec fn fits(piece: Piece, limit: int) -> bool {
    piece.0 + piece.1 <= limit
}

/// The span that a token reported at `piece` covers.
pub open spec fn span_of(piece: Piece) -> Span {
    Span { start: piece.0, end: (piece.0 + piece.1) as usize }
}

/// What a [`Request`] holds, as mathematical data.
pub struct RequestView {
    /// Where the method stands in `data`.
    pub method: Span,
    /// Where the request target stands in `data`.
    pub path: Span,
    /// The minor protocol version: 0 for HTTP/1.0, 1 for HTTP/1.1.
    pub version: u8,
    /// Where name and value of each header stand in `data`, in wire order.
    pub headers: Seq<(Span, Span)>,
    /// The bytes of the request head, which the request owns.
    pub data: Seq<u8>,
}

impl RequestView {
    /// Every span lies inside the owned bytes, what is handed out as text is
    /// valid UTF-8, and the version is one of the two that exist.
    pub open spec fn well_formed(self) -> bool {
        &&& self.method.within(self.data.len() as int)
        &&& self.path.within(self.data.len() as int)
        &&& valid_utf8(self.method.of(self.data))
        &&& valid_utf8(self.path.of(self.data))
        &&& self.version <= 1
        &&& forall|i: int|
            0 <= i < self.headers.len() ==> {
                &&& (#[trigger] self.headers[i]).0.within(self.data.len() as int)
                &&& self.headers[i].1.within(self.data.len() as int)
                &&& valid_utf8(self.headers[i].0.of(self.data))
            }
    }

    /// The method's bytes.
    pub open spec fn method_bytes(self) -> Seq<u8> {
        self.method.of(self.data)
    }

    /// The request target's bytes.
    pub open spec fn path_bytes(self) -> Seq<u8> {
        self.path.of(self.data)
    }

    /// The bytes of the name of header `i`.
    pub open spec fn name_bytes(self, i: int) -> Seq<u8> {
        self.headers[i].0.of(self.data)
    }

    /// The bytes of the value of header `i`.
    pub open spec fn value_bytes(self, i: int) -> Seq<u8> {
        self.headers[i].1.of(self.data)
    }
}

/// One parsed request: an immutable view over the bytes of its head, which
/// it owns.
pub struct Request {
    method: Span,
    path: Span,
    version: u8,
    headers: Vec<(Span, Span)>,
    data: ByteBuffer,
}

impl View for Request {
    type V = RequestView;

    closed spec fn view(&self) -> RequestView {
        RequestView {
            method: self.method,
            path: self.path,
            version: self.version,
            headers: self.headers@,
            data: self.data.bytes(),
        }
    }
}

/// The text that `bytes` hold at `span`, or nothing where they are no text.
fn text_at(bytes: &[u8], span: Span) -> (r: Option<&str>)
    requires
        span.within(bytes@.len() as int),
    ensures
        r is Some <==> valid_utf8(span.of(bytes@)),
        r matches Some(s) ==> s.spec_bytes() == span.of(bytes@) && s@ == decode_utf8(
            span.of(bytes@),
        ),
{
    match core::str::from_utf8(slice_subrange(bytes, span.start, span.end)) {
        Ok(s) => {
            proof {
                vstd::utf8::encode_utf8_decode_utf8(s@);
            }
            Some(s)
        },
        Err(_) => None,
    }
}

impl Request {
    #[verifier::type_invariant]
    spec fn inv(self) -> bool {
        self@.well_formed()
    }

    /// The request method, such as `GET`.
    pub fn method(&self) -> (s: &str)
        ensures
            self@.well_formed(),
            s.spec_bytes() == self@.method_bytes(),
            s@ == decode_utf8(self@.method_bytes()),
    {
        proof {
            use_type_invariant(self);
        }
        match text_at(self.data.view(), self.method) {
            Some(s) => s,
            // A request never holds a method that is no text.
            None => "",
        }
    }

    /// The request target, such as `/index.html`.
    pub fn path(&self) -> (s: &str)
        ensures
            self@.well_formed(),
            s.spec_bytes() == self@.path_bytes(),
            s@ == decode_utf8(self@.path_bytes()),
    {
        proof {
            use_type_invariant(self);
        }
        match text_at(self.data.view(), self.path) {
            Some(s) => s,
            // A request never holds a target that is no text.
            None => "",
        }
    }

    /// The minor protocol version: 0 for HTTP/1.0, 1 for HTTP/1.1.
    pub fn version(&self) -> (v: u8)
        ensures
            v == self@.version,
            v <= 1,
    {
        proof {
            use_type_invariant(self);
        }
        self.version
    }

    /// The headers, from the first on the wire.
    pub fn headers(&self) -> (h: RequestHeaders<'_>)
        ensures
            h.request() == self,
            h.position() == 0,
    {
        RequestHeaders { req: self, pos: 0 }
    }
}

/// A walk over the headers of a request, in wire order. To start over, ask
/// the request for a new one.
pub struct RequestHeaders<'req> {
    req: &'req Request,
    pos: usize,
}

impl<'req> RequestHeaders<'req> {
    #[verifier::type_invariant]
    spec fn inv(self) -> bool {
        self.pos <= self.req.headers@.len()
    }

    /// The request whose headers are walked.
    pub closed spec fn request(&self) -> &'req Request {
        self.req
    }

    /// How many headers have been handed out.
    pub closed spec fn position(&self) -> int {
        self.pos as int
    }

    /// The next header: its name as text and its value as raw bytes, or
    /// nothing once all have been handed out.
    pub fn next(&mut self) -> (r: Option<(&'req str, &'req [u8])>)
        ensures
            final(self).request() == old(self).request(),
            0 <= old(self).position() <= old(self).request()@.headers.len(),
            old(self).position() < old(self).request()@.headers.len() ==> {
                &&& final(self).position() == old(self).position() + 1
                &&& r matches Some((name, value))
                &&& name.spec_bytes() == old(self).request()@.name_bytes(old(self).position())
                &&& name@ == decode_utf8(old(self).request()@.name_bytes(old(self).position()))
                &&& value@ == old(self).request()@.value_bytes(old(self).position())
            },
            old(self).position() == old(self).request()@.headers.len() ==> {
                &&& final(self).position() == old(self).position()
                &&& r is None
            },
    {
        proof {
            use_type_invariant(&*self);
            use_type_invariant(self.req);
        }
        let req: &'req Request = self.req;
        if self.pos < req.headers.len() {
            let (name, value) = req.headers[self.pos];
            let bytes = req.data.view();
            self.pos = self.pos + 1;
            let text = match text_at(bytes, name) {
                Some(s) => s,
                // A request never holds a header name that is no text.
                None => "",
            };
            Some((text, slice_subrange(bytes, value.start, value.end)))
        } else {
            None
        }
    }
}

/// Whether what the tokenizer reports of one header can be relied on: name
/// and value end within the first `limit` bytes, and the name is text.
pub open spec fn header_consistent(header: (Piece, Piece), limit: int, bytes: Seq<u8>) -> bool {
    &&& fits(header.0, limit)
    &&& fits(header.1, limit)
    &&& valid_utf8(span_of(header.0).of(bytes))
}

/// Whether what the tokenizer reports of a complete head can be relied on:
/// the head is no longer than `bytes`, method, request target and version
/// are there, the version is 0 or 1, every token ends within the head, and
/// method, request target and header names are text.
pub open spec fn consistent(tokens: TokensView, bytes: Seq<u8>) -> bool {
    &&& tokens.len <= bytes.len()
    &&& tokens.method matches Some(method) && fits(method, tokens.len as int) && valid_utf8(
        span_of(method).of(bytes),
    )
    &&& tokens.path matches Some(path) && fits(path, tokens.len as int) && valid_utf8(
        span_of(path).of(bytes),
    )
    &&& tokens.version matches Some(version) && version <= 1
    &&& forall|i: int|
        0 <= i < tokens.headers.len() ==> header_consistent(
            #[trigger] tokens.headers[i],
            tokens.len as int,
            bytes,
        )
}

/// The request that consistent `tokens` describe: the tokens as spans, over
/// the first `tokens.len` bytes of `bytes`.
pub open spec fn request_of(tokens: TokensView, bytes: Seq<u8>) -> RequestView {
    RequestView {
        method: span_of(tokens.method.unwrap()),
        path: span_of(tokens.path.unwrap()),
        version: tokens.version.unwrap(),
        headers: Seq::new(
            tokens.headers.len(),
            |i: int| (span_of(tokens.headers[i].0), span_of(tokens.headers[i].1)),
        ),
        data: bytes.subrange(0, tokens.len as int),
    }
}

/// What an attempt to parse came to.
pub enum Parsed {
    /// A whole request stood at the front of the buffer and was taken from
    /// it.
    Complete(Request),
    /// The buffer holds the beginning of a request: append and try again.
    Incomplete,
    /// The buffer cannot begin a request; the text says why.
    Malformed(String),
    /// The tokenizer reported a complete request, but what it reported does
    /// not fit the bytes it was given. That points to a defect, not to the
    /// peer.
    Inconsistent,
}

/// [`Parsed`] as mathematical data.
pub enum ParsedView {
    Complete(RequestView),
    Incomplete,
    Malformed(Seq<char>),
    Inconsistent,
}

impl View for Parsed {
    type V = ParsedView;

    open spec fn view(&self) -> ParsedView {
        match self {
            Parsed::Complete(request) => ParsedView::Complete(request@),
            Parsed::Incomplete => ParsedView::Incomplete,
            Parsed::Malformed(why) => ParsedView::Malformed(why@),
            Parsed::Inconsistent => ParsedView::Inconsistent,
        }
    }
}

/// The diagnostic for a head that the tokenizer turned down for `why`.
pub open spec fn malformed_text(why: Seq<char>) -> Seq<char> {
    "failed to parse http request: "@ + why
}

/// What parsing comes to, given the tokenizer's verdict `scan` on `bytes`.
pub open spec fn outcome(scan: ScanView, bytes: Seq<u8>) -> ParsedView {
    match scan {
        ScanView::Failed(why) => ParsedView::Malformed(malformed_text(why)),
        ScanView::Partial => ParsedView::Incomplete,
        ScanView::Complete(tokens) => if consistent(tokens, bytes) {
            ParsedView::Complete(request_of(tokens, bytes))
        } else {
            ParsedView::Inconsistent
        },
    }
}

/// How many bytes parsing takes from the front of the buffer, given the
/// tokenizer's verdict `scan` on `bytes`: the head's length where a request
/// comes out, nothing otherwise.
pub open spec fn consumed(scan: ScanView, bytes: Seq<u8>) -> int {
    match scan {
        ScanView::Complete(tokens) => if consistent(tokens, bytes) {
            tokens.len as int
        } else {
            0
        },
        _ => 0,
    }
}

/// The span of the token at `place`, where the token ends within the first
/// `limit` of the bytes that start at `base`.
fn locate(place: Place, base: usize, limit: usize) -> (r: Option<Span>)
    ensures
        r == if fits(piece_at(place, base), limit as int) {
            Some(span_of(piece_at(place, base)))
        } else {
            None::<Span>
        },
{
    let offset = place.0.wrapping_sub(base);
    if offset <= limit && place.1 <= limit - offset {
        Some(Span { start: offset, end: offset + place.1 })
    } else {
        None
    }
}

/// The span of the token at `place` that is to be read as text, where the
/// token ends within the first `limit` bytes and is text.
fn locate_text(bytes: &[u8], place: Place, base: usize, limit: usize) -> (r: Option<Span>)
    requires
        limit <= bytes@.len(),
    ensures
        r == if fits(piece_at(place, base), limit as int) && valid_utf8(
            span_of(piece_at(place, base)).of(bytes@),
        ) {
            Some(span_of(piece_at(place, base)))
        } else {
            None::<Span>
        },
{
    match locate(place, base, limit) {
        Some(span) => if text_at(bytes, span).is_some() {
            Some(span)
        } else {
            None
        },
        None => None,
    }
}

/// The spans of all headers, where every header is consistent.
fn locate_headers(bytes: &[u8], headers: &Vec<(Place, Place)>, base: usize, limit: usize) -> (r:
    Option<Vec<(Span, Span)>>)
    requires
        limit <= bytes@.len(),
    ensures
        r is Some <==> forall|i: int|
            0 <= i < headers@.len() ==> header_consistent(
                #[trigger] header_pieces(headers@, base)[i],
                limit as int,
                bytes@,
            ),
        r matches Some(spans) ==> spans@ == Seq::new(
            headers@.len(),
            |i: int|
                (
                    span_of(header_pieces(headers@, base)[i].0),
                    span_of(header_pieces(headers@, base)[i].1),
                ),
        ),
{
    let ghost pieces = header_pieces(headers@, base);
    let mut spans: Vec<(Span, Span)> = Vec::new();
    let mut i: usize = 0;
    while i < headers.len()
        invariant
            i <= headers@.len(),
            limit <= bytes@.len(),
            pieces == header_pieces(headers@, base),
            spans@.len() == i,
            forall|j: int|
                0 <= j < i ==> header_consistent(#[trigger] pieces[j], limit as int, bytes@),
            forall|j: int|
                0 <= j < i ==> #[trigger] spans@[j] == (span_of(pieces[j].0), span_of(pieces[j].1)),
        decreases headers@.len() - i,
    {
        let (name, value) = headers[i];
        match (locate_text(bytes, name, base, limit), locate(value, base, limit)) {
            (Some(n), Some(v)) => {
                spans.push((n, v));
            },
            _ => {
                assert(!header_consistent(pieces[i as int], limit as int, bytes@));
                return None;
            },
        }
        i = i + 1;
    }
    assert(spans@ =~= Seq::new(
        headers@.len(),
        |i: int| (span_of(pieces[i].0), span_of(pieces[i].1)),
    ));
    Some(spans)
}

/// A span that lies within the first `len` bytes covers the same bytes in
/// the whole as in that prefix.
proof fn lemma_span_of_prefix(span: Span, bytes: Seq<u8>, len: int)
    requires
        span.within(len),
        len <= bytes.len(),
    ensures
        span.of(bytes.subrange(0, len)) == span.of(bytes),
{
    assert(span.of(bytes.subrange(0, len)) =~= span.of(bytes));
}

/// A complete request followed by anything: where the tokenizer finds a
/// consistent head of exactly `head.len()` bytes at the front of
/// `head + rest`, parsing gives a request that owns exactly `head`, whose
/// method, request target, version and headers are the tokens found, and
/// leaves exactly `rest` in the buffer.
pub proof fn law_complete_takes_head(head: Seq<u8>, rest: Seq<u8>, tokens: TokensView)
    requires
        tokenized(head + rest, MAX_HEADERS) == ScanView::Complete(tokens),
        tokens.len == head.len(),
        consistent(tokens, head + rest),
    ensures
        outcome(tokenized(head + rest, MAX_HEADERS), head + rest) matches ParsedView::Complete(
            request,
        ) && {
            &&& request.well_formed()
            &&& request.data == head
            &&& request.version == tokens.version.unwrap()
            &&& request.method_bytes() == span_of(tokens.method.unwrap()).of(head + rest)
            &&& request.path_bytes() == span_of(tokens.path.unwrap()).of(head + rest)
            &&& request.headers.len() == tokens.headers.len()
            &&& forall|i: int|
                0 <= i < tokens.headers.len() ==> {
                    &&& #[trigger] request.name_bytes(i) == span_of(tokens.headers[i].0).of(
                        head + rest,
                    )
                    &&& request.value_bytes(i) == span_of(tokens.headers[i].1).of(head + rest)
                }
        },
        (head + rest).skip(consumed(tokenized(head + rest, MAX_HEADERS), head + rest)) == rest,
{
    let all = head + rest;
    let request = request_of(tokens, all);
    let len = tokens.len as int;
    assert(request.data =~= head);
    assert(all.skip(len) =~= rest);
    lemma_span_of_prefix(request.method, all, len);
    lemma_span_of_prefix(request.path, all, len);
    assert forall|i: int| 0 <= i < request.headers.len() implies {
        &&& (#[trigger] request.headers[i]).0.within(request.data.len() as int)
        &&& request.headers[i].1.within(request.data.len() as int)
        &&& valid_utf8(request.headers[i].0.of(request.data))
    } by {
        assert(header_consistent(tokens.headers[i], len, all));
        lemma_span_of_prefix(request.headers[i].0, all, len);
    }
    assert(request.well_formed());
    assert forall|i: int| 0 <= i < tokens.headers.len() implies {
        &&& #[trigger] request.name_bytes(i) == span_of(tokens.headers[i].0).of(all)
        &&& request.value_bytes(i) == span_of(tokens.headers[i].1).of(all)
    } by {
        assert(header_consistent(tokens.headers[i], len, all));
        lemma_span_of_prefix(request.headers[i].0, all, len);
        lemma_span_of_prefix(request.headers[i].1, all, len);
    }
}

/// Feeding a request in two pieces: where the tokenizer sees only the
/// beginning of a head in `first`, the attempt on `first` is incomplete and
/// takes nothing, so that once `second` has been appended the next attempt
/// is the attempt on `first + second` in one piece.
pub proof fn law_retry_after_incomplete(first: Seq<u8>, second: Seq<u8>)
    requires
        tokenized(first, MAX_HEADERS) == ScanView::Partial,
    ensures
        outcome(tokenized(first, MAX_HEADERS), first) == ParsedView::Incomplete,
        first.skip(consumed(tokenized(first, MAX_HEADERS), first)) == first,
        ({
            let fed = first.skip(consumed(tokenized(first, MAX_HEADERS), first)) + second;
            let whole = first + second;
            &&& outcome(tokenized(fed, MAX_HEADERS), fed) == outcome(
                tokenized(whole, MAX_HEADERS),
                whole,
            )
            &&& fed.skip(consumed(tokenized(fed, MAX_HEADERS), fed)) == whole.skip(
                consumed(tokenized(whole, MAX_HEADERS), whole),
            )
        }),
{
    assert(first.skip(0) =~= first);
}

/// The request parser: it turns the front of a connection's buffer into a
/// [`Request`].
pub struct Parser;

impl Parser {
    /// Tries to take one request from the front of `buf`.
    ///
    /// The tokenizer is run on the whole buffer with room for
    /// [`MAX_HEADERS`] headers, and what it reports decides, as [`outcome`]
    /// says: a head it turns down is malformed, more than [`MAX_HEADERS`]
    /// headers included; a head it has not seen the end of is incomplete; a
    /// complete head becomes a request that owns the head's bytes, and only
    /// then does the buffer change: it keeps what followed the head.
    pub fn parse(&mut self, buf: &mut ByteBuffer) -> (out: Parsed)
        ensures
            out@ == outcome(tokenized(old(buf).bytes(), MAX_HEADERS), old(buf).bytes()),
            final(buf).bytes() == old(buf).bytes().skip(
                consumed(tokenized(old(buf).bytes(), MAX_HEADERS), old(buf).bytes()),
            ),
            out matches Parsed::Complete(request) ==> request@.well_formed(),
            !(out is Complete) ==> final(buf).bytes() == old(buf).bytes(),
    {
        let scan = tokenize(buf.view(), MAX_HEADERS);
        Parser::assemble(scan, buf)
    }

    /// Finishes a parse of `buf` on which the tokenizer has given the
    /// verdict `scan`.
    ///
    /// Every token is checked against the head's length before a single
    /// byte leaves the buffer, so the buffer changes only where a request
    /// comes out.
    pub fn assemble(scan: Scan, buf: &mut ByteBuffer) -> (out: Parsed)
        ensures
            out@ == outcome(scan@, old(buf).bytes()),
            final(buf).bytes() == old(buf).bytes().skip(consumed(scan@, old(buf).bytes())),
            out matches Parsed::Complete(request) ==> request@.well_formed(),
            !(out is Complete) ==> final(buf).bytes() == old(buf).bytes(),
    {
        let ghost all = buf.bytes();
        assert(all.skip(0) =~= all);
        match scan {
            Scan::Failed(why) => {
                let mut text = "failed to parse http request: ".to_owned();
                text.append(why.as_str());
                Parsed::Malformed(text)
            },
            Scan::Partial => Parsed::Incomplete,
            Scan::Complete(tokens) => {
                let limit = tokens.len;
                if limit > buf.len() {
                    return Parsed::Inconsistent;
                }
                let bytes = buf.view();
                let (method, path, version) = match (tokens.method, tokens.path, tokens.version) {
                    (Some(m), Some(p), Some(v)) => (m, p, v),
                    _ => {
                        return Parsed::Inconsistent;
                    },
                };
                if version > 1 {
                    return Parsed::Inconsistent;
                }
                let base = tokens.base;
                let method = match locate_text(bytes, method, base, limit) {
                    Some(span) => span,
                    None => {
                        return Parsed::Inconsistent;
                    },
                };
                let path = match locate_text(bytes, path, base, limit) {
                    Some(span) => span,
                    None => {
                        return Parsed::Inconsistent;
                    },
                };
                let headers = match locate_headers(bytes, &tokens.headers, base, limit) {
                    Some(spans) => spans,
                    None => {
                        return Parsed::Inconsistent;
                    },
                };
                assert(consistent(tokens@, all));
                let data = buf.detach_prefix(limit);
                proof {
                    lemma_span_of_prefix(method, all, limit as int);
                    lemma_span_of_prefix(path, all, limit as int);
                    assert forall|i: int| 0 <= i < headers@.len() implies valid_utf8(
                        (#[trigger] headers@[i]).0.of(data.bytes()),
                    ) by {
                        assert(header_consistent(tokens@.headers[i], limit as int, all));
                        lemma_span_of_prefix(headers@[i].0, all, limit as int);
                    }
                    assert forall|i: int| 0 <= i < headers@.len() implies (#[trigger] headers@[i]).0.within(
                        limit as int,
                    ) && headers@[i].1.within(limit as int) by {
                        assert(header_consistent(tokens@.headers[i], limit as int, all));
                    }
                    assert(all.skip(limit as int) =~= all.subrange(limit as int, all.len() as int));
                }
                let request = Request { method, path, version, headers, data };
                assert(request@ == request_of(tokens@, all));
                Parsed::Complete(request)
            },
        }
    }
}

} // verus!

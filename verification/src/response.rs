//! Building a response: status line, ordered headers, body.

use crate::date::{http_date, push_http_date};
use crate::decimal::{decimal, push_decimal};
use crate::text::{push_text, wire};
use vstd::prelude::*;

verus! {

/// The status lines the builder knows by name.
pub enum StatusCode {
    SwitchingProtocols,
    OK,
    NotFound,
    InternalServerError,
}

impl StatusCode {
    /// The numeric code.
    pub open spec fn number(&self) -> int {
        match self {
            StatusCode::SwitchingProtocols => 101,
            StatusCode::OK => 200,
            StatusCode::NotFound => 404,
            StatusCode::InternalServerError => 500,
        }
    }

    /// The canonical status text: the code, a space, and the reason phrase.
    pub open spec fn text(&self) -> Seq<char> {
        match self {
            StatusCode::SwitchingProtocols => "101 Switching Protocols"@,
            StatusCode::OK => "200 OK"@,
            StatusCode::NotFound => "404 Not Found"@,
            StatusCode::InternalServerError => "500 Internal Server Error"@,
        }
    }

    /// The numeric code of this status.
    pub fn code(&self) -> (n: u16)
        ensures
            n == self.number(),
    {
        match self {
            StatusCode::SwitchingProtocols => 101,
            StatusCode::OK => 200,
            StatusCode::NotFound => 404,
            StatusCode::InternalServerError => 500,
        }
    }

    /// The canonical status text of this status.
    pub fn msg(&self) -> (s: &'static str)
        ensures
            s@ == self.text(),
    {
        match self {
            StatusCode::SwitchingProtocols => "101 Switching Protocols",
            StatusCode::OK => "200 OK",
            StatusCode::NotFound => "404 Not Found",
            StatusCode::InternalServerError => "500 Internal Server Error",
        }
    }
}

/// One header as text: its name and its value.
pub type Field = (Seq<char>, Seq<char>);

/// What a [`Response`] holds, as mathematical text.
pub struct ResponseView {
    /// The status line's text, without the protocol version.
    pub status: Seq<char>,
    /// The headers in insertion order; names may repeat.
    pub headers: Seq<Field>,
    /// The body.
    pub body: Seq<char>,
}

/// Whether some entry of `headers` is named exactly `name`.
pub open spec fn has_name(headers: Seq<Field>, name: Seq<char>) -> bool {
    exists|i: int| 0 <= i < headers.len() && (#[trigger] headers[i]).0 == name
}

/// How many entries of `headers` are named exactly `name`.
pub open spec fn count_name(headers: Seq<Field>, name: Seq<char>) -> nat
    decreases headers.len(),
{
    if headers.len() == 0 {
        0
    } else {
        count_name(headers.drop_last(), name) + if headers.last().0 == name {
            1nat
        } else {
            0nat
        }
    }
}

/// `headers` with the value of every entry named `name` overwritten by
/// `value`; entries keep their places.
pub open spec fn overwritten(headers: Seq<Field>, name: Seq<char>, value: Seq<char>) -> Seq<Field> {
    Seq::new(
        headers.len(),
        |i: int|
            if headers[i].0 == name {
                (name, value)
            } else {
                headers[i]
            },
    )
}

/// The upsert: overwrite every entry named `name` if there is one, append a
/// new entry if there is none.
pub open spec fn upserted(headers: Seq<Field>, name: Seq<char>, value: Seq<char>) -> Seq<Field> {
    if has_name(headers, name) {
        overwritten(headers, name, value)
    } else {
        headers.push((name, value))
    }
}

/// Stored headers as text.
pub open spec fn fields(headers: Seq<(String, String)>) -> Seq<Field> {
    Seq::new(headers.len(), |i: int| (headers[i].0@, headers[i].1@))
}

/// A response under construction.
pub struct Response {
    headers: Vec<(String, String)>,
    response: String,
    status: String,
}

impl View for Response {
    type V = ResponseView;

    closed spec fn view(&self) -> ResponseView {
        ResponseView {
            status: self.status@,
            headers: fields(self.headers@),
            body: self.response@,
        }
    }
}

impl Response {
    /// A response with status `200 OK`, no headers and an empty body.
    pub fn new() -> (r: Response)
        ensures
            r@ == (ResponseView {
                status: StatusCode::OK.text(),
                headers: Seq::<Field>::empty(),
                body: Seq::<char>::empty(),
            }),
    {
        let r = Response {
            headers: Vec::new(),
            response: String::new(),
            status: "200 OK".to_owned(),
        };
        assert(r@.headers =~= Seq::<Field>::empty());
        r
    }

    /// Appends a header, whether or not one of that name is already there.
    pub fn header(&mut self, name: &str, val: &str) -> (r: &mut Response)
        ensures
            r@ == (ResponseView { headers: old(self)@.headers.push((name@, val@)), ..old(self)@ }),
            *final(self) == *final(r),
    {
        let ghost before = self@;
        self.headers.push((name.to_owned(), val.to_owned()));
        assert(self@.headers =~= before.headers.push((name@, val@)));
        self
    }

    /// Sets a header: every existing entry named exactly `name`
    /// (case-sensitive) gets the value `val`; if there is none, the header is
    /// appended.
    pub fn header_unique(&mut self, name: &str, val: &str) -> (r: &mut Response)
        ensures
            r@ == (ResponseView {
                headers: upserted(old(self)@.headers, name@, val@),
                ..old(self)@
            }),
            *final(self) == *final(r),
    {
        let name_str = name.to_owned();
        let ghost before = self@;
        let mut found = false;
        let mut i: usize = 0;
        while i < self.headers.len()
            invariant
                i <= self.headers.len(),
                name_str@ == name@,
                self.status@ == before.status,
                self.response@ == before.body,
                self.headers@.len() == before.headers.len(),
                forall|j: int|
                    0 <= j < i ==> (#[trigger] self.headers@[j].0@, self.headers@[j].1@)
                        == overwritten(before.headers, name@, val@)[j],
                forall|j: int|
                    i <= j < before.headers.len() ==> (
                        #[trigger] self.headers@[j].0@,
                        self.headers@[j].1@,
                    ) == before.headers[j],
                found <==> exists|j: int| 0 <= j < i && (#[trigger] before.headers[j]).0 == name@,
            decreases self.headers.len() - i,
        {
            if self.headers[i].0 == name_str {
                self.headers[i].1 = val.to_owned();
                found = true;
                assert(before.headers[i as int].0 == name@);
            }
            i = i + 1;
        }
        if !found {
            assert(self@.headers =~= before.headers);
            return self.header(name, val);
        }
        assert(self@.headers =~= overwritten(before.headers, name@, val@));
        self
    }

    /// Replaces the body.
    pub fn body(&mut self, s: &str) -> (r: &mut Response)
        ensures
            r@ == (ResponseView { body: s@, ..old(self)@ }),
            *final(self) == *final(r),
    {
        self.response = s.to_owned();
        self
    }

    /// Replaces the status line's text.
    pub fn status(&mut self, s: &str) -> (r: &mut Response)
        ensures
            r@ == (ResponseView { status: s@, ..old(self)@ }),
            *final(self) == *final(r),
    {
        self.status = s.to_owned();
        self
    }

    /// Replaces the status line's text by the canonical text of `s`.
    pub fn status_code(&mut self, s: StatusCode) -> (r: &mut Response)
        ensures
            r@ == (ResponseView { status: s.text(), ..old(self)@ }),
            *final(self) == *final(r),
    {
        self.status = s.msg().to_owned();
        self
    }

    /// Sets the `Content-Type` header, as [`Response::header_unique`] does.
    pub fn content_type(&mut self, s: &str) -> (r: &mut Response)
        ensures
            r@ == (ResponseView {
                headers: upserted(old(self)@.headers, "Content-Type"@, s@),
                ..old(self)@
            }),
            *final(self) == *final(r),
    {
        self.header_unique("Content-Type", s)
    }
}

/// Overwriting keeps every entry's name, so it keeps which names occur.
proof fn lemma_overwritten_names(headers: Seq<Field>, name: Seq<char>, value: Seq<char>)
    ensures
        has_name(overwritten(headers, name, value), name) == has_name(headers, name),
        count_name(overwritten(headers, name, value), name) == count_name(headers, name),
    decreases headers.len(),
{
    let after = overwritten(headers, name, value);
    if has_name(headers, name) {
        let i = choose|i: int| 0 <= i < headers.len() && (#[trigger] headers[i]).0 == name;
        assert(after[i].0 == name);
    }
    if has_name(after, name) {
        let i = choose|i: int| 0 <= i < after.len() && (#[trigger] after[i]).0 == name;
        assert(headers[i].0 == name);
    }
    if headers.len() > 0 {
        lemma_overwritten_names(headers.drop_last(), name, value);
        assert(after.drop_last() =~= overwritten(headers.drop_last(), name, value));
    }
}

/// A name occurs among the headers exactly if it is counted at least once.
proof fn lemma_count_has(headers: Seq<Field>, name: Seq<char>)
    ensures
        has_name(headers, name) <==> count_name(headers, name) > 0,
    decreases headers.len(),
{
    if headers.len() > 0 {
        let front = headers.drop_last();
        lemma_count_has(front, name);
        if has_name(front, name) {
            let i = choose|i: int| 0 <= i < front.len() && (#[trigger] front[i]).0 == name;
            assert(headers[i].0 == name);
        }
        if has_name(headers, name) && headers.last().0 != name {
            let i = choose|i: int| 0 <= i < headers.len() && (#[trigger] headers[i]).0 == name;
            assert(front[i].0 == name);
        }
        if headers.last().0 == name {
            assert(headers[headers.len() - 1].0 == name);
        }
    }
}

/// After [`Response::header_unique`], every entry of that name carries the
/// new value, however many there were; the other entries are as they were.
pub proof fn law_header_unique_replaces_all(headers: Seq<Field>, name: Seq<char>, value: Seq<char>)
    ensures
        has_name(upserted(headers, name, value), name),
        forall|i: int|
            0 <= i < upserted(headers, name, value).len() && (#[trigger] upserted(
                headers,
                name,
                value,
            )[i]).0 == name ==> upserted(headers, name, value)[i].1 == value,
        forall|i: int|
            0 <= i < headers.len() && (#[trigger] headers[i]).0 != name ==> upserted(
                headers,
                name,
                value,
            )[i] == headers[i],
{
    let after = upserted(headers, name, value);
    if has_name(headers, name) {
        lemma_overwritten_names(headers, name, value);
    } else {
        assert(after[headers.len() as int].0 == name);
        assert forall|i: int| 0 <= i < after.len() && (#[trigger] after[i]).0 == name implies after[i].1
            == value by {
            if i < headers.len() {
                assert(headers[i].0 == name);
            }
        }
    }
}

/// [`Response::header_unique`] is idempotent: a second call with the same
/// name and value changes nothing.
pub proof fn law_header_unique_idempotent(headers: Seq<Field>, name: Seq<char>, value: Seq<char>)
    ensures
        upserted(upserted(headers, name, value), name, value) == upserted(headers, name, value),
{
    let once = upserted(headers, name, value);
    law_header_unique_replaces_all(headers, name, value);
    assert(upserted(once, name, value) =~= once);
}

/// Where at most one entry had the name before, two calls of
/// [`Response::header_unique`] with the same name and value leave exactly
/// one entry of that name, and it carries the value.
pub proof fn law_header_unique_leaves_one(headers: Seq<Field>, name: Seq<char>, value: Seq<char>)
    requires
        count_name(headers, name) <= 1,
    ensures
        count_name(upserted(upserted(headers, name, value), name, value), name) == 1,
        forall|i: int|
            0 <= i < upserted(headers, name, value).len() && (#[trigger] upserted(
                headers,
                name,
                value,
            )[i]).0 == name ==> upserted(headers, name, value)[i].1 == value,
{
    law_header_unique_idempotent(headers, name, value);
    law_header_unique_replaces_all(headers, name, value);
    lemma_count_has(headers, name);
    if has_name(headers, name) {
        lemma_overwritten_names(headers, name, value);
    } else {
        assert(headers.push((name, value)).drop_last() =~= headers);
    }
}

/// [`Response::header`] followed by [`Response::header_unique`] on the same
/// name: the appended entry and every earlier entry of that name end up
/// with the new value, and nothing is added or lost.
pub proof fn law_header_then_header_unique(
    headers: Seq<Field>,
    name: Seq<char>,
    first: Seq<char>,
    second: Seq<char>,
)
    ensures
        upserted(headers.push((name, first)), name, second) == overwritten(
            headers,
            name,
            second,
        ).push((name, second)),
        forall|i: int|
            0 <= i <= headers.len() && (#[trigger] headers.push((name, first))[i]).0 == name
                ==> upserted(headers.push((name, first)), name, second)[i] == (name, second),
{
    let pushed = headers.push((name, first));
    assert(pushed[headers.len() as int].0 == name);
    assert(upserted(pushed, name, second) =~= overwritten(headers, name, second).push(
        (name, second),
    ));
}

/// One header on the wire: name, colon, space, value, line end.
pub open spec fn header_line(field: Field) -> Seq<u8> {
    wire(field.0) + wire(": "@) + wire(field.1) + wire("\r\n"@)
}

/// The lines of `headers`, one after the other in their order.
pub open spec fn header_lines(headers: Seq<Field>) -> Seq<u8>
    decreases headers.len(),
{
    if headers.len() == 0 {
        Seq::<u8>::empty()
    } else {
        header_lines(headers.drop_last()) + header_line(headers.last())
    }
}

/// The status line of a response with status text `status`.
pub open spec fn status_line(status: Seq<char>) -> Seq<u8> {
    wire("HTTP/1.1 "@) + wire(status) + wire("\r\n"@)
}

/// The `Server` header, which is the same on every response.
pub open spec fn server_line() -> Seq<u8> {
    wire("Server: xx0\r\n"@)
}

/// The `Content-Length` header of a body of `len` bytes.
pub open spec fn length_line(len: nat) -> Seq<u8> {
    wire("Content-Length: "@) + decimal(len) + wire("\r\n"@)
}

/// The `Date` header of a response rendered `now` seconds after the start
/// of 1970.
pub open spec fn date_line(now: nat) -> Seq<u8> {
    wire("Date: "@) + http_date(now) + wire("\r\n"@)
}

/// The bytes of a response on the wire, rendered at the moment `now`
/// seconds after the start of 1970: the status line; the `Server` header;
/// `Content-Length` with the body's length in bytes; `Date`; the builder's
/// headers as they stand, in insertion order; an empty line; the body.
pub open spec fn rendered(msg: ResponseView, now: nat) -> Seq<u8> {
    status_line(msg.status) + server_line() + length_line(wire(msg.body).len()) + date_line(now)
        + header_lines(msg.headers) + wire("\r\n"@) + wire(msg.body)
}

/// Appends every header of `headers`, in order.
fn push_header_lines(buf: &mut Vec<u8>, headers: &Vec<(String, String)>)
    ensures
        final(buf)@ == old(buf)@ + header_lines(fields(headers@)),
{
    let ghost before = buf@;
    let ghost all = fields(headers@);
    let mut i: usize = 0;
    assert(buf@ =~= before + header_lines(all.take(0)));
    while i < headers.len()
        invariant
            i <= headers@.len(),
            all == fields(headers@),
            buf@ == before + header_lines(all.take(i as int)),
        decreases headers@.len() - i,
    {
        push_header_line(buf, headers[i].0.as_str(), headers[i].1.as_str());
        proof {
            let next = all.take(i + 1);
            assert(next.drop_last() =~= all.take(i as int));
            assert(next.last() == (headers@[i as int].0@, headers@[i as int].1@));
            lemma_append(before, header_lines(all.take(i as int)), header_line(next.last()));
        }
        i = i + 1;
    }
    assert(all.take(i as int) =~= all);
}

/// Appends the status line for `status`.
fn push_status_line(buf: &mut Vec<u8>, status: &str)
    ensures
        final(buf)@ == old(buf)@ + status_line(status@),
{
    let ghost before = buf@;
    push_text(buf, "HTTP/1.1 ");
    push_text(buf, status);
    push_text(buf, "\r\n");
    assert(buf@ =~= before + status_line(status@));
}

/// Appends the `Content-Length` header for a body of `len` bytes.
fn push_length_line(buf: &mut Vec<u8>, len: usize)
    ensures
        final(buf)@ == old(buf)@ + length_line(len as nat),
{
    let ghost before = buf@;
    push_text(buf, "Content-Length: ");
    push_decimal(buf, len as u64);
    push_text(buf, "\r\n");
    assert(buf@ =~= before + length_line(len as nat));
}

/// Appends the `Date` header for the moment `now`.
fn push_date_line(buf: &mut Vec<u8>, now: u64)
    ensures
        final(buf)@ == old(buf)@ + date_line(now as nat),
{
    let ghost before = buf@;
    push_text(buf, "Date: ");
    push_http_date(buf, now);
    push_text(buf, "\r\n");
    assert(buf@ =~= before + date_line(now as nat));
}

/// Appends one header.
fn push_header_line(buf: &mut Vec<u8>, name: &str, value: &str)
    ensures
        final(buf)@ == old(buf)@ + header_line((name@, value@)),
{
    let ghost before = buf@;
    push_text(buf, name);
    push_text(buf, ": ");
    push_text(buf, value);
    push_text(buf, "\r\n");
    assert(buf@ =~= before + header_line((name@, value@)));
}

/// Appending in two steps is appending the two together.
proof fn lemma_append(base: Seq<u8>, first: Seq<u8>, second: Seq<u8>)
    ensures
        (base + first) + second == base + (first + second),
{
    assert((base + first) + second =~= base + (first + second));
}

/// The response serializer: it renders a built [`Response`] into the bytes
/// that go out.
pub struct Serializer;

impl Serializer {
    /// Appends `msg` to `buf` as it goes over the wire, dated `now` seconds
    /// after the start of 1970, UTC.
    ///
    /// The clock is the caller's: the same response and the same moment
    /// always give the same bytes.
    pub fn serialize(&mut self, msg: Response, now: u64, buf: &mut Vec<u8>)
        ensures
            final(buf)@ == old(buf)@ + rendered(msg@, now as nat),
    {
        let ghost before = buf@;
        let ghost l1 = status_line(msg@.status);
        let ghost l2 = l1 + server_line();
        let ghost l3 = l2 + length_line(wire(msg@.body).len());
        let ghost l4 = l3 + date_line(now as nat);
        let ghost l5 = l4 + header_lines(msg@.headers);
        let ghost l6 = l5 + wire("\r\n"@);
        push_status_line(buf, msg.status.as_str());
        push_text(buf, "Server: xx0\r\n");
        proof {
            lemma_append(before, l1, server_line());
        }
        push_length_line(buf, msg.response.as_str().as_bytes().len());
        proof {
            lemma_append(before, l2, length_line(wire(msg@.body).len()));
        }
        push_date_line(buf, now);
        proof {
            lemma_append(before, l3, date_line(now as nat));
        }
        push_header_lines(buf, &msg.headers);
        proof {
            assert(fields(msg.headers@) == msg@.headers);
            lemma_append(before, l4, header_lines(msg@.headers));
        }
        push_text(buf, "\r\n");
        proof {
            lemma_append(before, l5, wire("\r\n"@));
        }
        push_text(buf, msg.response.as_str());
        proof {
            lemma_append(before, l6, wire(msg@.body));
        }
    }
}

} // verus!

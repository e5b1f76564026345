//! What a server of static files decides about a request, apart from
//! touching the disk: whether to refuse it, whether it asks to become a
//! WebSocket, which file it names, and what each answer looks like.

use crate::decimal::{parse_u8, u8_of};
use crate::request::{Request, RequestView};
use crate::response::{upserted, Response, ResponseView, StatusCode};
use crate::text::{spells, wire};
use rustc_serialize::base64::{ToBase64, STANDARD};
use sha1::Sha1;
use vstd::prelude::*;
use vstd::slice::slice_subrange;
use vstd::string::{StringExecFns, StringSliceAdditionalSpecFns};
use vstd::utf8::valid_utf8;

verus! {

/// The SHA-1 digest of `data`, as the `sha1` crate computes it.
pub uninterp spec fn sha1_digest(data: Seq<u8>) -> Seq<u8>;

/// `data` in base64 with the standard alphabet and padding, without line
/// breaks, as `rustc_serialize` writes it.
pub uninterp spec fn base64_standard(data: Seq<u8>) -> Seq<char>;

/// Feeds `data` to a fresh `sha1::Sha1` and takes the bytes of its digest.
/// The digest is claimed to depend on the data alone.
#[verifier::external_body]
fn sha1_of(data: &[u8]) -> (digest: Vec<u8>)
    ensures
        digest@ == sha1_digest(data@),
{
    let mut hash = Sha1::new();
    hash.update(data);
    hash.digest().bytes().to_vec()
}

/// Calls `rustc_serialize`'s `to_base64` on `data` with its `STANDARD`
/// configuration. The text is claimed to depend on the data alone.
#[verifier::external_body]
fn base64_of(data: &[u8]) -> (text: String)
    ensures
        text@ == base64_standard(data@),
{
    data.to_base64(STANDARD)
}

/// The text that every WebSocket server appends to a client's key before
/// hashing it.
pub open spec fn magic() -> Seq<char> {
    "258EAFA5-E914-47DA-95CA-C5AB0DC85B11"@
}

/// The value of `Sec-WebSocket-Accept` that answers the client key `key`:
/// the base64 of the SHA-1 digest of the key followed by the magic text.
pub open spec fn accept_of(key: Seq<char>) -> Seq<char> {
    base64_standard(sha1_digest(wire(key + magic())))
}

/// The answer to a request that is refused: status 500, an HTML content
/// type, the body `Error`; other headers stay.
pub open spec fn refused(resp: ResponseView) -> ResponseView {
    ResponseView {
        status: StatusCode::InternalServerError.text(),
        headers: upserted(resp.headers, "Content-Type"@, "text/html"@),
        body: "Error"@,
    }
}

/// The answer that completes a WebSocket handshake: status 101 and, behind
/// the headers already there, `Upgrade`, `Connection` and the accept value.
pub open spec fn switched(resp: ResponseView, accept: Seq<char>) -> ResponseView {
    ResponseView {
        status: StatusCode::SwitchingProtocols.text(),
        headers: resp.headers.push(("Upgrade"@, "Websocket"@)).push(
            ("Connection"@, "Upgrade"@),
        ).push(("Sec-WebSocket-Accept"@, accept)),
        body: resp.body,
    }
}

/// The answer for a file that cannot be had: status 404, an HTML content
/// type, and the name that was looked for as the body.
pub open spec fn missing(resp: ResponseView, shown: Seq<char>) -> ResponseView {
    ResponseView {
        status: StatusCode::NotFound.text(),
        headers: upserted(resp.headers, "Content-Type"@, "text/html"@),
        body: shown,
    }
}

/// The content type that goes with a file name's extension, where one is
/// known.
pub open spec fn content_type_of(extension: Seq<char>) -> Option<Seq<char>> {
    if extension == "html"@ {
        Some("text/html"@)
    } else if extension == "js"@ {
        Some("application/javascript"@)
    } else {
        None
    }
}

/// The answer that carries a file: its contents as the body and, where the
/// extension is known, its content type.
pub open spec fn found(resp: ResponseView, extension: Seq<char>, contents: Seq<char>) -> ResponseView {
    ResponseView {
        status: resp.status,
        headers: match content_type_of(extension) {
            Some(kind) => upserted(resp.headers, "Content-Type"@, kind),
            None => resp.headers,
        },
        body: contents,
    }
}

/// Whether header `i` of the request is named exactly `name`.
pub open spec fn named(r: RequestView, i: int, name: Seq<char>) -> bool {
    r.name_bytes(i) == wire(name)
}

/// Whether one of the first `upto` headers is named `name` and has exactly
/// the value `value`.
pub open spec fn offers(r: RequestView, name: Seq<char>, value: Seq<char>, upto: int) -> bool {
    exists|i: int| 0 <= i < upto && #[trigger] named(r, i, name) && r.value_bytes(i) == wire(value)
}

/// Whether one of the first `upto` headers is a `Sec-WebSocket-Version`
/// whose value reads as a number of at least 13.
pub open spec fn offers_version(r: RequestView, upto: int) -> bool {
    exists|i: int|
        0 <= i < upto && #[trigger] named(r, i, "Sec-WebSocket-Version"@) && (u8_of(
            r.value_bytes(i),
        ) matches Some(n) && n >= 13)
}

/// The place of the last `Sec-WebSocket-Key` among the first `upto`
/// headers, or -1 where there is none.
pub open spec fn last_key(r: RequestView, upto: int) -> int
    decreases upto,
{
    if upto <= 0 {
        -1
    } else if named(r, upto - 1, "Sec-WebSocket-Key"@) {
        upto - 1
    } else {
        last_key(r, upto - 1)
    }
}

/// The client's key, where the request asks to become a WebSocket: it is
/// HTTP/1.1, has `Upgrade: websocket` and `Connection: Upgrade`, names a
/// WebSocket version of at least 13, and its last `Sec-WebSocket-Key` is
/// text. Names and values are compared byte for byte.
pub open spec fn handshake_key(r: RequestView) -> Option<Seq<u8>> {
    let n = r.headers.len() as int;
    let k = last_key(r, n);
    if r.version >= 1 && offers(r, "Upgrade"@, "websocket"@, n) && offers(
        r,
        "Connection"@,
        "Upgrade"@,
        n,
    ) && offers_version(r, n) && k >= 0 && valid_utf8(r.value_bytes(k)) {
        Some(r.value_bytes(k))
    } else {
        None
    }
}

/// `bytes` cut at every `/`: the runs between the slashes, empty ones
/// included, so that there is always one more than there are slashes.
pub open spec fn parts(bytes: Seq<u8>) -> Seq<Seq<u8>>
    decreases bytes.len(),
{
    if bytes.len() == 0 {
        seq![Seq::<u8>::empty()]
    } else {
        let before = parts(bytes.drop_last());
        if bytes.last() == 47 {
            before.push(Seq::<u8>::empty())
        } else {
            before.drop_last().push(before.last().push(bytes.last()))
        }
    }
}

/// Whether a part of a path names something below the directory it is
/// looked up in: it is neither empty nor `..`.
pub open spec fn wanted(part: Seq<u8>) -> bool {
    part.len() != 0 && !(part.len() == 2 && part[0] == 46 && part[1] == 46)
}

/// The wanted ones among `all`, in their order.
pub open spec fn kept(all: Seq<Seq<u8>>) -> Seq<Seq<u8>>
    decreases all.len(),
{
    if all.len() == 0 {
        Seq::<Seq<u8>>::empty()
    } else if wanted(all.last()) {
        kept(all.drop_last()).push(all.last())
    } else {
        kept(all.drop_last())
    }
}

/// The names that lead from the served directory to the file that the
/// request target `path` asks for.
pub open spec fn file_components(path: Seq<u8>) -> Seq<Seq<u8>> {
    kept(parts(path))
}

/// The bytes of each text of `texts`.
pub open spec fn bytes_of(texts: Seq<&str>) -> Seq<Seq<u8>> {
    Seq::new(texts.len(), |i: int| texts[i].spec_bytes())
}

/// What is to be done about a request.
pub enum Route<'r> {
    /// Refuse it: only `GET` is served.
    Refuse,
    /// Complete a WebSocket handshake with this client key.
    Upgrade(&'r str),
    /// Serve the file that these names lead to.
    Serve(Vec<&'r str>),
}

/// [`Route`] as mathematical data, every text by its bytes.
pub enum RouteView {
    Refuse,
    Upgrade(Seq<u8>),
    Serve(Seq<Seq<u8>>),
}

impl<'r> View for Route<'r> {
    type V = RouteView;

    open spec fn view(&self) -> RouteView {
        match self {
            Route::Refuse => RouteView::Refuse,
            Route::Upgrade(key) => RouteView::Upgrade(key.spec_bytes()),
            Route::Serve(names) => RouteView::Serve(bytes_of(names@)),
        }
    }
}

/// What is to be done about the request `r`: anything but `GET` is refused;
/// a `GET` that asks to become a WebSocket is upgraded; any other `GET` is
/// for a file.
pub open spec fn route_of(r: RequestView) -> RouteView {
    if r.method_bytes() != wire("GET"@) {
        RouteView::Refuse
    } else {
        match handshake_key(r) {
            Some(key) => RouteView::Upgrade(key),
            None => RouteView::Serve(file_components(r.path_bytes())),
        }
    }
}

/// In valid UTF-8, what stands between two ASCII bytes, or between one and
/// an end, is valid UTF-8 itself.
proof fn lemma_text_between(bytes: Seq<u8>, from: int, to: int)
    requires
        valid_utf8(bytes),
        0 <= from <= to <= bytes.len(),
        from == 0 || bytes[from - 1] < 128,
        to == bytes.len() || bytes[to] < 128,
    ensures
        valid_utf8(bytes.subrange(from, to)),
{
    let len = bytes.len() as int;
    let tail = bytes.subrange(from, len);
    assert(valid_utf8(tail)) by {
        if from == 0 {
            assert(tail =~= bytes);
        } else {
            vstd::utf8::is_char_boundary_iff_not_is_continuation_byte(bytes, from - 1);
            vstd::utf8::valid_utf8_split(bytes, from - 1);
            let wider = bytes.subrange(from - 1, len);
            assert(wider[0] == bytes[from - 1]);
            assert(vstd::utf8::pop_first_scalar(wider) =~= tail);
        }
    }
    if to == len {
        assert(bytes.subrange(from, to) =~= tail);
    } else {
        assert(tail[to - from] == bytes[to]);
        vstd::utf8::is_char_boundary_iff_not_is_continuation_byte(tail, to - from);
        vstd::utf8::valid_utf8_split(tail, to - from);
        assert(tail.subrange(0, to - from) =~= bytes.subrange(from, to));
    }
}

/// A server of static files that also answers WebSocket handshakes.
pub struct StaticFiles;

impl StaticFiles {
    /// What is to be done about `request`.
    pub fn route<'r>(&self, request: &'r Request) -> (route: Route<'r>)
        ensures
            route@ == route_of(request@),
    {
        if !spells(request.method().as_bytes(), "GET") {
            return Route::Refuse;
        }
        match self.websocket_key(request) {
            Some(key) => Route::Upgrade(key),
            None => Route::Serve(self.components(request.path())),
        }
    }

    /// The client's key, where `request` asks to become a WebSocket.
    pub fn websocket_key<'r>(&self, request: &'r Request) -> (key: Option<&'r str>)
        ensures
            match handshake_key(request@) {
                Some(bytes) => key matches Some(k) && k.spec_bytes() == bytes,
                None => key is None,
            },
    {
        if request.version() < 1 {
            return None;
        }
        let ghost r = request@;
        let mut upgrade = false;
        let mut connection = false;
        let mut version = false;
        let mut key: Option<&'r str> = None;
        let mut walk = request.headers();
        loop
            invariant
                walk.request() == request,
                r == request@,
                0 <= walk.position() <= r.headers.len(),
                upgrade <==> offers(r, "Upgrade"@, "websocket"@, walk.position()),
                connection <==> offers(r, "Connection"@, "Upgrade"@, walk.position()),
                version <==> offers_version(r, walk.position()),
                match key {
                    Some(k) => {
                        &&& last_key(r, walk.position()) >= 0
                        &&& valid_utf8(r.value_bytes(last_key(r, walk.position())))
                        &&& k.spec_bytes() == r.value_bytes(last_key(r, walk.position()))
                    },
                    None => last_key(r, walk.position()) >= 0 ==> !valid_utf8(
                        r.value_bytes(last_key(r, walk.position())),
                    ),
                },
            ensures
                walk.position() == r.headers.len(),
            decreases r.headers.len() - walk.position(),
        {
            let ghost at = walk.position();
            match walk.next() {
                None => {
                    break ;
                },
                Some((name, value)) => {
                    let name = name.as_bytes();
                    assert(name@ == r.name_bytes(at));
                    assert(value@ == r.value_bytes(at));
                    if spells(name, "Upgrade") && spells(value, "websocket") {
                        upgrade = true;
                        assert(named(r, at, "Upgrade"@));
                    }
                    if spells(name, "Connection") && spells(value, "Upgrade") {
                        connection = true;
                        assert(named(r, at, "Connection"@));
                    }
                    if spells(name, "Sec-WebSocket-Key") {
                        key = match core::str::from_utf8(value) {
                            Ok(text) => Some(text),
                            Err(_) => None,
                        };
                    }
                    if spells(name, "Sec-WebSocket-Version") {
                        match parse_u8(value) {
                            Some(n) => {
                                if n >= 13 {
                                    version = true;
                                    assert(named(r, at, "Sec-WebSocket-Version"@));
                                }
                            },
                            None => {},
                        }
                    }
                },
            }
        }
        if upgrade && connection && version {
            key
        } else {
            None
        }
    }

    /// The names that lead from the served directory to the file that the
    /// request target `path` asks for: the parts of `path` between its
    /// slashes, without the empty ones and without every `..`.
    pub fn components<'r>(&self, path: &'r str) -> (names: Vec<&'r str>)
        ensures
            bytes_of(names@) == file_components(wire(path@)),
    {
        let bytes = path.as_bytes();
        let ghost all = bytes@;
        proof {
            vstd::utf8::encode_utf8_valid_utf8(path@);
        }
        let mut names: Vec<&'r str> = Vec::new();
        let mut start: usize = 0;
        let mut i: usize = 0;
        assert(all.take(0) =~= Seq::<u8>::empty());
        assert(bytes_of(names@) =~= kept(parts(all.take(0)).drop_last()));
        assert(parts(all.take(0)).last() =~= all.subrange(0, 0));
        while i < bytes.len()
            invariant
                all == bytes@,
                valid_utf8(all),
                start <= i <= all.len(),
                start == 0 || all[start - 1] == 47,
                parts(all.take(i as int)).len() >= 1,
                parts(all.take(i as int)).last() == all.subrange(start as int, i as int),
                bytes_of(names@) == kept(parts(all.take(i as int)).drop_last()),
            decreases all.len() - i,
        {
            let ghost before = parts(all.take(i as int));
            let ghost next = all.take(i + 1);
            assert(next.drop_last() =~= all.take(i as int));
            assert(next.last() == all[i as int]);
            if bytes[i] == 47 {
                push_wanted(bytes, start, i, &mut names);
                start = i + 1;
                proof {
                    assert(parts(next) == before.push(Seq::<u8>::empty()));
                    assert(parts(next).drop_last() =~= before);
                    assert(parts(next).last() =~= all.subrange(start as int, i + 1));
                }
            } else {
                proof {
                    assert(parts(next) == before.drop_last().push(before.last().push(all[i as int])));
                    assert(parts(next).drop_last() =~= before.drop_last());
                    assert(parts(next).last() =~= all.subrange(start as int, i + 1));
                }
            }
            i = i + 1;
        }
        assert(all.take(i as int) =~= all);
        push_wanted(bytes, start, i, &mut names);
        names
    }

    /// Turns `resp` into the answer to a request that is refused.
    pub fn set_error_response<'a>(&'a self, resp: &'a mut Response) -> (r: &'a mut Response)
        ensures
            r@ == refused(old(resp)@),
            *final(resp) == *final(r),
    {
        resp.status_code(StatusCode::InternalServerError);
        resp.content_type("text/html");
        resp.body("Error");
        resp
    }

    /// The accept value that answers the client key `key`.
    pub fn accept_key(&self, key: &str) -> (accept: String)
        ensures
            accept@ == accept_of(key@),
    {
        let mut joined = key.to_owned();
        joined.append("258EAFA5-E914-47DA-95CA-C5AB0DC85B11");
        let digest = sha1_of(joined.as_str().as_bytes());
        base64_of(digest.as_slice())
    }

    /// Turns `resp` into the answer that completes a WebSocket handshake
    /// with the accept value `accept`.
    pub fn set_upgrade_response<'a>(&'a self, resp: &'a mut Response, accept: &str) -> (r:
        &'a mut Response)
        ensures
            r@ == switched(old(resp)@, accept@),
            *final(resp) == *final(r),
    {
        resp.status_code(StatusCode::SwitchingProtocols);
        resp.header("Upgrade", "Websocket");
        resp.header("Connection", "Upgrade");
        resp.header("Sec-WebSocket-Accept", accept);
        resp
    }

    /// Turns `resp` into the answer for a file that cannot be had; `shown`
    /// is the name that was looked for.
    pub fn set_missing_response<'a>(&'a self, resp: &'a mut Response, shown: &str) -> (r:
        &'a mut Response)
        ensures
            r@ == missing(old(resp)@, shown@),
            *final(resp) == *final(r),
    {
        resp.status_code(StatusCode::NotFound);
        resp.content_type("text/html");
        resp.body(shown);
        resp
    }

    /// The content type for a file name's extension, where one is known.
    pub fn content_type_for(&self, extension: &str) -> (kind: Option<&'static str>)
        ensures
            match content_type_of(extension@) {
                Some(text) => kind matches Some(k) && k@ == text,
                None => kind is None,
            },
    {
        if same_text(extension, "html") {
            Some("text/html")
        } else if same_text(extension, "js") {
            Some("application/javascript")
        } else {
            None
        }
    }

    /// Turns `resp` into the answer that carries a file with the extension
    /// `extension` and the contents `contents`.
    pub fn set_file_response<'a>(
        &'a self,
        resp: &'a mut Response,
        extension: &str,
        contents: &str,
    ) -> (r: &'a mut Response)
        ensures
            r@ == found(old(resp)@, extension@, contents@),
            *final(resp) == *final(r),
    {
        match self.content_type_for(extension) {
            Some(kind) => {
                resp.content_type(kind);
            },
            None => {},
        }
        resp.body(contents);
        resp
    }
}

/// Puts the part of `bytes` from `from` up to `to` behind `names`, where it
/// is wanted.
fn push_wanted<'r>(bytes: &'r [u8], from: usize, to: usize, names: &mut Vec<&'r str>)
    requires
        valid_utf8(bytes@),
        from <= to <= bytes@.len(),
        from == 0 || bytes@[from - 1] == 47,
        to == bytes@.len() || bytes@[to as int] == 47,
    ensures
        bytes_of(final(names)@) == if wanted(bytes@.subrange(from as int, to as int)) {
            bytes_of(old(names)@).push(bytes@.subrange(from as int, to as int))
        } else {
            bytes_of(old(names)@)
        },
{
    let ghost had = names@;
    let part = slice_subrange(bytes, from, to);
    if part.len() == 0 || (part.len() == 2 && part[0] == 46 && part[1] == 46) {
        return ;
    }
    proof {
        lemma_text_between(bytes@, from as int, to as int);
    }
    match core::str::from_utf8(part) {
        Ok(text) => {
            names.push(text);
            assert(bytes_of(names@) =~= bytes_of(had).push(part@));
        },
        Err(_) => {},
    }
}

/// Whether two texts are the same.
fn same_text(a: &str, b: &str) -> (same: bool)
    ensures
        same == (a@ == b@),
{
    proof {
        vstd::utf8::encode_utf8_decode_utf8(a@);
        vstd::utf8::encode_utf8_decode_utf8(b@);
    }
    crate::text::same_bytes(a.as_bytes(), b.as_bytes())
}

} // verus!

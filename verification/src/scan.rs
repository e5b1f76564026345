//! The boundary to the tokenizer: what it reports of a request head, as
//! plain addresses, offsets and lengths.

use httparse::Status::{Complete, Partial};
use httparse::{Request, EMPTY_HEADER};
use vstd::prelude::*;

verus! {

/// Where a token lies in memory: the address of its first byte, and its
/// length in bytes.
pub type Place = (usize, usize);

/// Where a token lies in the bytes that were scanned: the offset of its
/// first byte, counted from the first byte scanned, and its length in bytes.
pub type Piece = (usize, usize);

/// The piece that lies at `place` when the scanned bytes start at the
/// address `base`.
pub open spec fn piece_at(place: Place, base: usize) -> Piece {
    (place.0.wrapping_sub(base), place.1)
}

/// The pieces of the headers at `places`.
pub open spec fn header_pieces(places: Seq<(Place, Place)>, base: usize) -> Seq<(Piece, Piece)> {
    Seq::new(places.len(), |i: int| (piece_at(places[i].0, base), piece_at(places[i].1, base)))
}

/// What the tokenizer reports of a complete request head.
pub struct Tokens {
    /// The address of the first byte that was scanned.
    pub base: usize,
    /// The method, where one was recorded.
    pub method: Option<Place>,
    /// The request target, where one was recorded.
    pub path: Option<Place>,
    /// The minor protocol version, where one was recorded.
    pub version: Option<u8>,
    /// Name and value of each header, in wire order.
    pub headers: Vec<(Place, Place)>,
    /// How many bytes the head takes, its closing empty line included.
    pub len: usize,
}

/// [`Tokens`] as mathematical data: every token by its place in the scanned
/// bytes, wherever those lie in memory.
pub struct TokensView {
    pub method: Option<Piece>,
    pub path: Option<Piece>,
    pub version: Option<u8>,
    pub headers: Seq<(Piece, Piece)>,
    pub len: usize,
}

impl View for Tokens {
    type V = TokensView;

    open spec fn view(&self) -> TokensView {
        TokensView {
            method: match self.method {
                Some(place) => Some(piece_at(place, self.base)),
                None => None,
            },
            path: match self.path {
                Some(place) => Some(piece_at(place, self.base)),
                None => None,
            },
            version: self.version,
            headers: header_pieces(self.headers@, self.base),
            len: self.len,
        }
    }
}

/// The tokenizer's verdict on the bytes it was given.
pub enum Scan {
    /// They start with a complete request head.
    Complete(Tokens),
    /// They are the beginning of a head, with nothing wrong so far.
    Partial,
    /// They cannot begin a request head; the tokenizer's name for what is
    /// wrong with them comes along.
    Failed(String),
}

/// [`Scan`] as mathematical data.
pub enum ScanView {
    Complete(TokensView),
    Partial,
    Failed(Seq<char>),
}

impl View for Scan {
    type V = ScanView;

    open spec fn view(&self) -> ScanView {
        match self {
            Scan::Complete(tokens) => ScanView::Complete(tokens@),
            Scan::Partial => ScanView::Partial,
            Scan::Failed(why) => ScanView::Failed(why@),
        }
    }
}

/// What `httparse` makes of `bytes` as a request head, given room for
/// `room` headers.
pub uninterp spec fn tokenized(bytes: Seq<u8>, room: usize) -> ScanView;

/// Runs `httparse::Request::parse` on `bytes` with `room` header slots.
///
/// Nothing is claimed about what the tokenizer finds, only that it depends
/// on the bytes and the room alone: the result is [`tokenized`] of them.
/// Each token, a slice of `bytes`, comes back as the address of its first
/// byte and its length, beside the address of the first byte of `bytes`; an
/// error comes back as the name of its variant.
#[verifier::external_body]
pub(crate) fn tokenize(bytes: &[u8], room: usize) -> (scan: Scan)
    ensures
        scan@ == tokenized(bytes@, room),
{
    let mut slots = vec![EMPTY_HEADER; room];
    let mut head = Request::new(&mut slots);
    let at = |s: &[u8]| (s.as_ptr() as usize, s.len());
    match head.parse(bytes) {
        Ok(Complete(len)) => Scan::Complete(Tokens {
            base: bytes.as_ptr() as usize,
            method: head.method.map(str::as_bytes).map(at),
            path: head.path.map(str::as_bytes).map(at),
            version: head.version,
            headers: head.headers.iter().map(|h| (at(h.name.as_bytes()), at(h.value))).collect(),
            len,
        }),
        Ok(Partial) => Scan::Partial,
        Err(e) => Scan::Failed(format!("{e:?}")),
    }
}

} // verus!

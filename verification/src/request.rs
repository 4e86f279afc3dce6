//! The structured request side of the engine: parameter segments extracted
//! from a URI, the header store, the parsed [`HttpRequest`], and the URI
//! pattern matcher.

use vstd::prelude::*;

use crate::scan::find_byte;
use crate::scan::find_byte_from;
use crate::scan::find_crlf;
use crate::scan::find_crlf_from;
use crate::scan::find_crlf2;
use crate::scan::find_crlf2_from;
use crate::scan::lemma_find_byte_props;
use crate::scan::lemma_find_crlf_props;
use crate::scan::lemma_find_crlf2_props;
use crate::scan::copy_range;
use crate::shared::HttpError;
use crate::shared::HttpMethod;
use crate::shared::HttpVersion;
use crate::shared::spec_method_of;
use crate::shared::version_token;
use crate::utf8::check_utf8;
use crate::utf8::is_utf8;

verus! {

/// Space byte, the token separator of the request line.
pub const WHITESPACE_BYTE: u8 = 32;

/// Colon byte, the key/value separator of a header line.
pub const COLON_BYTE: u8 = 58;

/// Most headers a request may carry before `CapacityExceeded`.
pub const MAX_NUM_HEADERS: usize = 1000;

/// Most entries a parameter segment may hold before `CapacityExceeded`.
pub const MAX_NUM_PARAMS: usize = 1024;

/// The mathematical view of an optional byte vector.
pub open spec fn opt_bytes_view(v: Option<Vec<u8>>) -> Option<Seq<u8>> {
    match v {
        Some(x) => Some(x@),
        None => None,
    }
}

/// The mathematical view of a list of owned `(key, optional value)`
/// entries.
pub open spec fn entries_view(v: Seq<(Vec<u8>, Option<Vec<u8>>)>) -> Seq<
    (Seq<u8>, Option<Seq<u8>>),
> {
    v.map_values(|e: (Vec<u8>, Option<Vec<u8>>)| (e.0@, opt_bytes_view(e.1)))
}

/// A borrowed-key wrapper yielded by segment iteration: the name of a path
/// or query parameter.
#[derive(Debug, Clone, PartialEq, Eq)]
pub struct Key(pub Vec<u8>);

impl View for Key {
    type V = Seq<u8>;

    open spec fn view(&self) -> Seq<u8> {
        self.0@
    }
}

impl Key {
    /// The bytes of the key.
    pub fn as_bytes(&self) -> (r: &Vec<u8>)
        ensures
            r@ == self@,
    {
        &self.0
    }
}

/// A wrapper yielded by segment iteration: the value captured for a path
/// parameter or given to a query parameter.
#[derive(Debug, Clone, PartialEq, Eq)]
pub struct Value(pub Vec<u8>);

impl View for Value {
    type V = Seq<u8>;

    open spec fn view(&self) -> Seq<u8> {
        self.0@
    }
}

impl Value {
    /// The bytes of the value.
    pub fn as_bytes(&self) -> (r: &Vec<u8>)
        ensures
            r@ == self@,
    {
        &self.0
    }
}

/// An ordered collection of `(key, optional value)` pairs extracted from a
/// URI, with a resettable iteration cursor held apart from the stored
/// entries. Path captures always carry a value; query parameters may omit
/// it.
#[derive(Debug, Clone, PartialEq, Eq)]
pub struct Segment {
    entries: Vec<(Vec<u8>, Option<Vec<u8>>)>,
    pending_key: Option<Vec<u8>>,
    iter_cnt: usize,
}

impl View for Segment {
    type V = Seq<(Seq<u8>, Option<Seq<u8>>)>;

    closed spec fn view(&self) -> Seq<(Seq<u8>, Option<Seq<u8>>)> {
        Seq::new(
            self.entries@.len(),
            |i: int|
                (
                    self.entries@[i].0@,
                    match self.entries@[i].1 {
                        Some(v) => Some(v@),
                        None => None,
                    },
                ),
        )
    }
}

impl Segment {
    /// Position of the iteration cursor.
    pub closed spec fn spec_cursor(&self) -> int {
        self.iter_cnt as int
    }

    /// Whether a key has been staged by `insert_key` and not yet paired
    /// with a value.
    pub closed spec fn has_pending_key(&self) -> bool {
        self.pending_key is Some
    }

    /// The staged key.
    pub closed spec fn spec_pending_key(&self) -> Seq<u8>
        recommends
            self.has_pending_key(),
    {
        self.pending_key->0@
    }

    /// Creates an empty segment with the cursor at the start.
    pub fn new() -> (r: Segment)
        ensures
            r@ == Seq::<(Seq<u8>, Option<Seq<u8>>)>::empty(),
            r.spec_cursor() == 0,
            !r.has_pending_key(),
    {
        let r = Segment { entries: Vec::new(), pending_key: None, iter_cnt: 0 };
        proof {
            assert(r@ =~= Seq::<(Seq<u8>, Option<Seq<u8>>)>::empty());
        }
        r
    }

    /// Appends a key together with its (optional) value, or fails with
    /// `CapacityExceeded` — the segment untouched — once `MAX_NUM_PARAMS`
    /// entries are stored.
    pub fn insert_key_value(&mut self, key: Vec<u8>, value: Option<Vec<u8>>) -> (r: Result<
        (),
        HttpError,
    >)
        ensures
            final(self).spec_cursor() == old(self).spec_cursor(),
            final(self).has_pending_key() == old(self).has_pending_key(),
            final(self).has_pending_key() ==> final(self).spec_pending_key() == old(
                self,
            ).spec_pending_key(),
            old(self)@.len() < MAX_NUM_PARAMS ==> {
                &&& r is Ok
                &&& final(self)@ == old(self)@.push((key@, opt_bytes_view(value)))
            },
            old(self)@.len() >= MAX_NUM_PARAMS ==> {
                &&& r == Err::<(), HttpError>(HttpError::CapacityExceeded)
                &&& final(self)@ == old(self)@
            },
    {
        if self.entries.len() >= MAX_NUM_PARAMS {
            return Err(HttpError::CapacityExceeded);
        }
        let ghost prev = self@;
        let ghost entry = (key@, opt_bytes_view(value));
        self.entries.push((key, value));
        proof {
            assert(self@ =~= prev.push(entry));
        }
        Ok(())
    }

    /// Stages a key, to be completed by the next `insert_value`; fails
    /// with `CapacityExceeded` — nothing staged — once `MAX_NUM_PARAMS`
    /// entries are stored.
    pub fn insert_key(&mut self, key: Vec<u8>) -> (r: Result<(), HttpError>)
        ensures
            final(self)@ == old(self)@,
            final(self).spec_cursor() == old(self).spec_cursor(),
            old(self)@.len() < MAX_NUM_PARAMS ==> {
                &&& r is Ok
                &&& final(self).has_pending_key()
                &&& final(self).spec_pending_key() == key@
            },
            old(self)@.len() >= MAX_NUM_PARAMS ==> {
                &&& r == Err::<(), HttpError>(HttpError::CapacityExceeded)
                &&& final(self).has_pending_key() == old(self).has_pending_key()
                &&& final(self).has_pending_key() ==> final(self).spec_pending_key() == old(
                    self,
                ).spec_pending_key()
            },
    {
        if self.entries.len() >= MAX_NUM_PARAMS {
            return Err(HttpError::CapacityExceeded);
        }
        self.pending_key = Some(key);
        Ok(())
    }

    /// Completes the entry begun by `insert_key`, appending the staged
    /// key with this value; fails with `CapacityExceeded` — the segment
    /// and the staged key untouched — once `MAX_NUM_PARAMS` entries are
    /// stored.
    pub fn insert_value(&mut self, value: Option<Vec<u8>>) -> (r: Result<(), HttpError>)
        requires
            old(self).has_pending_key(),
        ensures
            final(self).spec_cursor() == old(self).spec_cursor(),
            old(self)@.len() < MAX_NUM_PARAMS ==> {
                &&& r is Ok
                &&& final(self)@ == old(self)@.push(
                    (old(self).spec_pending_key(), opt_bytes_view(value)),
                )
                &&& !final(self).has_pending_key()
            },
            old(self)@.len() >= MAX_NUM_PARAMS ==> {
                &&& r == Err::<(), HttpError>(HttpError::CapacityExceeded)
                &&& final(self)@ == old(self)@
                &&& final(self).has_pending_key()
                &&& final(self).spec_pending_key() == old(self).spec_pending_key()
            },
    {
        if self.entries.len() >= MAX_NUM_PARAMS {
            return Err(HttpError::CapacityExceeded);
        }
        let ghost prev = self@;
        let ghost entry = (old(self).spec_pending_key(), opt_bytes_view(value));
        let key = self.pending_key.take().unwrap();
        self.entries.push((key, value));
        proof {
            assert(self@ =~= prev.push(entry));
        }
        Ok(())
    }

    /// Number of stored entries.
    pub fn size(&self) -> (r: usize)
        ensures
            r == self@.len(),
    {
        self.entries.len()
    }

    /// Resets the iteration cursor to the start; the stored entries are
    /// untouched, so iteration can be replayed in full.
    pub fn iter(&mut self)
        ensures
            final(self)@ == old(self)@,
            final(self).spec_cursor() == 0,
            final(self).has_pending_key() == old(self).has_pending_key(),
    {
        self.iter_cnt = 0;
    }

    /// Yields the entry under the cursor and advances, or `None` when the
    /// cursor has passed the last entry. The entry yielded at cursor
    /// position `i` is always the `i`-th stored entry.
    pub fn next(&mut self) -> (r: Option<(Key, Option<Value>)>)
        ensures
            final(self)@ == old(self)@,
            final(self).has_pending_key() == old(self).has_pending_key(),
            old(self).spec_cursor() < old(self)@.len() ==> {
                &&& final(self).spec_cursor() == old(self).spec_cursor() + 1
                &&& r matches Some(kv)
                &&& kv.0@ == old(self)@[old(self).spec_cursor()].0
                &&& (match kv.1 {
                    Some(v) => old(self)@[old(self).spec_cursor()].1 == Some(v@),
                    None => old(self)@[old(self).spec_cursor()].1 is None,
                })
            },
            !(old(self).spec_cursor() < old(self)@.len()) ==> {
                &&& final(self).spec_cursor() == old(self).spec_cursor()
                &&& r is None
            },
    {
        if self.iter_cnt >= self.entries.len() {
            return None;
        }
        let idx = self.iter_cnt;
        let entry = &self.entries[idx];
        let key = Key(entry.0.clone());
        let value = match &entry.1 {
            Some(v) => Some(Value(v.clone())),
            None => None,
        };
        self.iter_cnt = idx + 1;
        Some((key, value))
    }

    /// One full pass: resets the cursor, then yields every stored entry
    /// in storage order. The result is exactly the stored entry sequence
    /// and the entries are untouched, so any two passes over the same
    /// segment yield identical sequences, whatever iteration went before.
    pub fn collect_entries(&mut self) -> (r: Vec<(Vec<u8>, Option<Vec<u8>>)>)
        ensures
            final(self)@ == old(self)@,
            final(self).has_pending_key() == old(self).has_pending_key(),
            final(self).spec_cursor() == old(self)@.len(),
            entries_view(r@) == old(self)@,
    {
        self.iter();
        let mut r: Vec<(Vec<u8>, Option<Vec<u8>>)> = Vec::new();
        loop
            invariant
                self@ == old(self)@,
                self.has_pending_key() == old(self).has_pending_key(),
                0 <= self.spec_cursor() <= self@.len(),
                r@.len() == self.spec_cursor(),
                forall|k: int|
                    0 <= k < r@.len() ==> entries_view(r@)[k] == old(self)@[k],
            decreases self@.len() - self.spec_cursor(),
        {
            let ghost prev = r@;
            match self.next() {
                Some((key, value)) => {
                    let raw_value = match value {
                        Some(v) => Some(v.0),
                        None => None,
                    };
                    let ghost ev = (key@, opt_bytes_view(raw_value));
                    r.push((key.0, raw_value));
                    proof {
                        assert forall|k: int|
                            0 <= k < r@.len() implies entries_view(r@)[k] == old(self)@[k] by {
                            if k < prev.len() {
                                assert(entries_view(prev)[k] == old(self)@[k]);
                            } else {
                                assert(entries_view(r@)[k] == ev);
                            }
                        }
                    }
                },
                None => {
                    proof {
                        assert(entries_view(r@) =~= old(self)@);
                    }
                    return r;
                },
            }
        }
    }
}

/// The path and query parameters produced by one successful match attempt.
#[derive(Debug, Clone, PartialEq, Eq)]
pub struct Params {
    path_segment: Segment,
    query_fragment: Segment,
}

impl Params {
    /// The path captures, in pattern-declaration order.
    pub closed spec fn spec_path(&self) -> Seq<(Seq<u8>, Option<Seq<u8>>)> {
        self.path_segment@
    }

    /// The query parameters, in URI order.
    pub closed spec fn spec_query(&self) -> Seq<(Seq<u8>, Option<Seq<u8>>)> {
        self.query_fragment@
    }

    /// Position of the path iteration cursor.
    pub closed spec fn spec_path_cursor(&self) -> int {
        self.path_segment.spec_cursor()
    }

    /// Position of the query iteration cursor.
    pub closed spec fn spec_query_cursor(&self) -> int {
        self.query_fragment.spec_cursor()
    }

    /// Creates an empty parameter set.
    pub fn new() -> (r: Params)
        ensures
            r.spec_path() == Seq::<(Seq<u8>, Option<Seq<u8>>)>::empty(),
            r.spec_query() == Seq::<(Seq<u8>, Option<Seq<u8>>)>::empty(),
            r.spec_path_cursor() == 0,
            r.spec_query_cursor() == 0,
    {
        Params { path_segment: Segment::new(), query_fragment: Segment::new() }
    }

    /// Resets path iteration to the start.
    pub fn iter_path(&mut self)
        ensures
            final(self).spec_path() == old(self).spec_path(),
            final(self).spec_query() == old(self).spec_query(),
            final(self).spec_path_cursor() == 0,
            final(self).spec_query_cursor() == old(self).spec_query_cursor(),
    {
        self.path_segment.iter();
    }

    /// Resets query iteration to the start.
    pub fn iter_query(&mut self)
        ensures
            final(self).spec_path() == old(self).spec_path(),
            final(self).spec_query() == old(self).spec_query(),
            final(self).spec_query_cursor() == 0,
            final(self).spec_path_cursor() == old(self).spec_path_cursor(),
    {
        self.query_fragment.iter();
    }

    /// Yields the next path capture.
    pub fn next_path(&mut self) -> (r: Option<(Key, Option<Value>)>)
        ensures
            final(self).spec_path() == old(self).spec_path(),
            final(self).spec_query() == old(self).spec_query(),
            final(self).spec_query_cursor() == old(self).spec_query_cursor(),
            old(self).spec_path_cursor() < old(self).spec_path().len() ==> {
                &&& r matches Some(kv)
                &&& kv.0@ == old(self).spec_path()[old(self).spec_path_cursor()].0
                &&& (match kv.1 {
                    Some(v) => old(self).spec_path()[old(self).spec_path_cursor()].1 == Some(v@),
                    None => old(self).spec_path()[old(self).spec_path_cursor()].1 is None,
                })
                &&& final(self).spec_path_cursor() == old(self).spec_path_cursor() + 1
            },
            !(old(self).spec_path_cursor() < old(self).spec_path().len()) ==> {
                &&& r is None
                &&& final(self).spec_path_cursor() == old(self).spec_path_cursor()
            },
    {
        self.path_segment.next()
    }

    /// Yields the next query parameter.
    pub fn next_query(&mut self) -> (r: Option<(Key, Option<Value>)>)
        ensures
            final(self).spec_path() == old(self).spec_path(),
            final(self).spec_query() == old(self).spec_query(),
            final(self).spec_path_cursor() == old(self).spec_path_cursor(),
            old(self).spec_query_cursor() < old(self).spec_query().len() ==> {
                &&& r matches Some(kv)
                &&& kv.0@ == old(self).spec_query()[old(self).spec_query_cursor()].0
                &&& (match kv.1 {
                    Some(v) => old(self).spec_query()[old(self).spec_query_cursor()].1 == Some(
                        v@,
                    ),
                    None => old(self).spec_query()[old(self).spec_query_cursor()].1 is None,
                })
                &&& final(self).spec_query_cursor() == old(self).spec_query_cursor() + 1
            },
            !(old(self).spec_query_cursor() < old(self).spec_query().len()) ==> {
                &&& r is None
                &&& final(self).spec_query_cursor() == old(self).spec_query_cursor()
            },
    {
        self.query_fragment.next()
    }

    /// One full pass over the path captures: resets the path cursor,
    /// then yields every stored capture in pattern order. The result is
    /// exactly the stored capture sequence and the entries are
    /// untouched, so requesting the path sequence twice from the same
    /// `Params` yields the identical sequence both times.
    pub fn collect_path(&mut self) -> (r: Vec<(Vec<u8>, Option<Vec<u8>>)>)
        ensures
            final(self).spec_path() == old(self).spec_path(),
            final(self).spec_query() == old(self).spec_query(),
            final(self).spec_query_cursor() == old(self).spec_query_cursor(),
            final(self).spec_path_cursor() == old(self).spec_path().len(),
            entries_view(r@) == old(self).spec_path(),
    {
        self.path_segment.collect_entries()
    }

    /// One full pass over the query parameters: resets the query cursor,
    /// then yields every stored entry in URI order. The result is
    /// exactly the stored entry sequence and the entries are untouched,
    /// so requesting the query sequence twice from the same `Params`
    /// yields the identical sequence both times.
    pub fn collect_query(&mut self) -> (r: Vec<(Vec<u8>, Option<Vec<u8>>)>)
        ensures
            final(self).spec_path() == old(self).spec_path(),
            final(self).spec_query() == old(self).spec_query(),
            final(self).spec_path_cursor() == old(self).spec_path_cursor(),
            final(self).spec_query_cursor() == old(self).spec_query().len(),
            entries_view(r@) == old(self).spec_query(),
    {
        self.query_fragment.collect_entries()
    }

    /// A view of the path segment, without touching its cursor.
    pub fn path_segment(&self) -> (r: &Segment)
        ensures
            r@ == self.spec_path(),
    {
        &self.path_segment
    }

    /// A view of the query segment, without touching its cursor.
    pub fn query_segment(&self) -> (r: &Segment)
        ensures
            r@ == self.spec_query(),
    {
        &self.query_fragment
    }
}

/// First value stored under `key`, scanning entries in insertion order from
/// index `i` on.
pub open spec fn header_lookup_from(hs: Seq<(Seq<u8>, Seq<u8>)>, key: Seq<u8>, i: int) -> Option<
    Seq<u8>,
>
    decreases hs.len() - i,
{
    if i < 0 || i >= hs.len() {
        None
    } else if hs[i].0 == key {
        Some(hs[i].1)
    } else {
        header_lookup_from(hs, key, i + 1)
    }
}

/// Fixed-capacity, insertion-ordered store of header `(key, value)` pairs.
/// No deduplication and no case normalization; lookup is a linear scan.
#[derive(Debug, Clone, PartialEq, Eq)]
pub struct Headers {
    entries: Vec<(Vec<u8>, Vec<u8>)>,
}

impl View for Headers {
    type V = Seq<(Seq<u8>, Seq<u8>)>;

    closed spec fn view(&self) -> Seq<(Seq<u8>, Seq<u8>)> {
        Seq::new(self.entries@.len(), |i: int| (self.entries@[i].0@, self.entries@[i].1@))
    }
}

impl Headers {
    /// Creates an empty header store.
    pub fn new() -> (r: Headers)
        ensures
            r@ == Seq::<(Seq<u8>, Seq<u8>)>::empty(),
    {
        let r = Headers { entries: Vec::new() };
        proof {
            assert(r@ =~= Seq::<(Seq<u8>, Seq<u8>)>::empty());
        }
        r
    }

    /// Appends a header pair, or fails with `CapacityExceeded` once
    /// `MAX_NUM_HEADERS` pairs are stored.
    pub fn add_key_value(&mut self, key: Vec<u8>, value: Vec<u8>) -> (r: Result<(), HttpError>)
        ensures
            old(self)@.len() < MAX_NUM_HEADERS ==> {
                &&& r is Ok
                &&& final(self)@ == old(self)@.push((key@, value@))
            },
            old(self)@.len() >= MAX_NUM_HEADERS ==> {
                &&& r == Err::<(), HttpError>(HttpError::CapacityExceeded)
                &&& final(self)@ == old(self)@
            },
    {
        if self.entries.len() >= MAX_NUM_HEADERS {
            return Err(HttpError::CapacityExceeded);
        }
        let ghost prev = self@;
        let ghost entry = (key@, value@);
        self.entries.push((key, value));
        proof {
            assert(self@ =~= prev.push(entry));
        }
        Ok(())
    }

    /// Number of stored headers.
    pub fn len(&self) -> (r: usize)
        ensures
            r == self@.len(),
    {
        self.entries.len()
    }

    /// First value stored under `key`, or `None`; insertion order decides
    /// which of several equal keys wins.
    pub fn get(&self, key: &[u8]) -> (r: Option<Vec<u8>>)
        ensures
            match r {
                Some(v) => header_lookup_from(self@, key@, 0) == Some(v@),
                None => header_lookup_from(self@, key@, 0) is None,
            },
    {
        let mut i: usize = 0;
        while i < self.entries.len()
            invariant
                i <= self@.len(),
                header_lookup_from(self@, key@, 0) == header_lookup_from(self@, key@, i as int),
            decreases self@.len() - i,
        {
            if crate::shared::bytes_eq(self.entries[i].0.as_slice(), key) {
                return Some(self.entries[i].1.clone());
            }
            i = i + 1;
        }
        None
    }
}

/// A request URI as taken from the request line; it may carry a query
/// suffix after the first `?`.
#[derive(Debug, Clone, PartialEq, Eq)]
pub struct Uri(pub Vec<u8>);

impl View for Uri {
    type V = Seq<u8>;

    open spec fn view(&self) -> Seq<u8> {
        self.0@
    }
}

impl Uri {
    /// The bytes of the URI.
    pub fn as_bytes(&self) -> (r: &Vec<u8>)
        ensures
            r@ == self@,
    {
        &self.0
    }
}

/// Opening brace, the start of a pattern placeholder.
pub const LBRACE_BYTE: u8 = 123;

/// Closing brace, the end of a pattern placeholder.
pub const RBRACE_BYTE: u8 = 125;

/// Question mark, the start of a URI's query suffix.
pub const QMARK_BYTE: u8 = 63;

/// Ampersand, the separator between query fragments.
pub const AMP_BYTE: u8 = 38;

/// Equals sign, the key/value separator inside one query fragment.
pub const EQUALS_BYTE: u8 = 61;

/// The mathematical content of a parsed request.
#[verifier::ext_equal]
pub struct RequestView {
    /// The request method.
    pub method: HttpMethod,
    /// The URI bytes, query suffix included.
    pub uri: Seq<u8>,
    /// The protocol version.
    pub version: HttpVersion,
    /// The header pairs, in wire order.
    pub headers: Seq<(Seq<u8>, Seq<u8>)>,
    /// The body bytes.
    pub body: Seq<u8>,
}

/// The three tokens of a request line split on single spaces, or `None`
/// when the split does not yield exactly three tokens.
pub open spec fn spec_line_tokens(line: Seq<u8>) -> Option<(Seq<u8>, Seq<u8>, Seq<u8>)> {
    match find_byte_from(line, 0, WHITESPACE_BYTE) {
        None => None,
        Some(s1) => match find_byte_from(line, s1 + 1, WHITESPACE_BYTE) {
            None => None,
            Some(s2) => if find_byte_from(line, s2 + 1, WHITESPACE_BYTE) is Some {
                None
            } else {
                Some(
                    (
                        line.subrange(0, s1),
                        line.subrange(s1 + 1, s2),
                        line.subrange(s2 + 1, line.len() as int),
                    ),
                )
            },
        },
    }
}

/// One header line split at its first colon: the key is everything before
/// the colon, the value everything after it, less exactly one space when
/// one directly follows the colon. `None` when there is no colon or a side
/// is not UTF-8.
pub open spec fn spec_header_line(line: Seq<u8>) -> Option<(Seq<u8>, Seq<u8>)> {
    match find_byte_from(line, 0, COLON_BYTE) {
        None => None,
        Some(c) => {
            let off: int = if c + 1 < line.len() && line[c + 1] == WHITESPACE_BYTE {
                1
            } else {
                0
            };
            let k = line.subrange(0, c);
            let v = line.subrange(c + 1 + off, line.len() as int);
            if is_utf8(k) && is_utf8(v) {
                Some((k, v))
            } else {
                None
            }
        },
    }
}

/// The header pairs of the block from `i` on, with room for `room` more
/// entries: the block is split into lines at each CRLF and each line at its
/// first colon. A line without a colon is `MalformedRequest`; a line past
/// the room left is `CapacityExceeded`.
pub open spec fn spec_headers_from(block: Seq<u8>, i: int, room: int) -> Result<
    Seq<(Seq<u8>, Seq<u8>)>,
    HttpError,
>
    decreases block.len() - i,
    via spec_headers_from_dec
{
    match find_crlf_from(block, i) {
        None => match spec_header_line(block.subrange(i, block.len() as int)) {
            None => Err(HttpError::MalformedRequest),
            Some(kv) => if room <= 0 {
                Err(HttpError::CapacityExceeded)
            } else {
                Ok(seq![kv])
            },
        },
        Some(j) => match spec_header_line(block.subrange(i, j)) {
            None => Err(HttpError::MalformedRequest),
            Some(kv) => if room <= 0 {
                Err(HttpError::CapacityExceeded)
            } else {
                match spec_headers_from(block, j + 2, room - 1) {
                    Err(e) => Err(e),
                    Ok(rest) => Ok(seq![kv] + rest),
                }
            },
        },
    }
}

#[via_fn]
proof fn spec_headers_from_dec(block: Seq<u8>, i: int, room: int) {
    if 0 <= i {
        lemma_find_crlf_props(block, i);
    }
}

/// The header pairs of a whole header block; an empty block holds none.
pub open spec fn spec_headers(block: Seq<u8>) -> Result<Seq<(Seq<u8>, Seq<u8>)>, HttpError> {
    if block.len() == 0 {
        Ok(Seq::<(Seq<u8>, Seq<u8>)>::empty())
    } else {
        spec_headers_from(block, 0, MAX_NUM_HEADERS as int)
    }
}

/// The header block of a request: the span between the end of the request
/// line's CRLF and the first CRLF-CRLF, empty when the blank line follows
/// the request line directly. `None` when either terminator is missing.
pub open spec fn spec_header_block(bytes: Seq<u8>) -> Option<Seq<u8>> {
    match find_crlf_from(bytes, 0) {
        None => None,
        Some(rl) => match find_crlf2_from(bytes, rl) {
            None => None,
            Some(cc) => Some(
                if cc == rl {
                    Seq::<u8>::empty()
                } else {
                    bytes.subrange(rl + 2, cc)
                },
            ),
        },
    }
}

/// The body of a request: everything after the first CRLF-CRLF, verbatim.
/// `None` when a terminator is missing.
pub open spec fn spec_body(bytes: Seq<u8>) -> Option<Seq<u8>> {
    match find_crlf_from(bytes, 0) {
        None => None,
        Some(rl) => match find_crlf2_from(bytes, rl) {
            None => None,
            Some(cc) => Some(bytes.subrange(cc + 4, bytes.len() as int)),
        },
    }
}

/// What parsing a raw request yields: the structured request, or the exact
/// error owed — `MalformedRequest` for a missing CRLF or CRLF-CRLF, a
/// request line without exactly three tokens, an unknown method or
/// version, invalid UTF-8 or a header line without a colon;
/// `CapacityExceeded` for more than `MAX_NUM_HEADERS` headers.
pub open spec fn spec_parse(bytes: Seq<u8>) -> Result<RequestView, HttpError> {
    match find_crlf_from(bytes, 0) {
        None => Err(HttpError::MalformedRequest),
        Some(rl) => match find_crlf2_from(bytes, rl) {
            None => Err(HttpError::MalformedRequest),
            Some(cc) => match spec_line_tokens(bytes.subrange(0, rl)) {
                None => Err(HttpError::MalformedRequest),
                Some(toks) => match spec_method_of(toks.0) {
                    None => Err(HttpError::MalformedRequest),
                    Some(m) => if toks.2 != version_token(HttpVersion::OnePointOne) {
                        Err(HttpError::MalformedRequest)
                    } else if !is_utf8(toks.1) {
                        Err(HttpError::MalformedRequest)
                    } else {
                        let hb = if cc == rl {
                            Seq::<u8>::empty()
                        } else {
                            bytes.subrange(rl + 2, cc)
                        };
                        match spec_headers(hb) {
                            Err(e) => Err(e),
                            Ok(hs) => {
                                let body = bytes.subrange(cc + 4, bytes.len() as int);
                                if !is_utf8(body) {
                                    Err(HttpError::MalformedRequest)
                                } else {
                                    Ok(
                                        RequestView {
                                            method: m,
                                            uri: toks.1,
                                            version: HttpVersion::OnePointOne,
                                            headers: hs,
                                            body: body,
                                        },
                                    )
                                }
                            },
                        }
                    },
                },
            },
        },
    }
}

/// A parsed HTTP request: method, URI, version, headers and body, each
/// owned by the request itself.
#[derive(Debug)]
pub struct HttpRequest {
    method: HttpMethod,
    uri: Uri,
    version: HttpVersion,
    headers: Headers,
    body: Vec<u8>,
}

impl View for HttpRequest {
    type V = RequestView;

    closed spec fn view(&self) -> RequestView {
        RequestView {
            method: self.method,
            uri: self.uri@,
            version: self.version,
            headers: self.headers@,
            body: self.body@,
        }
    }
}

impl HttpRequest {
    /// Parses a raw request. Every malformed or oversized input is
    /// rejected with the error `spec_parse` owes it; nothing panics.
    pub fn from_bytes(bytes: &[u8]) -> (r: Result<HttpRequest, HttpError>)
        ensures
            match r {
                Ok(req) => spec_parse(bytes@) is Ok && req@ == spec_parse(bytes@)->Ok_0,
                Err(e) => spec_parse(bytes@) == Err::<RequestView, HttpError>(e),
            },
    {
        let rl = match find_crlf(bytes, 0) {
            Some(i) => i,
            None => {
                return Err(HttpError::MalformedRequest);
            },
        };
        let cc = match find_crlf2(bytes, rl) {
            Some(i) => i,
            None => {
                return Err(HttpError::MalformedRequest);
            },
        };
        let line = copy_range(bytes, 0, rl);
        let s1 = match find_byte(line.as_slice(), 0, WHITESPACE_BYTE) {
            Some(i) => i,
            None => {
                return Err(HttpError::MalformedRequest);
            },
        };
        let s2 = match find_byte(line.as_slice(), s1 + 1, WHITESPACE_BYTE) {
            Some(i) => i,
            None => {
                return Err(HttpError::MalformedRequest);
            },
        };
        match find_byte(line.as_slice(), s2 + 1, WHITESPACE_BYTE) {
            Some(_) => {
                return Err(HttpError::MalformedRequest);
            },
            None => {},
        };
        let mtok = copy_range(line.as_slice(), 0, s1);
        let method = match HttpMethod::from_bytes(mtok.as_slice()) {
            Some(m) => m,
            None => {
                return Err(HttpError::MalformedRequest);
            },
        };
        let vtok = copy_range(line.as_slice(), s2 + 1, line.len());
        let version = match HttpVersion::from_bytes(vtok.as_slice()) {
            Some(v) => v,
            None => {
                return Err(HttpError::MalformedRequest);
            },
        };
        let utok = copy_range(line.as_slice(), s1 + 1, s2);
        if !check_utf8(utok.as_slice()) {
            return Err(HttpError::MalformedRequest);
        }
        let header_block: Vec<u8> = if cc == rl {
            Vec::new()
        } else {
            proof {
                lemma_find_crlf_props(bytes@, 0);
                lemma_find_crlf2_props(bytes@, rl as int);
            }
            copy_range(bytes, rl + 2, cc)
        };
        let headers = match Self::extract_headers(header_block.as_slice()) {
            Ok(h) => h,
            Err(e) => {
                return Err(e);
            },
        };
        let n = bytes.len();
        let body = copy_range(bytes, cc + 4, n);
        if !check_utf8(body.as_slice()) {
            return Err(HttpError::MalformedRequest);
        }
        let req = HttpRequest { method, uri: Uri(utok), version, headers, body };
        proof {
            assert(req@ =~= spec_parse(bytes@)->Ok_0);
        }
        Ok(req)
    }

    /// The request URI.
    pub fn uri(&self) -> (r: &Uri)
        ensures
            r@ == self@.uri,
    {
        &self.uri
    }

    /// The request method.
    pub fn method(&self) -> (r: HttpMethod)
        ensures
            r == self@.method,
    {
        self.method
    }

    /// The protocol version.
    pub fn version(&self) -> (r: HttpVersion)
        ensures
            r == self@.version,
    {
        self.version
    }

    /// The header store.
    pub fn headers(&self) -> (r: &Headers)
        ensures
            r@ == self@.headers,
    {
        &self.headers
    }

    /// The body bytes.
    pub fn body(&self) -> (r: &Vec<u8>)
        ensures
            r@ == self@.body,
    {
        &self.body
    }

    /// The request line: everything before the first CRLF.
    pub fn get_request_line(bytes: &[u8]) -> (r: Result<Vec<u8>, HttpError>)
        ensures
            match find_crlf_from(bytes@, 0) {
                Some(rl) => r is Ok && r->Ok_0@ == bytes@.subrange(0, rl),
                None => r == Err::<Vec<u8>, HttpError>(HttpError::MalformedRequest),
            },
    {
        match find_crlf(bytes, 0) {
            Some(rl) => Ok(copy_range(bytes, 0, rl)),
            None => Err(HttpError::MalformedRequest),
        }
    }

    /// The header block: the span between the request line's CRLF and the
    /// first CRLF-CRLF, possibly empty.
    pub fn get_headers(bytes: &[u8]) -> (r: Result<Vec<u8>, HttpError>)
        ensures
            match spec_header_block(bytes@) {
                Some(hb) => r is Ok && r->Ok_0@ == hb,
                None => r == Err::<Vec<u8>, HttpError>(HttpError::MalformedRequest),
            },
    {
        let rl = match find_crlf(bytes, 0) {
            Some(i) => i,
            None => {
                return Err(HttpError::MalformedRequest);
            },
        };
        let cc = match find_crlf2(bytes, rl) {
            Some(i) => i,
            None => {
                return Err(HttpError::MalformedRequest);
            },
        };
        if cc == rl {
            let empty: Vec<u8> = Vec::new();
            proof {
                assert(empty@ =~= Seq::<u8>::empty());
            }
            Ok(empty)
        } else {
            proof {
                lemma_find_crlf_props(bytes@, 0);
                lemma_find_crlf2_props(bytes@, rl as int);
            }
            Ok(copy_range(bytes, rl + 2, cc))
        }
    }

    /// The body: everything after the first CRLF-CRLF, validated as UTF-8
    /// text.
    pub fn get_body(bytes: &[u8]) -> (r: Result<Vec<u8>, HttpError>)
        ensures
            match spec_body(bytes@) {
                Some(b) => if is_utf8(b) {
                    r is Ok && r->Ok_0@ == b
                } else {
                    r == Err::<Vec<u8>, HttpError>(HttpError::MalformedRequest)
                },
                None => r == Err::<Vec<u8>, HttpError>(HttpError::MalformedRequest),
            },
    {
        let rl = match find_crlf(bytes, 0) {
            Some(i) => i,
            None => {
                return Err(HttpError::MalformedRequest);
            },
        };
        let cc = match find_crlf2(bytes, rl) {
            Some(i) => i,
            None => {
                return Err(HttpError::MalformedRequest);
            },
        };
        let n = bytes.len();
        let body = copy_range(bytes, cc + 4, n);
        if check_utf8(body.as_slice()) {
            Ok(body)
        } else {
            Err(HttpError::MalformedRequest)
        }
    }

    /// The method named by the request line's first token.
    pub fn extract_http_method(line: &[u8]) -> (r: Result<HttpMethod, HttpError>)
        ensures
            ({
                let t0 = match find_byte_from(line@, 0, WHITESPACE_BYTE) {
                    Some(s1) => line@.subrange(0, s1),
                    None => line@,
                };
                match spec_method_of(t0) {
                    Some(m) => r == Ok::<HttpMethod, HttpError>(m),
                    None => r == Err::<HttpMethod, HttpError>(HttpError::MalformedRequest),
                }
            }),
    {
        let tok = match find_byte(line, 0, WHITESPACE_BYTE) {
            Some(s1) => copy_range(line, 0, s1),
            None => {
                let whole = copy_range(line, 0, line.len());
                proof {
                    assert(whole@ =~= line@);
                }
                whole
            },
        };
        match HttpMethod::from_bytes(tok.as_slice()) {
            Some(m) => Ok(m),
            None => Err(HttpError::MalformedRequest),
        }
    }

    /// The URI given by the request line's second token, validated as
    /// UTF-8.
    pub fn extract_request_uri(line: &[u8]) -> (r: Result<Uri, HttpError>)
        ensures
            ({
                match find_byte_from(line@, 0, WHITESPACE_BYTE) {
                    None => r == Err::<Uri, HttpError>(HttpError::MalformedRequest),
                    Some(s1) => {
                        let t1 = match find_byte_from(line@, s1 + 1, WHITESPACE_BYTE) {
                            Some(s2) => line@.subrange(s1 + 1, s2),
                            None => line@.subrange(s1 + 1, line@.len() as int),
                        };
                        if is_utf8(t1) {
                            r is Ok && r->Ok_0@ == t1
                        } else {
                            r == Err::<Uri, HttpError>(HttpError::MalformedRequest)
                        }
                    },
                }
            }),
    {
        let n = line.len();
        let s1 = match find_byte(line, 0, WHITESPACE_BYTE) {
            Some(i) => i,
            None => {
                return Err(HttpError::MalformedRequest);
            },
        };
        let tok = match find_byte(line, s1 + 1, WHITESPACE_BYTE) {
            Some(s2) => copy_range(line, s1 + 1, s2),
            None => copy_range(line, s1 + 1, n),
        };
        if check_utf8(tok.as_slice()) {
            Ok(Uri(tok))
        } else {
            Err(HttpError::MalformedRequest)
        }
    }

    /// The version named by the request line's third token.
    pub fn extract_http_version(line: &[u8]) -> (r: Result<HttpVersion, HttpError>)
        ensures
            ({
                match find_byte_from(line@, 0, WHITESPACE_BYTE) {
                    None => r == Err::<HttpVersion, HttpError>(HttpError::MalformedRequest),
                    Some(s1) => match find_byte_from(line@, s1 + 1, WHITESPACE_BYTE) {
                        None => r == Err::<HttpVersion, HttpError>(HttpError::MalformedRequest),
                        Some(s2) => {
                            let t2 = match find_byte_from(line@, s2 + 1, WHITESPACE_BYTE) {
                                Some(s3) => line@.subrange(s2 + 1, s3),
                                None => line@.subrange(s2 + 1, line@.len() as int),
                            };
                            if t2 == version_token(HttpVersion::OnePointOne) {
                                r == Ok::<HttpVersion, HttpError>(HttpVersion::OnePointOne)
                            } else {
                                r == Err::<HttpVersion, HttpError>(HttpError::MalformedRequest)
                            }
                        },
                    },
                }
            }),
    {
        let n = line.len();
        let s1 = match find_byte(line, 0, WHITESPACE_BYTE) {
            Some(i) => i,
            None => {
                return Err(HttpError::MalformedRequest);
            },
        };
        let s2 = match find_byte(line, s1 + 1, WHITESPACE_BYTE) {
            Some(i) => i,
            None => {
                return Err(HttpError::MalformedRequest);
            },
        };
        let tok = match find_byte(line, s2 + 1, WHITESPACE_BYTE) {
            Some(s3) => copy_range(line, s2 + 1, s3),
            None => copy_range(line, s2 + 1, n),
        };
        match HttpVersion::from_bytes(tok.as_slice()) {
            Some(v) => Ok(v),
            None => Err(HttpError::MalformedRequest),
        }
    }

    /// One header line's key and value.
    pub fn get_header_key_and_value(line: &[u8]) -> (r: Result<(Vec<u8>, Vec<u8>), HttpError>)
        ensures
            match spec_header_line(line@) {
                Some(kv) => r is Ok && r->Ok_0.0@ == kv.0 && r->Ok_0.1@ == kv.1,
                None => r == Err::<(Vec<u8>, Vec<u8>), HttpError>(HttpError::MalformedRequest),
            },
    {
        let n = line.len();
        let c = match find_byte(line, 0, COLON_BYTE) {
            Some(i) => i,
            None => {
                return Err(HttpError::MalformedRequest);
            },
        };
        let off: usize = if c + 1 < n && line[c + 1] == WHITESPACE_BYTE {
            1
        } else {
            0
        };
        let key = copy_range(line, 0, c);
        let value = copy_range(line, c + 1 + off, n);
        if check_utf8(key.as_slice()) && check_utf8(value.as_slice()) {
            Ok((key, value))
        } else {
            Err(HttpError::MalformedRequest)
        }
    }

    /// Splits a header block into lines at each CRLF and stores each
    /// line's key and value, in wire order.
    pub fn extract_headers(block: &[u8]) -> (r: Result<Headers, HttpError>)
        ensures
            match spec_headers(block@) {
                Ok(hs) => r is Ok && r->Ok_0@ == hs,
                Err(e) => r == Err::<Headers, HttpError>(e),
            },
    {
        let mut headers = Headers::new();
        let n = block.len();
        if n == 0 {
            return Ok(headers);
        }
        let mut i: usize = 0;
        loop
            invariant
                n == block@.len(),
                i <= block@.len(),
                headers@.len() <= MAX_NUM_HEADERS,
                block@.len() > 0,
                spec_headers(block@) == match spec_headers_from(
                    block@,
                    i as int,
                    MAX_NUM_HEADERS - headers@.len(),
                ) {
                    Ok(rest) => Ok::<Seq<(Seq<u8>, Seq<u8>)>, HttpError>(headers@ + rest),
                    Err(e) => Err::<Seq<(Seq<u8>, Seq<u8>)>, HttpError>(e),
                },
            decreases block@.len() - i,
        {
            let ghost room = MAX_NUM_HEADERS - headers@.len();
            let ghost prev = headers@;
            match find_crlf(block, i) {
                Some(j) => {
                    let line = copy_range(block, i, j);
                    let (key, value) = match Self::get_header_key_and_value(line.as_slice()) {
                        Ok(kv) => kv,
                        Err(e) => {
                            return Err(e);
                        },
                    };
                    let ghost kv = (key@, value@);
                    if headers.len() >= MAX_NUM_HEADERS {
                        return Err(HttpError::CapacityExceeded);
                    }
                    let _ = headers.add_key_value(key, value);
                    proof {
                        lemma_find_crlf_props(block@, i as int);
                        assert(spec_headers_from(block@, i as int, room) == match spec_headers_from(
                            block@,
                            j + 2,
                            room - 1,
                        ) {
                            Err(e) => Err::<Seq<(Seq<u8>, Seq<u8>)>, HttpError>(e),
                            Ok(rest) => Ok::<Seq<(Seq<u8>, Seq<u8>)>, HttpError>(seq![kv] + rest),
                        });
                        assert(forall|rest: Seq<(Seq<u8>, Seq<u8>)>|
                            prev + (seq![kv] + rest) =~= (prev.push(kv)) + rest);
                    }
                    i = j + 2;
                },
                None => {
                    let line = copy_range(block, i, block.len());
                    let (key, value) = match Self::get_header_key_and_value(line.as_slice()) {
                        Ok(kv) => kv,
                        Err(e) => {
                            return Err(e);
                        },
                    };
                    let ghost kv = (key@, value@);
                    if headers.len() >= MAX_NUM_HEADERS {
                        return Err(HttpError::CapacityExceeded);
                    }
                    let _ = headers.add_key_value(key, value);
                    proof {
                        assert(prev + seq![kv] =~= prev.push(kv));
                    }
                    return Ok(headers);
                },
            }
        }
    }
}

/// The two-cursor pattern match, on the pattern from `pp` and the
/// (query-stripped) path from `up`. Literal pattern text must equal the
/// path byte for byte; a `{name}` placeholder captures greedily up to the
/// first occurrence of the literal byte that follows its `}` in the
/// pattern, or to the end of the path when the placeholder ends the
/// pattern. `None` discards all partial captures. A `{` with no closing
/// `}` makes the rest of the pattern literal.
pub open spec fn do_match_at(pat: Seq<u8>, path: Seq<u8>, pp: int, up: int) -> Option<
    Seq<(Seq<u8>, Seq<u8>)>,
>
    decreases pat.len() - pp,
    via do_match_at_dec
{
    match find_byte_from(pat, pp, LBRACE_BYTE) {
        None => if pat.len() - pp == path.len() - up && pat.subrange(pp, pat.len() as int)
            == path.subrange(up, path.len() as int) {
            Some(Seq::<(Seq<u8>, Seq<u8>)>::empty())
        } else {
            None
        },
        Some(b) => if path.len() - up < b - pp || path.subrange(up, up + (b - pp))
            != pat.subrange(pp, b) {
            None
        } else {
            match find_byte_from(pat, b + 1, RBRACE_BYTE) {
                None => if pat.len() - pp == path.len() - up && pat.subrange(pp, pat.len() as int)
                    == path.subrange(up, path.len() as int) {
                    Some(Seq::<(Seq<u8>, Seq<u8>)>::empty())
                } else {
                    None
                },
                Some(e) => {
                    let name = pat.subrange(b + 1, e);
                    let u1 = up + (b - pp);
                    if e + 1 == pat.len() {
                        Some(seq![(name, path.subrange(u1, path.len() as int))])
                    } else {
                        let d = pat[e + 1];
                        let v_end = match find_byte_from(path, u1, d) {
                            Some(vi) => vi,
                            None => path.len() as int,
                        };
                        match do_match_at(pat, path, e + 1, v_end) {
                            None => None,
                            Some(rest) => Some(
                                seq![(name, path.subrange(u1, v_end))] + rest,
                            ),
                        }
                    }
                },
            }
        },
    }
}

#[via_fn]
proof fn do_match_at_dec(pat: Seq<u8>, path: Seq<u8>, pp: int, up: int) {
    if 0 <= pp {
        lemma_find_byte_props(pat, pp, LBRACE_BYTE);
        match find_byte_from(pat, pp, LBRACE_BYTE) {
            Some(b) => {
                lemma_find_byte_props(pat, b + 1, RBRACE_BYTE);
            },
            None => {},
        }
    }
}

/// One query fragment split at its first `=`: a key with a value, or a
/// bare key with the value absent.
pub open spec fn spec_query_entry(frag: Seq<u8>) -> (Seq<u8>, Option<Seq<u8>>) {
    match find_byte_from(frag, 0, EQUALS_BYTE) {
        None => (frag, None::<Seq<u8>>),
        Some(eq) => (frag.subrange(0, eq), Some(frag.subrange(eq + 1, frag.len() as int))),
    }
}

/// The query entries of `q` from `i` on: fragments split at each `&`, one
/// entry per fragment, duplicates and empty fragments all kept.
pub open spec fn spec_query_from(q: Seq<u8>, i: int) -> Seq<(Seq<u8>, Option<Seq<u8>>)>
    decreases q.len() - i,
    via spec_query_from_dec
{
    match find_byte_from(q, i, AMP_BYTE) {
        None => seq![spec_query_entry(q.subrange(i, q.len() as int))],
        Some(a) => seq![spec_query_entry(q.subrange(i, a))] + spec_query_from(q, a + 1),
    }
}

#[via_fn]
proof fn spec_query_from_dec(q: Seq<u8>, i: int) {
    if 0 <= i {
        lemma_find_byte_props(q, i, AMP_BYTE);
    }
}

/// The path part of a URI: everything before the first `?`, or the whole
/// URI when it has none.
pub open spec fn spec_path_of(uri: Seq<u8>) -> Seq<u8> {
    match find_byte_from(uri, 0, QMARK_BYTE) {
        None => uri,
        Some(qi) => uri.subrange(0, qi),
    }
}

/// The query entries of a URI: the split of everything after the first
/// `?`, or nothing when the URI has no `?`.
pub open spec fn spec_query_of(uri: Seq<u8>) -> Seq<(Seq<u8>, Option<Seq<u8>>)> {
    match find_byte_from(uri, 0, QMARK_BYTE) {
        None => Seq::<(Seq<u8>, Option<Seq<u8>>)>::empty(),
        Some(qi) => spec_query_from(uri.subrange(qi + 1, uri.len() as int), 0),
    }
}

/// The path captures a URI yields against a pattern: the match of the
/// query-stripped path, from the start of both.
pub open spec fn spec_is_match(uri: Seq<u8>, pattern: Seq<u8>) -> Option<Seq<(Seq<u8>, Seq<u8>)>> {
    do_match_at(pattern, spec_path_of(uri), 0, 0)
}

/// A path capture as a segment entry: the value is always present.
pub open spec fn capture_entry(c: (Seq<u8>, Seq<u8>)) -> (Seq<u8>, Option<Seq<u8>>) {
    (c.0, Some(c.1))
}

/// A capture list as segment entries, in order.
pub open spec fn captures_as_entries(caps: Seq<(Seq<u8>, Seq<u8>)>) -> Seq<
    (Seq<u8>, Option<Seq<u8>>),
> {
    caps.map_values(|c: (Seq<u8>, Seq<u8>)| capture_entry(c))
}

/// The capture keys, in order.
pub open spec fn capture_names(caps: Seq<(Seq<u8>, Seq<u8>)>) -> Seq<Seq<u8>> {
    caps.map_values(|c: (Seq<u8>, Seq<u8>)| c.0)
}

/// The capture values, in order.
pub open spec fn capture_values(caps: Seq<(Seq<u8>, Seq<u8>)>) -> Seq<Seq<u8>> {
    caps.map_values(|c: (Seq<u8>, Seq<u8>)| c.1)
}

/// The placeholder names of the pattern from `pp` on, in order of
/// appearance.
pub open spec fn placeholder_names_at(pat: Seq<u8>, pp: int) -> Seq<Seq<u8>>
    decreases pat.len() - pp,
    via placeholder_names_at_dec
{
    match find_byte_from(pat, pp, LBRACE_BYTE) {
        None => Seq::<Seq<u8>>::empty(),
        Some(b) => match find_byte_from(pat, b + 1, RBRACE_BYTE) {
            None => Seq::<Seq<u8>>::empty(),
            Some(e) => if e + 1 == pat.len() {
                seq![pat.subrange(b + 1, e)]
            } else {
                seq![pat.subrange(b + 1, e)] + placeholder_names_at(pat, e + 1)
            },
        },
    }
}

#[via_fn]
proof fn placeholder_names_at_dec(pat: Seq<u8>, pp: int) {
    if 0 <= pp {
        lemma_find_byte_props(pat, pp, LBRACE_BYTE);
        match find_byte_from(pat, pp, LBRACE_BYTE) {
            Some(b) => {
                lemma_find_byte_props(pat, b + 1, RBRACE_BYTE);
            },
            None => {},
        }
    }
}

/// The concrete path text that the pattern from `pp` on describes when
/// each placeholder is replaced by the corresponding value: the pattern's
/// literal characters, kept exactly, with the values spliced in.
pub open spec fn reassemble_at(pat: Seq<u8>, pp: int, vals: Seq<Seq<u8>>) -> Seq<u8>
    decreases pat.len() - pp,
    via reassemble_at_dec
{
    match find_byte_from(pat, pp, LBRACE_BYTE) {
        None => pat.subrange(pp, pat.len() as int),
        Some(b) => match find_byte_from(pat, b + 1, RBRACE_BYTE) {
            None => pat.subrange(pp, pat.len() as int),
            Some(e) => if vals.len() == 0 {
                pat.subrange(pp, pat.len() as int)
            } else if e + 1 == pat.len() {
                pat.subrange(pp, b) + vals[0]
            } else {
                pat.subrange(pp, b) + vals[0] + reassemble_at(pat, e + 1, vals.skip(1))
            },
        },
    }
}

#[via_fn]
proof fn reassemble_at_dec(pat: Seq<u8>, pp: int, vals: Seq<Seq<u8>>) {
    if 0 <= pp {
        lemma_find_byte_props(pat, pp, LBRACE_BYTE);
        match find_byte_from(pat, pp, LBRACE_BYTE) {
            Some(b) => {
                lemma_find_byte_props(pat, b + 1, RBRACE_BYTE);
            },
            None => {},
        }
    }
}

/// One value per placeholder of the pattern from `pp` on, each compatible
/// with greedy capture: the value of a placeholder that a literal follows
/// never contains the delimiter byte that ends its capture, and two
/// placeholders never stand back to back.
pub open spec fn values_admissible_at(pat: Seq<u8>, pp: int, vals: Seq<Seq<u8>>) -> bool
    decreases pat.len() - pp,
    via values_admissible_at_dec
{
    match find_byte_from(pat, pp, LBRACE_BYTE) {
        None => vals.len() == 0,
        Some(b) => match find_byte_from(pat, b + 1, RBRACE_BYTE) {
            None => vals.len() == 0,
            Some(e) => if e + 1 == pat.len() {
                vals.len() == 1
            } else {
                &&& vals.len() >= 1
                &&& pat[e + 1] != LBRACE_BYTE
                &&& !vals[0].contains(pat[e + 1])
                &&& values_admissible_at(pat, e + 1, vals.skip(1))
            },
        },
    }
}

#[via_fn]
proof fn values_admissible_at_dec(pat: Seq<u8>, pp: int, vals: Seq<Seq<u8>>) {
    if 0 <= pp {
        lemma_find_byte_props(pat, pp, LBRACE_BYTE);
        match find_byte_from(pat, pp, LBRACE_BYTE) {
            Some(b) => {
                lemma_find_byte_props(pat, b + 1, RBRACE_BYTE);
            },
            None => {},
        }
    }
}

/// A suffix of `s` equal to a three-part concatenation splits into the
/// matching subranges of `s`.
pub proof fn lemma_suffix_concat3(s: Seq<u8>, up: int, a: Seq<u8>, b: Seq<u8>, c: Seq<u8>)
    requires
        0 <= up <= s.len(),
        s.subrange(up, s.len() as int) == a + b + c,
    ensures
        s.len() - up == a.len() + b.len() + c.len(),
        s.subrange(up, up + a.len()) == a,
        s.subrange(up + a.len(), up + a.len() + b.len()) == b,
        s.subrange(up + a.len() + b.len(), s.len() as int) == c,
{
    let t = s.subrange(up, s.len() as int);
    assert(t.len() == s.len() - up);
    assert forall|i: int| 0 <= i < a.len() implies s.subrange(up, up + a.len())[i] == a[i] by {
        assert(t[i] == s[up + i]);
        assert((a + b + c)[i] == a[i]);
    }
    assert(s.subrange(up, up + a.len()) =~= a);
    assert forall|i: int| 0 <= i < b.len() implies s.subrange(
        up + a.len(),
        up + a.len() + b.len(),
    )[i] == b[i] by {
        assert(t[a.len() + i] == s[up + a.len() + i]);
        assert((a + b + c)[a.len() + i] == b[i]);
    }
    assert(s.subrange(up + a.len(), up + a.len() + b.len()) =~= b);
    assert forall|i: int| 0 <= i < c.len() implies s.subrange(
        up + a.len() + b.len(),
        s.len() as int,
    )[i] == c[i] by {
        assert(t[a.len() + b.len() + i] == s[up + a.len() + b.len() + i]);
        assert((a + b + c)[a.len() + b.len() + i] == c[i]);
    }
    assert(s.subrange(up + a.len() + b.len(), s.len() as int) =~= c);
}

/// Names and values paired positionally into captures.
pub open spec fn zip_captures(names: Seq<Seq<u8>>, vals: Seq<Seq<u8>>) -> Seq<(Seq<u8>, Seq<u8>)> {
    Seq::new(names.len(), |i: int| (names[i], vals[i]))
}

/// An admissible value list holds exactly one value per placeholder.
pub proof fn lemma_admissible_lens(pat: Seq<u8>, pp: int, vals: Seq<Seq<u8>>)
    requires
        0 <= pp <= pat.len(),
        values_admissible_at(pat, pp, vals),
    ensures
        placeholder_names_at(pat, pp).len() == vals.len(),
    decreases pat.len() - pp,
{
    lemma_find_byte_props(pat, pp, LBRACE_BYTE);
    match find_byte_from(pat, pp, LBRACE_BYTE) {
        None => {},
        Some(b) => {
            lemma_find_byte_props(pat, b + 1, RBRACE_BYTE);
            match find_byte_from(pat, b + 1, RBRACE_BYTE) {
                None => {},
                Some(e) => {
                    if e + 1 < pat.len() {
                        lemma_admissible_lens(pat, e + 1, vals.skip(1));
                    }
                },
            }
        },
    }
}

/// Soundness of the matcher: a successful match of the pattern from `pp`
/// against the path from `up` yields exactly one capture per placeholder,
/// keyed by the placeholder names in pattern order, and the matched path
/// text is exactly the pattern's literal text with each captured value
/// substituted for its placeholder. So a path whose literal characters
/// differ anywhere from the pattern's cannot match.
pub proof fn lemma_match_sound(pat: Seq<u8>, path: Seq<u8>, pp: int, up: int)
    requires
        0 <= pp <= pat.len(),
        0 <= up <= path.len(),
        do_match_at(pat, path, pp, up) is Some,
    ensures
        ({
            let caps = do_match_at(pat, path, pp, up)->0;
            &&& capture_names(caps) == placeholder_names_at(pat, pp)
            &&& caps.len() == placeholder_names_at(pat, pp).len()
            &&& path.subrange(up, path.len() as int) == reassemble_at(pat, pp, capture_values(caps))
        }),
    decreases pat.len() - pp,
{
    let caps = do_match_at(pat, path, pp, up)->0;
    lemma_find_byte_props(pat, pp, LBRACE_BYTE);
    match find_byte_from(pat, pp, LBRACE_BYTE) {
        None => {
            assert(capture_names(caps) =~= placeholder_names_at(pat, pp));
            assert(capture_values(caps) =~= Seq::<Seq<u8>>::empty());
        },
        Some(b) => {
            lemma_find_byte_props(pat, b + 1, RBRACE_BYTE);
            match find_byte_from(pat, b + 1, RBRACE_BYTE) {
                None => {
                    assert(capture_names(caps) =~= placeholder_names_at(pat, pp));
                    assert(capture_values(caps) =~= Seq::<Seq<u8>>::empty());
                },
                Some(e) => {
                    let name = pat.subrange(b + 1, e);
                    let u1 = up + (b - pp);
                    if e + 1 == pat.len() {
                        let value = path.subrange(u1, path.len() as int);
                        assert(caps == seq![(name, value)]);
                        assert(capture_names(caps) =~= placeholder_names_at(pat, pp));
                        assert(capture_values(caps) =~= seq![value]);
                        assert(path.subrange(up, path.len() as int) =~= pat.subrange(pp, b)
                            + value);
                    } else {
                        let d = pat[e + 1];
                        let v_end = match find_byte_from(path, u1, d) {
                            Some(vi) => vi,
                            None => path.len() as int,
                        };
                        lemma_find_byte_props(path, u1, d);
                        let rest = do_match_at(pat, path, e + 1, v_end)->0;
                        let value = path.subrange(u1, v_end);
                        assert(caps == seq![(name, value)] + rest);
                        lemma_match_sound(pat, path, e + 1, v_end);
                        assert(capture_names(caps) =~= seq![name] + capture_names(rest));
                        assert(capture_names(caps) =~= placeholder_names_at(pat, pp));
                        assert(capture_values(caps) =~= seq![value] + capture_values(rest));
                        assert(capture_values(caps).skip(1) =~= capture_values(rest));
                        assert(path.subrange(up, path.len() as int) =~= pat.subrange(pp, b)
                            + value + path.subrange(v_end, path.len() as int));
                        assert(reassemble_at(pat, pp, capture_values(caps)) == pat.subrange(pp, b)
                            + capture_values(caps)[0] + reassemble_at(
                            pat,
                            e + 1,
                            capture_values(caps).skip(1),
                        ));
                    }
                },
            }
        },
    }
}

/// Completeness of the matcher: a concrete path built from the pattern by
/// substituting an admissible value for each placeholder — so its literal
/// characters equal the pattern's exactly — matches, and the captures are
/// exactly those values under the placeholder names, in pattern order.
pub proof fn lemma_match_complete(
    pat: Seq<u8>,
    path: Seq<u8>,
    pp: int,
    up: int,
    vals: Seq<Seq<u8>>,
)
    requires
        0 <= pp <= pat.len(),
        0 <= up <= path.len(),
        path.subrange(up, path.len() as int) == reassemble_at(pat, pp, vals),
        values_admissible_at(pat, pp, vals),
    ensures
        do_match_at(pat, path, pp, up) == Some(zip_captures(placeholder_names_at(pat, pp), vals)),
    decreases pat.len() - pp,
{
    lemma_find_byte_props(pat, pp, LBRACE_BYTE);
    assert(path.subrange(up, path.len() as int).len() == path.len() - up);
    assert(pat.subrange(pp, pat.len() as int).len() == pat.len() - pp);
    match find_byte_from(pat, pp, LBRACE_BYTE) {
        None => {
            assert(pat.len() - pp == path.len() - up);
            assert(zip_captures(placeholder_names_at(pat, pp), vals) =~= Seq::<(
                Seq<u8>,
                Seq<u8>,
            )>::empty());
        },
        Some(b) => {
            lemma_find_byte_props(pat, b + 1, RBRACE_BYTE);
            match find_byte_from(pat, b + 1, RBRACE_BYTE) {
                None => {
                    assert(pat.len() - pp == path.len() - up);
                    assert forall|i: int| 0 <= i < b - pp implies path.subrange(
                        up,
                        up + (b - pp),
                    )[i] == pat.subrange(pp, b)[i] by {
                        assert(path.subrange(up, path.len() as int)[i] == path[up + i]);
                        assert(pat.subrange(pp, pat.len() as int)[i] == pat[pp + i]);
                    }
                    assert(path.subrange(up, up + (b - pp)) =~= pat.subrange(pp, b));
                    assert(zip_captures(placeholder_names_at(pat, pp), vals) =~= Seq::<(
                        Seq<u8>,
                        Seq<u8>,
                    )>::empty());
                },
                Some(e) => {
                    let name = pat.subrange(b + 1, e);
                    let lit = pat.subrange(pp, b);
                    assert(lit.len() == b - pp);
                    let u1 = up + (b - pp);
                    if e + 1 == pat.len() {
                        assert(vals.len() == 1);
                        assert(path.subrange(up, path.len() as int) == lit + vals[0]);
                        assert(lit + vals[0] =~= lit + vals[0] + Seq::<u8>::empty());
                        lemma_suffix_concat3(path, up, lit, vals[0], Seq::<u8>::empty());
                        assert(path.subrange(u1, path.len() as int) =~= path.subrange(
                            u1,
                            u1 + vals[0].len(),
                        ));
                        assert(zip_captures(placeholder_names_at(pat, pp), vals) =~= seq![
                            (name, vals[0]),
                        ]);
                    } else {
                        let d = pat[e + 1];
                        let rest_bytes = reassemble_at(pat, e + 1, vals.skip(1));
                        assert(path.subrange(up, path.len() as int) == lit + vals[0]
                            + rest_bytes);
                        lemma_suffix_concat3(path, up, lit, vals[0], rest_bytes);
                        // The continuation of the reassembled path starts with the
                        // literal delimiter byte that follows the placeholder.
                        lemma_find_byte_props(pat, e + 1, LBRACE_BYTE);
                        match find_byte_from(pat, e + 1, LBRACE_BYTE) {
                            None => {},
                            Some(b2) => {
                                lemma_find_byte_props(pat, b2 + 1, RBRACE_BYTE);
                                assert(b2 > e + 1);
                            },
                        }
                        assert(rest_bytes.len() > 0 && rest_bytes[0] == d);
                        let v_end = u1 + vals[0].len();
                        assert(path.subrange(u1, v_end) == vals[0]);
                        assert(path[v_end] == d) by {
                            assert(path.subrange(v_end, path.len() as int)[0] == path[v_end]);
                        }
                        assert forall|k: int| u1 <= k < v_end implies path[k] != d by {
                            assert(path.subrange(u1, v_end)[k - u1] == path[k]);
                            if path[k] == d {
                                assert(vals[0][k - u1] == d);
                                assert(vals[0].contains(d));
                            }
                        }
                        crate::scan::lemma_find_byte_is_some(path, u1, d, v_end);
                        assert(path.subrange(v_end, path.len() as int) == rest_bytes);
                        lemma_match_complete(pat, path, e + 1, v_end, vals.skip(1));
                        lemma_admissible_lens(pat, e + 1, vals.skip(1));
                        let names2 = placeholder_names_at(pat, e + 1);
                        assert forall|i: int| 0 <= i < 1 + names2.len() implies zip_captures(
                            placeholder_names_at(pat, pp),
                            vals,
                        )[i] == (seq![(name, vals[0])] + zip_captures(names2, vals.skip(1)))[i] by {
                            if i > 0 {
                                assert(zip_captures(names2, vals.skip(1))[i - 1] == (
                                    names2[i - 1],
                                    vals.skip(1)[i - 1],
                                ));
                                assert(vals.skip(1)[i - 1] == vals[i]);
                            }
                        }
                        assert(zip_captures(placeholder_names_at(pat, pp), vals) =~= seq![
                            (name, vals[0]),
                        ] + zip_captures(placeholder_names_at(pat, e + 1), vals.skip(1)));
                    }
                },
            }
        },
    }
}

/// The matcher invariant at whole-URI level: a successful match yields
/// exactly one capture per placeholder, keyed by the placeholder names in
/// pattern order, and the URI's query-stripped path is exactly the
/// pattern's literal text with the captured values spliced in — so a path
/// whose literal characters differ anywhere from the pattern's cannot
/// have matched.
pub proof fn lemma_is_match_captures(uri: Seq<u8>, pattern: Seq<u8>)
    requires
        spec_is_match(uri, pattern) is Some,
    ensures
        ({
            let caps = spec_is_match(uri, pattern)->0;
            &&& capture_names(caps) == placeholder_names_at(pattern, 0)
            &&& caps.len() == placeholder_names_at(pattern, 0).len()
            &&& spec_path_of(uri) == reassemble_at(pattern, 0, capture_values(caps))
        }),
{
    let path = spec_path_of(uri);
    lemma_match_sound(pattern, path, 0, 0);
    assert(path.subrange(0, path.len() as int) =~= path);
}

/// Byte-for-byte equality of `a[ai..aj]` and `b[bi..bj]`.
fn range_eq(a: &[u8], ai: usize, aj: usize, b: &[u8], bi: usize, bj: usize) -> (r: bool)
    requires
        ai <= aj <= a@.len(),
        bi <= bj <= b@.len(),
    ensures
        r <==> a@.subrange(ai as int, aj as int) == b@.subrange(bi as int, bj as int),
{
    if aj - ai != bj - bi {
        proof {
            assert(a@.subrange(ai as int, aj as int).len() != b@.subrange(
                bi as int,
                bj as int,
            ).len());
        }
        return false;
    }
    let w = aj - ai;
    let ghost sa = a@.subrange(ai as int, aj as int);
    let ghost sb = b@.subrange(bi as int, bj as int);
    let mut k: usize = 0;
    while k < w
        invariant
            k <= w,
            ai + w <= a@.len(),
            bi + w <= b@.len(),
            aj == ai + w,
            bj == bi + w,
            sa == a@.subrange(ai as int, aj as int),
            sb == b@.subrange(bi as int, bj as int),
            forall|t: int| 0 <= t < k ==> sa[t] == sb[t],
        decreases w - k,
    {
        if a[ai + k] != b[bi + k] {
            proof {
                assert(sa[k as int] != sb[k as int]);
            }
            return false;
        }
        k = k + 1;
    }
    proof {
        assert(sa =~= sb);
    }
    true
}

/// The mathematical view of a scratch list of owned captures.
pub open spec fn raw_caps_view(v: Seq<(Vec<u8>, Vec<u8>)>) -> Seq<(Seq<u8>, Seq<u8>)> {
    v.map_values(|c: (Vec<u8>, Vec<u8>)| (c.0@, c.1@))
}

/// Runs the two-cursor match, appending each capture to the scratch list
/// `caps`. On failure the caller discards the list wholesale, so partial
/// captures never leak.
fn match_rec(pat: &[u8], path: &[u8], pp: usize, up: usize, caps: &mut Vec<(Vec<u8>, Vec<u8>)>)
    -> (ok: bool)
    requires
        pp <= pat@.len(),
        up <= path@.len(),
    ensures
        match do_match_at(pat@, path@, pp as int, up as int) {
            Some(m) => ok && raw_caps_view(final(caps)@) == raw_caps_view(old(caps)@) + m,
            None => !ok,
        },
    decreases pat@.len() - pp,
{
    let pn = pat.len();
    match find_byte(pat, pp, LBRACE_BYTE) {
        None => {
            let r = range_eq(pat, pp, pn, path, up, path.len());
            proof {
                if r {
                    assert(raw_caps_view(caps@) + Seq::<(Seq<u8>, Seq<u8>)>::empty()
                        =~= raw_caps_view(caps@));
                    assert(pat@.subrange(pp as int, pn as int).len() == pn - pp);
                    assert(path@.subrange(up as int, path@.len() as int).len() == path@.len()
                        - up);
                    assert(do_match_at(pat@, path@, pp as int, up as int) == Some(
                        Seq::<(Seq<u8>, Seq<u8>)>::empty(),
                    ));
                } else {
                    assert(do_match_at(pat@, path@, pp as int, up as int) is None);
                }
            }
            r
        },
        Some(b) => {
            if path.len() - up < b - pp {
                return false;
            }
            let w = b - pp;
            if !range_eq(pat, pp, b, path, up, up + w) {
                return false;
            }
            match find_byte(pat, b + 1, RBRACE_BYTE) {
                None => {
                    let r = range_eq(pat, pp, pn, path, up, path.len());
                    proof {
                        if r {
                            assert(raw_caps_view(caps@) + Seq::<(Seq<u8>, Seq<u8>)>::empty()
                                =~= raw_caps_view(caps@));
                            assert(pat@.subrange(pp as int, pn as int).len() == pn - pp);
                            assert(path@.subrange(up as int, path@.len() as int).len()
                                == path@.len() - up);
                            assert(do_match_at(pat@, path@, pp as int, up as int) == Some(
                                Seq::<(Seq<u8>, Seq<u8>)>::empty(),
                            ));
                        } else {
                            assert(do_match_at(pat@, path@, pp as int, up as int) is None);
                        }
                    }
                    r
                },
                Some(e) => {
                    let name = copy_range(pat, b + 1, e);
                    let u1 = up + w;
                    if e + 1 == pn {
                        let value = copy_range(path, u1, path.len());
                        let ghost cap = (name@, value@);
                        caps.push((name, value));
                        proof {
                            assert(raw_caps_view(caps@) =~= raw_caps_view(old(caps)@) + seq![
                                cap,
                            ]);
                            assert(do_match_at(pat@, path@, pp as int, up as int) == Some(
                                seq![cap],
                            ));
                        }
                        true
                    } else {
                        let d = pat[e + 1];
                        let v_end = match find_byte(path, u1, d) {
                            Some(vi) => vi,
                            None => path.len(),
                        };
                        let value = copy_range(path, u1, v_end);
                        let ghost cap = (name@, value@);
                        caps.push((name, value));
                        let ghost mid = caps@;
                        proof {
                            assert(raw_caps_view(mid) =~= raw_caps_view(old(caps)@).push(cap));
                        }
                        let r = match_rec(pat, path, e + 1, v_end, caps);
                        proof {
                            match do_match_at(pat@, path@, e + 1, v_end as int) {
                                Some(rest) => {
                                    assert(raw_caps_view(mid) + rest =~= raw_caps_view(old(
                                        caps,
                                    )@) + (seq![cap] + rest));
                                },
                                None => {},
                            }
                        }
                        r
                    }
                },
            }
        },
    }
}

impl Uri {
    /// Matches this URI against a parameterized pattern. A full match
    /// yields the path captures in pattern order and the query parameters
    /// parsed from the suffix after the first `?`; any mismatch yields
    /// `Ok(None)` with every partial capture discarded. A match or query
    /// with more than `MAX_NUM_PARAMS` entries on either side is
    /// `CapacityExceeded`.
    pub fn is_match(&self, cmp_uri: &[u8]) -> (r: Result<Option<Params>, HttpError>)
        ensures
            match spec_is_match(self@, cmp_uri@) {
                None => r == Ok::<Option<Params>, HttpError>(None),
                Some(caps) => {
                    if caps.len() > MAX_NUM_PARAMS {
                        r == Err::<Option<Params>, HttpError>(HttpError::CapacityExceeded)
                    } else if spec_query_of(self@).len() > MAX_NUM_PARAMS {
                        r == Err::<Option<Params>, HttpError>(HttpError::CapacityExceeded)
                    } else {
                        &&& r matches Ok(Some(p))
                        &&& p.spec_path() == captures_as_entries(caps)
                        &&& p.spec_query() == spec_query_of(self@)
                        &&& p.spec_path_cursor() == 0
                        &&& p.spec_query_cursor() == 0
                    }
                },
            },
    {
        let n = self.0.len();
        let qopt = find_byte(self.0.as_slice(), 0, QMARK_BYTE);
        let path_end = match qopt {
            Some(qi) => qi,
            None => n,
        };
        let path = copy_range(self.0.as_slice(), 0, path_end);
        proof {
            assert(self@.subrange(0, n as int) =~= self@);
        }
        let mut caps: Vec<(Vec<u8>, Vec<u8>)> = Vec::new();
        let ok = match_rec(cmp_uri, path.as_slice(), 0, 0, &mut caps);
        if !ok {
            return Ok(None);
        }
        let ghost caps_spec = spec_is_match(self@, cmp_uri@)->0;
        proof {
            assert(raw_caps_view(Seq::<(Vec<u8>, Vec<u8>)>::empty()) + caps_spec =~= caps_spec);
            assert(raw_caps_view(caps@) == caps_spec);
        }
        if caps.len() > MAX_NUM_PARAMS {
            return Err(HttpError::CapacityExceeded);
        }
        let mut seg = Segment::new();
        let mut i: usize = 0;
        while i < caps.len()
            invariant
                caps@.len() <= MAX_NUM_PARAMS,
                i <= caps@.len(),
                raw_caps_view(caps@) == caps_spec,
                seg@.len() == i,
                seg.spec_cursor() == 0,
                !seg.has_pending_key(),
                forall|k: int| 0 <= k < i ==> seg@[k] == captures_as_entries(caps_spec)[k],
            decreases caps@.len() - i,
        {
            let key = caps[i].0.clone();
            let value = caps[i].1.clone();
            let _ = seg.insert_key_value(key, Some(value));
            i = i + 1;
        }
        proof {
            assert(seg@ =~= captures_as_entries(caps_spec));
        }
        let query_fragment = match qopt {
            Some(qi) => {
                let qpart = copy_range(self.0.as_slice(), qi + 1, n);
                match Uri::parse_segment(qpart.as_slice()) {
                    Ok(q) => q,
                    Err(e) => {
                        return Err(e);
                    },
                }
            },
            None => Segment::new(),
        };
        Ok(Some(Params { path_segment: seg, query_fragment }))
    }

    /// Parses the query portion of a URI — everything after its `?` —
    /// into one entry per `&`-separated fragment, or fails with
    /// `CapacityExceeded` when there are more than `MAX_NUM_PARAMS` of
    /// them.
    pub fn parse_segment(segment_part: &[u8]) -> (r: Result<Segment, HttpError>)
        ensures
            spec_query_from(segment_part@, 0).len() <= MAX_NUM_PARAMS ==> {
                &&& r matches Ok(seg)
                &&& seg@ == spec_query_from(segment_part@, 0)
                &&& seg.spec_cursor() == 0
                &&& !seg.has_pending_key()
            },
            spec_query_from(segment_part@, 0).len() > MAX_NUM_PARAMS ==> r == Err::<
                Segment,
                HttpError,
            >(HttpError::CapacityExceeded),
    {
        let mut seg = Segment::new();
        let n = segment_part.len();
        let mut i: usize = 0;
        loop
            invariant
                n == segment_part@.len(),
                i <= n,
                seg.spec_cursor() == 0,
                !seg.has_pending_key(),
                seg@.len() <= MAX_NUM_PARAMS,
                spec_query_from(segment_part@, 0) == seg@ + spec_query_from(
                    segment_part@,
                    i as int,
                ),
            decreases n - i,
        {
            let ghost prev = seg@;
            let ghost remaining = spec_query_from(segment_part@, i as int);
            proof {
                assert(remaining.len() >= 1);
            }
            match find_byte(segment_part, i, AMP_BYTE) {
                Some(a) => {
                    let frag = copy_range(segment_part, i, a);
                    match push_query_entry(frag.as_slice(), &mut seg) {
                        Ok(()) => {},
                        Err(e) => {
                            proof {
                                assert(spec_query_from(segment_part@, a + 1).len() >= 1);
                                assert(spec_query_from(segment_part@, 0).len() > MAX_NUM_PARAMS);
                            }
                            return Err(e);
                        },
                    }
                    proof {
                        assert(prev + (seq![spec_query_entry(frag@)] + spec_query_from(
                            segment_part@,
                            a + 1,
                        )) =~= seg@ + spec_query_from(segment_part@, a + 1));
                    }
                    i = a + 1;
                },
                None => {
                    let frag = copy_range(segment_part, i, n);
                    match push_query_entry(frag.as_slice(), &mut seg) {
                        Ok(()) => {},
                        Err(e) => {
                            proof {
                                assert(spec_query_from(segment_part@, 0).len() > MAX_NUM_PARAMS);
                            }
                            return Err(e);
                        },
                    }
                    proof {
                        assert(prev + seq![spec_query_entry(frag@)] =~= seg@);
                    }
                    return Ok(seg);
                },
            }
        }
    }
}

/// Splits one query fragment at its first `=` and appends the entry, or
/// fails with `CapacityExceeded` — the segment untouched — when it is
/// full.
fn push_query_entry(frag: &[u8], seg: &mut Segment) -> (r: Result<(), HttpError>)
    ensures
        final(seg).spec_cursor() == old(seg).spec_cursor(),
        final(seg).has_pending_key() == old(seg).has_pending_key(),
        old(seg)@.len() < MAX_NUM_PARAMS ==> {
            &&& r is Ok
            &&& final(seg)@ == old(seg)@.push(spec_query_entry(frag@))
        },
        old(seg)@.len() >= MAX_NUM_PARAMS ==> {
            &&& r == Err::<(), HttpError>(HttpError::CapacityExceeded)
            &&& final(seg)@ == old(seg)@
        },
{
    let n = frag.len();
    match find_byte(frag, 0, EQUALS_BYTE) {
        None => {
            let whole = copy_range(frag, 0, n);
            proof {
                assert(whole@ =~= frag@);
            }
            seg.insert_key_value(whole, None)
        },
        Some(eq) => {
            let key = copy_range(frag, 0, eq);
            let value = copy_range(frag, eq + 1, n);
            seg.insert_key_value(key, Some(value))
        },
    }
}

} // verus!

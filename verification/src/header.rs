//! Content codings.

use vstd::prelude::*;
use vstd::string::StringSliceAdditionalSpecFns;
use http::header::{HeaderName, HeaderValue};
use crate::param::{lookup, ParamView};
use crate::text::{lowered, spells, str_eq, trim_range, trimmed};

verus! {

/// A content coding of a message body.
#[derive(Clone, Copy, Debug, PartialEq, Eq, Structural)]
pub enum ContentEncoding {
    /// Pick one by what the peer accepts.
    Auto,
    /// Brotli.
    Br,
    /// Deflate.
    Deflate,
    /// Gzip.
    Gzip,
    /// None: the body as it is.
    Identity,
}

/// The bytes of `br`.
pub open spec fn word_br() -> Seq<u8> {
    seq![0x62u8, 0x72u8]
}

/// The bytes of `gzip`.
pub open spec fn word_gzip() -> Seq<u8> {
    seq![0x67u8, 0x7au8, 0x69u8, 0x70u8]
}

/// The bytes of `deflate`.
pub open spec fn word_deflate() -> Seq<u8> {
    seq![0x64u8, 0x65u8, 0x66u8, 0x6cu8, 0x61u8, 0x74u8, 0x65u8]
}

/// The bytes of `identity`.
pub open spec fn word_identity() -> Seq<u8> {
    seq![0x69u8, 0x64u8, 0x65u8, 0x6eu8, 0x74u8, 0x69u8, 0x74u8, 0x79u8]
}

/// The coding that the bytes of a `Content-Encoding` value name: white
/// space at the ends and the case of letters do not count, and a value
/// that names no known coding stands for `Auto`.
pub open spec fn coding_of(value: Seq<u8>) -> ContentEncoding {
    let word = lowered(trimmed(value));
    if word == word_br() {
        ContentEncoding::Br
    } else if word == word_gzip() {
        ContentEncoding::Gzip
    } else if word == word_deflate() {
        ContentEncoding::Deflate
    } else if word == word_identity() {
        ContentEncoding::Identity
    } else {
        ContentEncoding::Auto
    }
}

impl ContentEncoding {
    /// Whether the coding changes the bytes of the body.
    pub fn is_compression(&self) -> (r: bool)
        ensures
            r == !(*self == ContentEncoding::Identity || *self == ContentEncoding::Auto),
    {
        match *self {
            ContentEncoding::Identity | ContentEncoding::Auto => false,
            _ => true,
        }
    }

    /// The name of the coding as it stands in a header.
    pub fn as_str(&self) -> (r: &'static str)
        ensures
            *self == ContentEncoding::Br ==> r@ == "br"@,
            *self == ContentEncoding::Gzip ==> r@ == "gzip"@,
            *self == ContentEncoding::Deflate ==> r@ == "deflate"@,
            *self == ContentEncoding::Identity || *self == ContentEncoding::Auto ==> r@
                == "identity"@,
    {
        match *self {
            ContentEncoding::Br => "br",
            ContentEncoding::Gzip => "gzip",
            ContentEncoding::Deflate => "deflate",
            ContentEncoding::Identity | ContentEncoding::Auto => "identity",
        }
    }

    /// The coding that a `Content-Encoding` value names.
    pub fn from(s: &str) -> (r: ContentEncoding)
        ensures
            r == coding_of(s.spec_bytes()),
    {
        let bytes = s.as_bytes();
        let (from, to) = trim_range(bytes);
        let br: [u8; 2] = [0x62, 0x72];
        let gzip: [u8; 4] = [0x67, 0x7a, 0x69, 0x70];
        let deflate: [u8; 7] = [0x64, 0x65, 0x66, 0x6c, 0x61, 0x74, 0x65];
        let identity: [u8; 8] = [0x69, 0x64, 0x65, 0x6e, 0x74, 0x69, 0x74, 0x79];
        assert(br@ =~= word_br());
        assert(gzip@ =~= word_gzip());
        assert(deflate@ =~= word_deflate());
        assert(identity@ =~= word_identity());
        if spells(bytes, from, to, br.as_slice()) {
            ContentEncoding::Br
        } else if spells(bytes, from, to, gzip.as_slice()) {
            ContentEncoding::Gzip
        } else if spells(bytes, from, to, deflate.as_slice()) {
            ContentEncoding::Deflate
        } else if spells(bytes, from, to, identity.as_slice()) {
            ContentEncoding::Identity
        } else {
            ContentEncoding::Auto
        }
    }
}


/// The form in which `http::header::HeaderName` keeps the name `name`: in
/// lower case; `None` where it refuses `name` as a header name.
pub uninterp spec fn canonical_name(name: Seq<char>) -> Option<Seq<char>>;

/// `http::header::HeaderName::from_bytes` on the bytes of `name`, and
/// `as_str` on what it yields. The contract only gives the outcome its
/// name.
#[verifier::external_body]
fn header_name(name: &str) -> (r: Option<String>)
    ensures
        match r {
            Some(n) => canonical_name(name@) == Some(n@),
            None => canonical_name(name@) is None,
        },
{
    HeaderName::from_bytes(name.as_bytes()).ok().map(|n| n.as_str().to_owned())
}

/// Whether a byte may stand in a header value: a tab, or any byte from the
/// space on but the delete character.
pub open spec fn is_value_byte(b: u8) -> bool {
    (b >= 32 && b != 127) || b == 9
}

/// Whether all the bytes of a text may stand in a header value.
pub open spec fn is_header_value(bytes: Seq<u8>) -> bool {
    forall|i: int| 0 <= i < bytes.len() ==> is_value_byte(#[trigger] bytes[i])
}

/// `http::header::HeaderValue::from_str`, of which only success or failure
/// is kept: it takes a text exactly where each of its bytes is a tab or at
/// least 32 and not 127.
#[verifier::external_body]
fn header_value_ok(value: &str) -> (r: bool)
    ensures
        r == is_header_value(value.spec_bytes()),
{
    HeaderValue::from_str(value).is_ok()
}

/// Why a header was refused.
#[derive(Clone, Copy, Debug, PartialEq, Eq, Structural)]
pub enum InvalidHeader {
    /// The name is no header name.
    Name,
    /// The value holds a byte that may not stand in a header value.
    Value,
}

/// The name of the header that says of what type a body is.
pub const CONTENT_TYPE: &'static str = "content-type";

/// Headers: names, in the form in which they are kept, with their values,
/// in the order in which they were entered.
#[derive(Debug)]
pub struct HeaderMap {
    pub entries: Vec<(String, String)>,
}

impl View for HeaderMap {
    type V = Seq<ParamView>;

    open spec fn view(&self) -> Seq<ParamView> {
        Seq::new(self.entries@.len(), |i: int| (self.entries@[i].0@, self.entries@[i].1@))
    }
}

/// Whether `headers` has an entry with the name `name`.
pub open spec fn has_header(headers: Seq<ParamView>, name: Seq<char>) -> bool {
    exists|i: int| 0 <= i < headers.len() && (#[trigger] headers[i]).0 == name
}

/// `headers` without the entries with the name `name`.
pub open spec fn without_header(headers: Seq<ParamView>, name: Seq<char>) -> Seq<ParamView>
    decreases headers.len(),
{
    if headers.len() == 0 {
        Seq::empty()
    } else if headers.last().0 == name {
        without_header(headers.drop_last(), name)
    } else {
        without_header(headers.drop_last(), name).push(headers.last())
    }
}

impl HeaderMap {
    /// No headers.
    pub fn new() -> (r: HeaderMap)
        ensures
            r@ == Seq::<ParamView>::empty(),
    {
        let r = HeaderMap { entries: Vec::new() };
        assert(r@ =~= Seq::<ParamView>::empty());
        r
    }

    /// The number of entries.
    pub fn len(&self) -> (r: usize)
        ensures
            r == self@.len(),
    {
        self.entries.len()
    }

    /// Whether there is an entry with the name `name`.
    pub fn contains_key(&self, name: &str) -> (r: bool)
        ensures
            r == has_header(self@, name@),
    {
        let mut i: usize = 0;
        while i < self.entries.len()
            invariant
                i <= self.entries@.len(),
                forall|j: int| 0 <= j < i ==> (#[trigger] self@[j]).0 != name@,
            decreases self.entries@.len() - i,
        {
            if str_eq(self.entries[i].0.as_str(), name) {
                assert(self@[i as int].0 == name@);
                return true;
            }
            i += 1;
        }
        false
    }

    /// The value of the first entry with the name `name`.
    pub fn get(&self, name: &str) -> (r: Option<&str>)
        ensures
            match r {
                Some(value) => lookup(self@, name@) == Some(value@),
                None => lookup(self@, name@) is None,
            },
    {
        let mut i: usize = 0;
        assert(self@.skip(0) =~= self@);
        while i < self.entries.len()
            invariant
                i <= self.entries@.len(),
                lookup(self@, name@) == lookup(self@.skip(i as int), name@),
            decreases self.entries@.len() - i,
        {
            assert(self@.skip(i as int)[0] == self@[i as int]);
            if str_eq(self.entries[i].0.as_str(), name) {
                return Some(self.entries[i].1.as_str());
            }
            assert(self@.skip(i as int).skip(1) =~= self@.skip(i + 1));
            i += 1;
        }
        None
    }

    /// Enters a header after those that are there.
    pub fn append(&mut self, name: &str, value: &str)
        ensures
            final(self)@ == old(self)@.push((name@, value@)),
    {
        self.entries.push((name.to_owned(), value.to_owned()));
        assert(self@ =~= old(self)@.push((name@, value@)));
    }

    /// Takes out the entries with the name `name`.
    pub fn remove(&mut self, name: &str)
        ensures
            final(self)@ == without_header(old(self)@, name@),
    {
        let mut kept: Vec<(String, String)> = Vec::new();
        let mut all: Vec<(String, String)> = Vec::new();
        core::mem::swap(&mut self.entries, &mut all);
        let ghost before = old(self)@;
        let ghost entries = all@;
        assert(before.take(0) =~= Seq::<ParamView>::empty());
        for entry in it: all
            invariant
                entries == it.seq(),
                before.len() == entries.len(),
                forall|i: int|
                    0 <= i < entries.len() ==> #[trigger] before[i] == (
                        entries[i].0@,
                        entries[i].1@,
                    ),
                Seq::new(kept@.len(), |i: int| (kept@[i].0@, kept@[i].1@)) == without_header(
                    before.take(it.index() as int),
                    name@,
                ),
        {
            let ghost k = it.index() as int;
            let ghost old_kept = Seq::new(kept@.len(), |i: int| (kept@[i].0@, kept@[i].1@));
            proof {
                assert(before.take(k + 1).drop_last() =~= before.take(k));
                assert(before.take(k + 1).last() == before[k]);
            }
            if !str_eq(entry.0.as_str(), name) {
                kept.push(entry);
                assert(Seq::new(kept@.len(), |i: int| (kept@[i].0@, kept@[i].1@))
                    =~= old_kept.push(before[k]));
            }
        }
        proof {
            assert(before.take(before.len() as int) =~= before);
        }
        self.entries = kept;
        assert(self@ =~= without_header(before, name@));
    }

    /// Enters a header in the place of those with the same name.
    pub fn insert(&mut self, name: &str, value: &str)
        ensures
            final(self)@ == without_header(old(self)@, name@).push((name@, value@)),
    {
        self.remove(name);
        self.append(name, value);
    }
}

/// The name and the value of a header as they are kept, or why the header
/// is refused.
pub fn checked_header(name: &str, value: &str) -> (r: Result<(String, String), InvalidHeader>)
    ensures
        match r {
            Ok(h) => canonical_name(name@) == Some(h.0@) && is_header_value(value.spec_bytes())
                && h.1@ == value@,
            Err(InvalidHeader::Name) => canonical_name(name@) is None,
            Err(InvalidHeader::Value) => canonical_name(name@) is Some && !is_header_value(
                value.spec_bytes(),
            ),
        },
{
    match header_name(name) {
        Some(n) => {
            if header_value_ok(value) {
                Ok((n, value.to_owned()))
            } else {
                Err(InvalidHeader::Value)
            }
        },
        None => Err(InvalidHeader::Name),
    }
}

} // verus!

//! Strongly-typed IDs used across the API.
//!
//! Discord IDs are never persisted: every user-identifying value is a
//! [`PseudoId`], a 24-hex-character pseudonym derived as
//! `hex(sha256(discord_id))[0..24]`.

use vstd::prelude::*;

use crate::encoding::{hex_encode, hex_lower, is_lower_hex, is_lower_hex_char, random_bytes, lemma_hex_lower_shape};
use crate::text::{chars_of, str_eq};

verus! {

/// Sentinel pseudo_id for mixed/aggregate audio artifacts, accepted on the
/// chunk-upload path where a speaker pseudo_id is otherwise required.
pub const MIXED_PSEUDO_ID: &'static str = "mixed";

/// Text that can be turned into an owned `String` (`&str` or `String`).
pub trait RawText {
    spec fn raw_view(&self) -> Seq<char>;

    fn into_string(self) -> (r: String)
        ensures
            r@ == self.raw_view(),
    ;
}

impl<'a> RawText for &'a str {
    open spec fn raw_view(&self) -> Seq<char> {
        (*self)@
    }

    fn into_string(self) -> (r: String) {
        self.to_owned()
    }
}

impl RawText for String {
    open spec fn raw_view(&self) -> Seq<char> {
        self@
    }

    fn into_string(self) -> (r: String) {
        self
    }
}

#[derive(Debug, PartialEq, Eq, Structural)]
pub enum PseudoIdError {
    Invalid,
}

impl PseudoIdError {
    /// The error's message.
    pub fn message(&self) -> (r: &'static str)
        ensures
            r@ == "invalid pseudo_id format: expected 24 hex chars"@,
    {
        "invalid pseudo_id format: expected 24 hex chars"
    }
}

/// `^[0-9a-f]{24}$`.
pub open spec fn is_pseudo_id(s: Seq<char>) -> bool {
    s.len() == 24 && is_lower_hex(s)
}

/// The reserved sentinel.
pub open spec fn is_mixed_name(s: Seq<char>) -> bool {
    s == "mixed"@
}

/// A 24-character lowercase hex pseudo_id (or, where the upload path
/// allows it, the `mixed` sentinel).
#[derive(Debug, Hash)]
pub struct PseudoId(String);

impl View for PseudoId {
    type V = Seq<char>;

    closed spec fn view(&self) -> Seq<char> {
        self.0@
    }
}

impl Clone for PseudoId {
    fn clone(&self) -> (r: Self)
        ensures
            r@ == self@,
    {
        PseudoId(self.0.clone())
    }
}

impl PartialEq for PseudoId {
    fn eq(&self, other: &Self) -> (r: bool) {
        self.0 == other.0
    }
}

impl vstd::std_specs::cmp::PartialEqSpecImpl for PseudoId {
    open spec fn obeys_eq_spec() -> bool {
        true
    }

    open spec fn eq_spec(&self, other: &Self) -> bool {
        self@ == other@
    }
}

impl Eq for PseudoId {}

/// Is `s` exactly 24 characters of `0-9a-f`?
pub fn is_valid_pseudo_id(s: &str) -> (r: bool)
    ensures
        r == is_pseudo_id(s@),
{
    let cs = chars_of(s);
    if cs.len() != 24 {
        return false;
    }
    let mut i: usize = 0;
    while i < cs.len()
        invariant
            cs@ == s@,
            i <= cs@.len(),
            forall|j: int| 0 <= j < i ==> is_lower_hex_char(#[trigger] cs@[j]),
        decreases cs@.len() - i,
    {
        let c = cs[i];
        if !(('0' <= c && c <= '9') || ('a' <= c && c <= 'f')) {
            return false;
        }
        i = i + 1;
    }
    true
}

impl PseudoId {
    /// Construct, validating the 24-hex shape.
    pub fn new<T: RawText>(raw: T) -> (r: Result<PseudoId, PseudoIdError>)
        ensures
            match r {
                Ok(p) => p@ == raw.raw_view() && is_pseudo_id(p@),
                Err(e) => !is_pseudo_id(raw.raw_view()) && e == PseudoIdError::Invalid,
            },
    {
        let raw = raw.into_string();
        if is_valid_pseudo_id(raw.as_str()) {
            Ok(PseudoId(raw))
        } else {
            Err(PseudoIdError::Invalid)
        }
    }

    /// Accept either a valid pseudo_id or the reserved `mixed` sentinel.
    pub fn new_or_mixed<T: RawText>(raw: T) -> (r: Result<PseudoId, PseudoIdError>)
        ensures
            match r {
                Ok(p) => p@ == raw.raw_view() && (is_pseudo_id(p@) || is_mixed_name(p@)),
                Err(e) => !is_pseudo_id(raw.raw_view()) && !is_mixed_name(raw.raw_view()) && e
                    == PseudoIdError::Invalid,
            },
    {
        let raw = raw.into_string();
        if str_eq(raw.as_str(), MIXED_PSEUDO_ID) || is_valid_pseudo_id(raw.as_str()) {
            Ok(PseudoId(raw))
        } else {
            Err(PseudoIdError::Invalid)
        }
    }

    /// Wrap a value read back from storage, where it was validated on the way in.
    pub fn from_stored(raw: String) -> (r: PseudoId)
        ensures
            r@ == raw@,
    {
        PseudoId(raw)
    }

    pub fn as_str(&self) -> (r: &str)
        ensures
            r@ == self@,
    {
        self.0.as_str()
    }

    pub fn is_mixed(&self) -> (r: bool)
        ensures
            r == is_mixed_name(self@),
    {
        str_eq(self.0.as_str(), MIXED_PSEUDO_ID)
    }

    pub fn into_inner(self) -> (r: String)
        ensures
            r@ == self@,
    {
        self.0
    }
}

impl core::str::FromStr for PseudoId {
    type Err = PseudoIdError;

    fn from_str(s: &str) -> (r: Result<Self, Self::Err>)
        ensures
            match r {
                Ok(p) => p@ == s@ && is_pseudo_id(p@),
                Err(e) => !is_pseudo_id(s@) && e == PseudoIdError::Invalid,
            },
    {
        PseudoId::new(s)
    }
}

/// A valid pseudo_id is never the sentinel.
pub proof fn lemma_pseudo_id_is_not_mixed(s: Seq<char>)
    ensures
        is_pseudo_id(s) ==> !is_mixed_name(s),
{
    reveal_strlit("mixed");
}

/// A caller-supplied deduplication key (`X-Client-Chunk-Id`, bulk
/// `client_id`), opaque to the server.
#[derive(Debug, Hash)]
pub struct ClientId(pub String);

impl Clone for ClientId {
    fn clone(&self) -> (r: Self)
        ensures
            r.0@ == self.0@,
    {
        ClientId(self.0.clone())
    }
}

impl ClientId {
    pub fn as_str(&self) -> (r: &str)
        ensures
            r@ == self.0@,
    {
        self.0.as_str()
    }
}

/// An opaque revision marker for optimistic concurrency, generated
/// server-side, sent as `ETag`, echoed back in `If-Match`.
#[derive(Debug)]
pub struct ETag(pub String);

impl Clone for ETag {
    fn clone(&self) -> (r: Self)
        ensures
            r@ == self@,
    {
        ETag(self.0.clone())
    }
}

impl View for ETag {
    type V = Seq<char>;

    open spec fn view(&self) -> Seq<char> {
        self.0@
    }
}

impl PartialEq for ETag {
    fn eq(&self, other: &Self) -> (r: bool) {
        self.0 == other.0
    }
}

impl vstd::std_specs::cmp::PartialEqSpecImpl for ETag {
    open spec fn obeys_eq_spec() -> bool {
        true
    }

    open spec fn eq_spec(&self, other: &Self) -> bool {
        self.0@ == other.0@
    }
}

impl Eq for ETag {}

impl ETag {
    /// The tag for eight drawn bytes: their lowercase hex encoding.
    pub fn from_bytes(bytes: &[u8]) -> (r: ETag)
        requires
            bytes@.len() == 8,
        ensures
            r@ == hex_lower(bytes@),
            r@.len() == 16,
            is_lower_hex(r@),
    {
        let s = hex_encode(bytes);
        proof {
            lemma_hex_lower_shape(bytes@);
        }
        ETag(s)
    }

    /// A fresh random 16-hex-character tag: the hex encoding of eight
    /// random bytes.
    pub fn new_random() -> (r: ETag)
        ensures
            exists|b: Seq<u8>| b.len() == 8 && r@ == hex_lower(b),
            r@.len() == 16,
            is_lower_hex(r@),
    {
        let buf = random_bytes(8);
        Self::from_bytes(buf.as_slice())
    }

    pub fn as_str(&self) -> (r: &str)
        ensures
            r@ == self@,
    {
        self.0.as_str()
    }
}

} // verus!

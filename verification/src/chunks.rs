//! PCM chunk uploads: the request headers, the size cap and the object key
//! a chunk is stored under.
//!
//! A header reaches the library as `None` when absent, `Some(None)` when its
//! value is not visible ASCII, and `Some(Some(text))` otherwise.

use vstd::prelude::*;

use crate::error::AppError;
use crate::ids::PseudoId;
use crate::text::{parse_i32, push_zero_padded};
#[allow(unused_imports)]
use crate::text::{decimal, dec_value, is_digit, lemma_dec_value_decimal, lemma_dec_value_zeros_prefix, lemma_zero_padded_digits, zero_padded, zeros};

verus! {

/// Hard cap on a chunk body: 3 MiB.
pub const MAX_CHUNK_BYTES: usize = 3145728;

/// What chrono's `DateTime::parse_from_rfc3339` makes of a string: the
/// instant as whole seconds since the Unix epoch and nanoseconds within
/// that second, or the text of its parse error.
pub uninterp spec fn rfc3339_instant(s: Seq<char>) -> Result<(i64, u32), Seq<char>>;

/// Parses an RFC 3339 timestamp with chrono's
/// `DateTime::parse_from_rfc3339`, converted to UTC. The result is the one
/// `rfc3339_instant` names for the input; nothing more is claimed of it.
#[verifier::external_body]
fn parse_rfc3339(s: &str) -> (r: Result<(i64, u32), String>)
    ensures
        match r {
            Ok(t) => rfc3339_instant(s@) == Ok::<(i64, u32), Seq<char>>(t),
            Err(m) => rfc3339_instant(s@) == Err::<(i64, u32), Seq<char>>(m@),
        },
{
    match chrono::DateTime::parse_from_rfc3339(s) {
        Ok(dt) => {
            let utc = dt.with_timezone(&chrono::Utc);
            Ok((utc.timestamp(), utc.timestamp_subsec_nanos()))
        },
        Err(e) => Err(e.to_string()),
    }
}

/// The three headers of an upload, parsed.
pub struct ChunkHeaders {
    /// When capture of the chunk started: seconds and nanoseconds since the
    /// Unix epoch, UTC.
    pub capture_started_at: (i64, u32),
    pub duration_ms: i32,
    pub client_chunk_id: String,
}

/// The outcome of reading the upload headers, given what the RFC 3339
/// parser made of the capture time. Headers are checked in order: capture
/// time, duration, client chunk id.
pub open spec fn chunk_headers_outcome(
    capture: Option<Option<Result<(i64, u32), Seq<char>>>>,
    duration: Option<Option<Seq<char>>>,
    client_chunk_id: Option<Option<Seq<char>>>,
) -> Result<((i64, u32), i32, Seq<char>), (u8, Seq<char>)> {
    match capture {
        None => Err((0, "X-Capture-Started-At"@)),
        Some(None) => Err((1, "X-Capture-Started-At: non-ASCII"@)),
        Some(Some(Err(e))) => Err((1, "X-Capture-Started-At: "@ + e)),
        Some(Some(Ok(t))) => match duration {
            None => Err((0, "X-Duration-Ms"@)),
            Some(None) => Err((1, "X-Duration-Ms: non-ASCII"@)),
            Some(Some(d)) => match crate::text::parse_int_spec(d, true, i32::MAX as int, 0x8000_0000) {
                Err(k) => Err((1, "X-Duration-Ms: "@ + k.spec_message())),
                Ok(v) => if v < 0 {
                    Err((1, "X-Duration-Ms: must be >= 0"@))
                } else {
                    match client_chunk_id {
                        None => Err((0, "X-Client-Chunk-Id"@)),
                        Some(None) => Err((1, "X-Client-Chunk-Id: non-ASCII"@)),
                        Some(Some(c)) => if c.len() == 0 {
                            Err((1, "X-Client-Chunk-Id: must be non-empty"@))
                        } else {
                            Ok((t, v as i32, c))
                        },
                    }
                },
            },
        },
    }
}

/// Whether `r` is the answer `outcome` describes: a missing header (`0`)
/// is `MissingHeader` with its name, a bad one (`1`) a bad request.
pub open spec fn answers(r: Result<ChunkHeaders, AppError>, outcome: Result<((i64, u32), i32, Seq<char>), (u8, Seq<char>)>) -> bool {
    match outcome {
        Ok((t, d, c)) => r matches Ok(h) && h.capture_started_at == t && h.duration_ms == d && h.client_chunk_id@ == c,
        Err((0, name)) => r matches Err(AppError::MissingHeader(n)) && n@ == name,
        Err((_, msg)) => r matches Err(AppError::BadRequest(m)) && m@ == msg,
    }
}

pub open spec fn opt_view(h: Option<Option<String>>) -> Option<Option<Seq<char>>> {
    match h {
        None => None,
        Some(None) => Some(None),
        Some(Some(s)) => Some(Some(s@)),
    }
}

pub open spec fn parsed_view(h: Option<Option<Result<(i64, u32), String>>>) -> Option<Option<Result<(i64, u32), Seq<char>>>> {
    match h {
        None => None,
        Some(None) => Some(None),
        Some(Some(Ok(t))) => Some(Some(Ok(t))),
        Some(Some(Err(e))) => Some(Some(Err(e@))),
    }
}

fn prefixed(prefix: &str, rest: &str) -> (r: String)
    ensures
        r@ == prefix@ + rest@,
{
    let mut m = prefix.to_owned();
    m.append(rest);
    m
}

/// Reads the upload headers, the capture time already run through the
/// RFC 3339 parser.
pub fn chunk_headers_from(
    capture: Option<Option<Result<(i64, u32), String>>>,
    duration: Option<Option<String>>,
    client_chunk_id: Option<Option<String>>,
) -> (r: Result<ChunkHeaders, AppError>)
    ensures
        answers(r, chunk_headers_outcome(parsed_view(capture), opt_view(duration), opt_view(client_chunk_id))),
{
    let capture_started_at = match capture {
        None => return Err(AppError::MissingHeader("X-Capture-Started-At")),
        Some(None) => return Err(AppError::BadRequest("X-Capture-Started-At: non-ASCII".to_owned())),
        Some(Some(Err(e))) => return Err(AppError::BadRequest(prefixed("X-Capture-Started-At: ", e.as_str()))),
        Some(Some(Ok(t))) => t,
    };
    let duration_ms = match duration {
        None => return Err(AppError::MissingHeader("X-Duration-Ms")),
        Some(None) => return Err(AppError::BadRequest("X-Duration-Ms: non-ASCII".to_owned())),
        Some(Some(d)) => match parse_i32(d.as_str()) {
            Err(k) => return Err(AppError::BadRequest(prefixed("X-Duration-Ms: ", k.message()))),
            Ok(v) => v,
        },
    };
    if duration_ms < 0 {
        return Err(AppError::BadRequest("X-Duration-Ms: must be >= 0".to_owned()));
    }
    let client_chunk_id = match client_chunk_id {
        None => return Err(AppError::MissingHeader("X-Client-Chunk-Id")),
        Some(None) => return Err(AppError::BadRequest("X-Client-Chunk-Id: non-ASCII".to_owned())),
        Some(Some(c)) => c,
    };
    if client_chunk_id.unicode_len() == 0 {
        return Err(AppError::BadRequest("X-Client-Chunk-Id: must be non-empty".to_owned()));
    }
    Ok(ChunkHeaders { capture_started_at, duration_ms, client_chunk_id })
}

/// The capture time's parse as `chunk_headers_outcome` takes it.
pub open spec fn capture_parsed(capture: Option<Option<String>>) -> Option<Option<Result<(i64, u32), Seq<char>>>> {
    match capture {
        None => None,
        Some(None) => Some(None),
        Some(Some(s)) => Some(Some(rfc3339_instant(s@))),
    }
}

/// Reads the three upload headers: `X-Capture-Started-At` (RFC 3339),
/// `X-Duration-Ms` (a non-negative `i32`) and `X-Client-Chunk-Id`
/// (non-empty).
pub fn parse_chunk_headers(
    capture: Option<Option<String>>,
    duration: Option<Option<String>>,
    client_chunk_id: Option<Option<String>>,
) -> (r: Result<ChunkHeaders, AppError>)
    ensures
        answers(r, chunk_headers_outcome(capture_parsed(capture), opt_view(duration), opt_view(client_chunk_id))),
{
    let parsed = match capture {
        None => None,
        Some(None) => Some(None),
        Some(Some(s)) => Some(Some(parse_rfc3339(s.as_str()))),
    };
    chunk_headers_from(parsed, duration, client_chunk_id)
}

/// The stored size of a chunk body of `len` bytes; over the cap it is
/// refused as too large.
pub fn check_chunk_size(len: usize) -> (r: Result<i32, AppError>)
    ensures
        len <= MAX_CHUNK_BYTES ==> r == Ok::<i32, AppError>(len as i32),
        len > MAX_CHUNK_BYTES ==> (r matches Err(AppError::PayloadTooLarge(m)) && m@ == "chunk exceeds 3145728 bytes"@),
{
    if len > MAX_CHUNK_BYTES {
        return Err(AppError::PayloadTooLarge("chunk exceeds 3145728 bytes".to_owned()));
    }
    Ok(len as i32)
}

/// `{prefix}/audio/{pseudo_id}/chunk_{seq:04}.pcm`: the session's prefix,
/// then the speaker, then the sequence number zero-padded to four digits.
pub open spec fn chunk_key_spec(prefix: Seq<char>, pseudo_id: Seq<char>, seq: int) -> Seq<char> {
    prefix + "/audio/"@ + pseudo_id + "/chunk_"@ + crate::text::zero_padded(seq, 4) + ".pcm"@
}

/// The object key a chunk is stored under.
pub fn chunk_key(prefix: &str, pseudo_id: &PseudoId, seq: i32) -> (r: String)
    ensures
        r@ == chunk_key_spec(prefix@, pseudo_id@, seq as int),
{
    let mut k = prefix.to_owned();
    k.append("/audio/");
    k.append(pseudo_id.as_str());
    k.append("/chunk_");
    push_zero_padded(&mut k, seq as i64, 4);
    k.append(".pcm");
    k
}

/// `x` as `n` bytes, most significant first (the low `n` bytes of `x`).
pub open spec fn be_bytes(x: nat, n: nat) -> Seq<u8>
    decreases n,
{
    if n == 0 {
        Seq::empty()
    } else {
        be_bytes(x / 256, (n - 1) as nat).push((x % 256) as u8)
    }
}

/// The hyphenated lower-case text of a UUID given as its 128-bit value:
/// its sixteen bytes, most significant first, as hex digits in groups of
/// 8, 4, 4, 4 and 12 joined by `-`.
pub open spec fn uuid_text(id: u128) -> Seq<char> {
    let h = crate::encoding::hex_lower(be_bytes(id as nat, 16));
    h.subrange(0, 8) + seq!['-'] + h.subrange(8, 12) + seq!['-'] + h.subrange(12, 16) + seq!['-']
        + h.subrange(16, 20) + seq!['-'] + h.subrange(20, 32)
}

/// Formats a UUID with uuid's `Uuid::from_u128` (the value's bytes, most
/// significant first) and its `Display` impl, which writes the hyphenated
/// lower-case form. The contract states that text exactly.
#[verifier::external_body]
fn uuid_hyphenated(id: u128) -> (r: String)
    ensures
        r@ == uuid_text(id),
{
    uuid::Uuid::from_u128(id).to_string()
}

/// `sessions/{session_id}/audio/{pseudo_id}/chunk_{seq:04}.pcm`.
pub open spec fn session_chunk_key_spec(session_id: u128, pseudo_id: Seq<char>, seq: int) -> Seq<char> {
    chunk_key_spec("sessions/"@ + uuid_text(session_id), pseudo_id, seq)
}

/// The object key an uploaded chunk is stored under: the session's id,
/// then the speaker, then the sequence number zero-padded to four digits.
pub fn session_chunk_key(session_id: u128, pseudo_id: &PseudoId, seq: i32) -> (r: String)
    ensures
        r@ == session_chunk_key_spec(session_id, pseudo_id@, seq as int),
{
    let id = uuid_hyphenated(session_id);
    let prefix = prefixed("sessions/", id.as_str());
    chunk_key(prefix.as_str(), pseudo_id, seq)
}

proof fn lemma_zero_padded_value(n: int, width: nat)
    ensures
        n >= 0 ==> zero_padded(n, width).len() >= 1 && is_digit(zero_padded(n, width)[0])
            && dec_value(zero_padded(n, width)) == n,
        n < 0 ==> zero_padded(n, width).len() >= 1 && zero_padded(n, width)[0] == '-'
            && dec_value(zero_padded(n, width).drop_first()) == -n,
{
    if n >= 0 {
        lemma_zero_padded_digits(n as nat, width);
    } else {
        let d = decimal((-n) as nat);
        let pad: nat = if d.len() + 1 < width { (width - d.len() - 1) as nat } else { 0 };
        assert(zero_padded(n, width).drop_first() =~= zeros(pad) + d);
        lemma_dec_value_zeros_prefix(pad, d);
        lemma_dec_value_decimal((-n) as nat);
    }
}

/// Distinct sequence numbers of one speaker in one session are stored
/// under distinct keys: no chunk overwrites another.
pub proof fn lemma_chunk_keys_distinct(prefix: Seq<char>, pseudo_id: Seq<char>, a: int, b: int)
    requires
        a != b,
    ensures
        chunk_key_spec(prefix, pseudo_id, a) != chunk_key_spec(prefix, pseudo_id, b),
{
    let head = prefix + "/audio/"@ + pseudo_id + "/chunk_"@;
    let za = zero_padded(a, 4);
    let zb = zero_padded(b, 4);
    let ka = chunk_key_spec(prefix, pseudo_id, a);
    let kb = chunk_key_spec(prefix, pseudo_id, b);
    assert(ka =~= head + za + ".pcm"@);
    assert(kb =~= head + zb + ".pcm"@);
    if ka == kb {
        assert(za.len() == zb.len());
        assert(za =~= ka.subrange(head.len() as int, (head.len() + za.len()) as int));
        assert(zb =~= kb.subrange(head.len() as int, (head.len() + zb.len()) as int));
        assert(za == zb);
        lemma_zero_padded_value(a, 4);
        lemma_zero_padded_value(b, 4);
        if a >= 0 && b < 0 {
            assert(za[0] == zb[0]);
        } else if a < 0 && b >= 0 {
            assert(za[0] == zb[0]);
        }
    }
}

/// What an upload answers: the chunk's sequence number, its key, and
/// whether an earlier upload with the same client chunk id was found.
pub struct UploadResponse {
    pub seq: i32,
    pub s3_key: String,
    pub deduplicated: bool,
}

} // verus!

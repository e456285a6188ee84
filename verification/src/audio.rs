//! Raw audio: signed 16-bit little-endian PCM, 48 kHz stereo.
//!
//! Mixing sums the speakers' samples with saturation, a WAV container wraps
//! the result, and chunks of the older per-session object layout are named
//! and recognised here.

use vstd::prelude::*;

use crate::text::{parse_u32, push_zero_padded};

verus! {

/// Bytes of raw PCM per stored chunk (2 MiB).
pub const CHUNK_SIZE: usize = 2097152;

/// Bytes per stereo frame: two 16-bit samples.
pub const FRAME_SIZE: usize = 4;

/// A stored chunk as listed: its key, sequence number and size in bytes.
pub struct ChunkInfo {
    pub key: String,
    pub seq: u32,
    pub size: i64,
}

/// `x` as `n` little-endian bytes (`x` taken modulo `256^n`).
pub open spec fn le_bytes(x: nat, n: nat) -> Seq<u8>
    decreases n,
{
    if n == 0 {
        Seq::empty()
    } else {
        seq![(x % 256) as u8] + le_bytes(x / 256, (n - 1) as nat)
    }
}

pub open spec fn riff_tag() -> Seq<u8> {
    seq![82u8, 73u8, 70u8, 70u8]
}

pub open spec fn wave_tag() -> Seq<u8> {
    seq![87u8, 65u8, 86u8, 69u8]
}

pub open spec fn fmt_tag() -> Seq<u8> {
    seq![102u8, 109u8, 116u8, 32u8]
}

pub open spec fn data_tag() -> Seq<u8> {
    seq![100u8, 97u8, 116u8, 97u8]
}

/// The 44-byte canonical WAV header for `data_len` bytes of integer PCM.
pub open spec fn wav_header(data_len: nat, sample_rate: nat, channels: nat, bits_per_sample: nat) -> Seq<u8> {
    riff_tag() + le_bytes(36 + data_len, 4) + wave_tag() + fmt_tag() + le_bytes(16, 4) + le_bytes(1, 2)
        + le_bytes(channels, 2) + le_bytes(sample_rate, 4) + le_bytes(
        sample_rate * channels * bits_per_sample / 8,
        4,
    ) + le_bytes(channels * bits_per_sample / 8, 2) + le_bytes(bits_per_sample, 2) + data_tag() + le_bytes(
        data_len,
        4,
    )
}

fn push_le(buf: &mut Vec<u8>, x: u32, n: usize)
    ensures
        final(buf)@ == old(buf)@ + le_bytes(x as nat, n as nat),
{
    let mut v: u32 = x;
    let mut i: usize = 0;
    while i < n
        invariant
            i <= n,
            buf@ + le_bytes(v as nat, (n - i) as nat) == old(buf)@ + le_bytes(x as nat, n as nat),
        decreases n - i,
    {
        let ghost before = buf@;
        buf.push((v % 256) as u8);
        proof {
            assert(le_bytes(v as nat, (n - i) as nat) =~= seq![(v % 256) as u8] + le_bytes(
                (v / 256) as nat,
                (n - i - 1) as nat,
            ));
            assert(buf@ =~= before + seq![(v % 256) as u8]);
            assert(buf@ + le_bytes((v / 256) as nat, (n - i - 1) as nat) =~= before + le_bytes(
                v as nat,
                (n - i) as nat,
            ));
        }
        v = v / 256;
        i = i + 1;
    }
    assert(le_bytes(v as nat, 0) =~= Seq::<u8>::empty());
    assert(buf@ =~= buf@ + le_bytes(v as nat, 0));
}

fn push_tag(buf: &mut Vec<u8>, a: u8, b: u8, c: u8, d: u8)
    ensures
        final(buf)@ == old(buf)@ + seq![a, b, c, d],
{
    buf.push(a);
    buf.push(b);
    buf.push(c);
    buf.push(d);
    assert(buf@ =~= old(buf)@ + seq![a, b, c, d]);
}

/// The data length a WAV header records for `n` bytes of PCM: its 32-bit
/// size field keeps `n` modulo 2^32.
pub open spec fn wav_data_len(n: nat) -> nat {
    n % 0x1_0000_0000
}

/// Wraps raw PCM in a WAV container.
pub fn encode_wav(pcm: &[u8], sample_rate: u32, channels: u16, bits_per_sample: u16) -> (r: Vec<u8>)
    requires
        wav_data_len(pcm@.len()) + 36 <= u32::MAX,
        sample_rate * channels * bits_per_sample <= u32::MAX,
        channels * bits_per_sample <= u16::MAX,
    ensures
        r@ == wav_header(wav_data_len(pcm@.len()), sample_rate as nat, channels as nat, bits_per_sample as nat)
            + pcm@,
{
    let data_len: u32 = ((pcm.len() as u64) % 0x1_0000_0000) as u32;
    let a = sample_rate as u64;
    let b = channels as u64;
    let c = bits_per_sample as u64;
    assert(a * b <= 0xffff_ffff_ffff) by (nonlinear_arith)
        requires
            a <= 0xffff_ffff,
            b <= 0xffff,
    ;
    assert(a * b * c <= 0xffff_ffff_ffff_ffff) by (nonlinear_arith)
        requires
            a * b <= 0xffff_ffff_ffff,
            c <= 0xffff,
    ;
    let byte_rate: u32 = (a * b * c / 8) as u32;
    let block_align: u16 = channels * bits_per_sample / 8;
    let file_size: u32 = 36 + data_len;
    let mut buf: Vec<u8> = Vec::new();
    push_tag(&mut buf, 82, 73, 70, 70);
    push_le(&mut buf, file_size, 4);
    push_tag(&mut buf, 87, 65, 86, 69);
    push_tag(&mut buf, 102, 109, 116, 32);
    push_le(&mut buf, 16, 4);
    push_le(&mut buf, 1, 2);
    push_le(&mut buf, channels as u32, 2);
    push_le(&mut buf, sample_rate, 4);
    push_le(&mut buf, byte_rate, 4);
    push_le(&mut buf, block_align as u32, 2);
    push_le(&mut buf, bits_per_sample as u32, 2);
    push_tag(&mut buf, 100, 97, 116, 97);
    push_le(&mut buf, data_len, 4);
    let ghost header = buf@;
    let mut i: usize = 0;
    while i < pcm.len()
        invariant
            i <= pcm@.len(),
            buf@ == header + pcm@.take(i as int),
        decreases pcm@.len() - i,
    {
        buf.push(pcm[i]);
        i = i + 1;
        assert(buf@ =~= header + pcm@.take(i as int));
    }
    assert(pcm@.take(pcm@.len() as int) =~= pcm@);
    assert(header =~= wav_header(wav_data_len(pcm@.len()), sample_rate as nat, channels as nat, bits_per_sample as nat));
    buf
}

/// The signed 16-bit little-endian sample at byte offset `off`.
pub open spec fn sample_at(buf: Seq<u8>, off: int) -> int {
    let v = buf[off] as int + 256 * buf[off + 1] as int;
    if v >= 32768 {
        v - 65536
    } else {
        v
    }
}

/// `x` saturated to the 16-bit signed range.
pub open spec fn clamp16(x: int) -> int {
    if x < -32768 {
        -32768
    } else if x > 32767 {
        32767
    } else {
        x
    }
}

/// The mix at byte offset `off`: the speakers' samples added in order,
/// saturating after each addition.
pub open spec fn mixed_sample(bufs: Seq<Seq<u8>>, off: int) -> int
    decreases bufs.len(),
{
    if bufs.len() == 0 {
        0
    } else {
        clamp16(mixed_sample(bufs.drop_last(), off) + sample_at(bufs.last(), off))
    }
}

/// The low and high byte of a 16-bit sample in two's complement.
pub open spec fn sample_bytes(x: int) -> Seq<u8> {
    let u = if x < 0 {
        x + 65536
    } else {
        x
    };
    seq![(u % 256) as u8, (u / 256) as u8]
}

pub open spec fn buffer_views(bufs: Seq<Vec<u8>>) -> Seq<Seq<u8>> {
    bufs.map_values(|b: Vec<u8>| b@)
}

/// The mixed PCM of `len` bytes from byte `start` of every buffer, an odd
/// trailing byte dropped: byte `k` is a byte of the mixed sample at
/// `start + k / 2 * 2`.
pub open spec fn mixed_pcm(bufs: Seq<Seq<u8>>, start: int, len: int) -> Seq<u8> {
    Seq::new(((len / 2) * 2) as nat, |k: int| sample_bytes(mixed_sample(bufs, start + (k / 2) * 2))[k % 2])
}

proof fn lemma_mixed_sample_range(bufs: Seq<Seq<u8>>, off: int)
    ensures
        -32768 <= mixed_sample(bufs, off) <= 32767,
    decreases bufs.len(),
{
    if bufs.len() > 0 {
        lemma_mixed_sample_range(bufs.drop_last(), off);
    }
}

fn sample_from(b: &Vec<u8>, off: usize) -> (r: i32)
    requires
        off + 1 < b@.len(),
    ensures
        r as int == sample_at(b@, off as int),
{
    let n = b.len();
    let v: i32 = b[off] as i32 + 256 * (b[off + 1] as i32);
    if v >= 32768 {
        v - 65536
    } else {
        v
    }
}

fn mix_at(bufs: &Vec<Vec<u8>>, off: usize) -> (r: i32)
    requires
        forall|k: int| 0 <= k < bufs@.len() ==> off + 1 < #[trigger] bufs@[k]@.len(),
    ensures
        r as int == mixed_sample(buffer_views(bufs@), off as int),
{
    let ghost views = buffer_views(bufs@);
    let mut acc: i32 = 0;
    let mut k: usize = 0;
    while k < bufs.len()
        invariant
            k <= bufs@.len(),
            views == buffer_views(bufs@),
            forall|j: int| 0 <= j < bufs@.len() ==> off + 1 < #[trigger] bufs@[j]@.len(),
            acc as int == mixed_sample(views.take(k as int), off as int),
            -32768 <= acc <= 32767,
        decreases bufs@.len() - k,
    {
        let s = sample_from(&bufs[k], off);
        let sum = acc + s;
        acc = if sum < -32768 {
            -32768
        } else if sum > 32767 {
            32767
        } else {
            sum
        };
        proof {
            let t = views.take(k as int + 1);
            assert(t.drop_last() =~= views.take(k as int));
            assert(t.last() == bufs@[k as int]@);
        }
        k = k + 1;
    }
    assert(views.take(bufs@.len() as int) =~= views);
    acc
}

/// Mixes every speaker's PCM over `len` bytes from byte `start`, with
/// saturation; an odd trailing byte is dropped.
pub fn mix_s16le(bufs: &Vec<Vec<u8>>, start: usize, len: usize) -> (r: Vec<u8>)
    requires
        start + len <= usize::MAX,
        forall|k: int| 0 <= k < bufs@.len() ==> start + len <= #[trigger] bufs@[k]@.len(),
    ensures
        r@ == mixed_pcm(buffer_views(bufs@), start as int, len as int),
{
    let ghost views = buffer_views(bufs@);
    let n = len / 2;
    let mut out: Vec<u8> = Vec::new();
    let mut i: usize = 0;
    while i < n
        invariant
            n == len / 2,
            i <= n,
            start + len <= usize::MAX,
            views == buffer_views(bufs@),
            forall|k: int| 0 <= k < bufs@.len() ==> start + len <= #[trigger] bufs@[k]@.len(),
            out@ == mixed_pcm(views, start as int, 2 * i),
        decreases n - i,
    {
        let off = start + 2 * i;
        assert forall|k: int| 0 <= k < bufs@.len() implies off + 1 < #[trigger] bufs@[k]@.len() by {
            assert(start + len <= bufs@[k]@.len());
        }
        let m = mix_at(bufs, off);
        proof {
            lemma_mixed_sample_range(views, off as int);
        }
        let u: i32 = if m < 0 {
            m + 65536
        } else {
            m
        };
        out.push((u % 256) as u8);
        out.push((u / 256) as u8);
        proof {
            let prev = mixed_pcm(views, start as int, 2 * i);
            let next = mixed_pcm(views, start as int, 2 * i + 2);
            assert forall|k: int| 0 <= k < next.len() implies #[trigger] next[k] == (prev + sample_bytes(m as int))[k] by {
                if k < 2 * i {
                    assert((2 * i) / 2 * 2 == 2 * i);
                } else {
                    assert(k / 2 == i);
                }
            }
            assert((2 * i + 2) / 2 * 2 == 2 * i + 2);
            assert((2 * i) / 2 * 2 == 2 * i);
            assert(out@ =~= next);
        }
        i = i + 1;
    }
    assert(mixed_pcm(views, start as int, 2 * n as int) =~= mixed_pcm(views, start as int, len as int));
    out
}

/// A speaker's buffer over consecutive chunks: chunk `i`'s bytes, at most
/// `CHUNK_SIZE` of them, from byte `i * CHUNK_SIZE`; zero where a chunk is
/// missing or short.
pub open spec fn assembled_byte(chunks: Seq<Option<Vec<u8>>>, k: int) -> u8 {
    let i = k / CHUNK_SIZE as int;
    let j = k % CHUNK_SIZE as int;
    match chunks[i] {
        Some(d) => if j < d@.len() {
            d@[j]
        } else {
            0
        },
        None => 0,
    }
}

/// Lays a speaker's chunks end to end at `CHUNK_SIZE` strides.
pub fn assemble_chunks(chunks: &Vec<Option<Vec<u8>>>) -> (r: Vec<u8>)
    requires
        chunks@.len() * CHUNK_SIZE <= usize::MAX,
    ensures
        r@.len() == chunks@.len() * CHUNK_SIZE,
        forall|k: int| 0 <= k < r@.len() ==> #[trigger] r@[k] == assembled_byte(chunks@, k),
{
    let mut out: Vec<u8> = Vec::new();
    let mut i: usize = 0;
    while i < chunks.len()
        invariant
            i <= chunks@.len(),
            chunks@.len() * CHUNK_SIZE <= usize::MAX,
            out@.len() == i * CHUNK_SIZE,
            forall|k: int| 0 <= k < out@.len() ==> #[trigger] out@[k] == assembled_byte(chunks@, k),
        decreases chunks@.len() - i,
    {
        assert((i + 1) * CHUNK_SIZE <= chunks@.len() * CHUNK_SIZE) by (nonlinear_arith)
            requires
                i + 1 <= chunks@.len(),
        ;
        let mut j: usize = 0;
        while j < CHUNK_SIZE
            invariant
                i < chunks@.len(),
                (i + 1) * CHUNK_SIZE <= usize::MAX,
                j <= CHUNK_SIZE,
                out@.len() == i * CHUNK_SIZE + j,
                forall|k: int| 0 <= k < out@.len() ==> #[trigger] out@[k] == assembled_byte(chunks@, k),
            decreases CHUNK_SIZE - j,
        {
            let b: u8 = match &chunks[i] {
                Some(d) => if j < d.len() {
                    d[j]
                } else {
                    0
                },
                None => 0,
            };
            let ghost k = (i * CHUNK_SIZE + j) as int;
            assert(k / CHUNK_SIZE as int == i && k % CHUNK_SIZE as int == j) by (nonlinear_arith)
                requires
                    k == i * CHUNK_SIZE + j,
                    0 <= j < CHUNK_SIZE,
            ;
            out.push(b);
            j = j + 1;
        }
        i = i + 1;
        assert(out@.len() == i * CHUNK_SIZE) by (nonlinear_arith)
            requires
                out@.len() == (i - 1) * CHUNK_SIZE + CHUNK_SIZE,
        ;
    }
    out
}

/// `sessions/{prefix}/audio/{pseudo_id}/chunk_{seq:04}.pcm`.
pub open spec fn legacy_chunk_key_spec(prefix: Seq<char>, pseudo_id: Seq<char>, seq: nat) -> Seq<char> {
    "sessions/"@ + prefix + "/audio/"@ + pseudo_id + "/chunk_"@ + crate::text::zero_padded(seq as int, 4)
        + ".pcm"@
}

/// The key of a chunk in the per-session layout.
pub fn legacy_chunk_key(prefix: &str, pseudo_id: &str, seq: u32) -> (r: String)
    ensures
        r@ == legacy_chunk_key_spec(prefix@, pseudo_id@, seq as nat),
{
    let mut k = "sessions/".to_owned();
    k.append(prefix);
    k.append("/audio/");
    k.append(pseudo_id);
    k.append("/chunk_");
    push_zero_padded(&mut k, seq as i64, 4);
    k.append(".pcm");
    k
}

/// The part of `key` after its last `/` (all of it when there is none).
pub open spec fn file_name(key: Seq<char>) -> Seq<char>
    decreases key.len(),
{
    if key.len() == 0 {
        key
    } else if key.last() == '/' {
        Seq::empty()
    } else {
        file_name(key.drop_last()).push(key.last())
    }
}

/// The sequence number a listed key names: its file name must be
/// `chunk_{n}.pcm` with `n` a `u32` as `str::parse` reads it.
pub open spec fn key_seq(key: Seq<char>) -> Option<u32> {
    let f = file_name(key);
    let pre = "chunk_"@;
    let suf = ".pcm"@;
    if f.len() >= pre.len() && f.take(pre.len() as int) == pre {
        let rest = f.skip(pre.len() as int);
        if rest.len() >= suf.len() && rest.skip(rest.len() - suf.len()) == suf {
            let digits = rest.take(rest.len() - suf.len());
            match crate::text::parse_int_spec(digits, false, u32::MAX as int, 0) {
                Ok(v) => Some(v as u32),
                Err(_) => None,
            }
        } else {
            None
        }
    } else {
        None
    }
}

/// A listed chunk as a value: key, sequence number, size.
pub open spec fn info_view(c: ChunkInfo) -> (Seq<char>, u32, i64) {
    (c.key@, c.seq, c.size)
}

pub open spec fn info_views(cs: Seq<ChunkInfo>) -> Seq<(Seq<char>, u32, i64)> {
    cs.map_values(|c: ChunkInfo| info_view(c))
}

/// The chunks among listed objects, in listing order: objects with a key
/// that names a chunk, their size defaulting to zero.
pub open spec fn listed_chunks(objs: Seq<(Option<String>, Option<i64>)>) -> Seq<(Seq<char>, u32, i64)>
    decreases objs.len(),
{
    if objs.len() == 0 {
        Seq::empty()
    } else {
        let rest = listed_chunks(objs.drop_last());
        match objs.last().0 {
            Some(k) => match key_seq(k@) {
                Some(n) => rest.push(
                    (
                        k@,
                        n,
                        match objs.last().1 {
                            Some(z) => z,
                            None => 0,
                        },
                    ),
                ),
                None => rest,
            },
            None => rest,
        }
    }
}

/// `out` is `inp` sorted by sequence number, items with equal numbers
/// keeping their relative order.
pub open spec fn is_stable_sort_by_seq(out: Seq<(Seq<char>, u32, i64)>, inp: Seq<(Seq<char>, u32, i64)>) -> bool {
    &&& out.len() == inp.len()
    &&& exists|perm: Seq<int>| is_stable_sort_perm(out, inp, perm)
}

/// `perm` says where each item of `out` came from in `inp`.
pub open spec fn is_stable_sort_perm(
    out: Seq<(Seq<char>, u32, i64)>,
    inp: Seq<(Seq<char>, u32, i64)>,
    perm: Seq<int>,
) -> bool {
    &&& perm.len() == out.len()
    &&& forall|k: int| 0 <= k < perm.len() ==> 0 <= #[trigger] perm[k] < inp.len()
    &&& forall|a: int, b: int| 0 <= a < b < perm.len() ==> perm[a] != perm[b]
    &&& forall|k: int| 0 <= k < out.len() ==> #[trigger] out[k] == inp[perm[k]]
    &&& forall|a: int, b: int| 0 <= a < b < out.len() ==> out[a].1 <= out[b].1
    &&& forall|a: int, b: int| 0 <= a < b < out.len() && out[a].1 == out[b].1 ==> perm[a] < perm[b]
}

fn listed_entries(objects: &Vec<(Option<String>, Option<i64>)>) -> (r: Vec<ChunkInfo>)
    ensures
        info_views(r@) == listed_chunks(objects@),
{
    let mut out: Vec<ChunkInfo> = Vec::new();
    let mut i: usize = 0;
    while i < objects.len()
        invariant
            i <= objects@.len(),
            info_views(out@) == listed_chunks(objects@.take(i as int)),
        decreases objects@.len() - i,
    {
        let ghost prev = out@;
        proof {
            let t = objects@.take(i as int + 1);
            assert(t.drop_last() =~= objects@.take(i as int));
            assert(t.last() == objects@[i as int]);
        }
        match &objects[i].0 {
            Some(k) => match chunk_seq_from_key(k.as_str()) {
                Some(n) => {
                    let size = match objects[i].1 {
                        Some(z) => z,
                        None => 0,
                    };
                    out.push(ChunkInfo { key: k.clone(), seq: n, size });
                    assert(info_views(out@) =~= info_views(prev).push(info_view(out@[out@.len() - 1])));
                },
                None => {},
            },
            None => {},
        }
        i = i + 1;
    }
    assert(objects@.take(objects@.len() as int) =~= objects@);
    out
}

/// The chunks of a listing, ordered by sequence number (a stable sort, as
/// the listing's order breaks ties).
pub fn chunk_listing(objects: &Vec<(Option<String>, Option<i64>)>) -> (r: Vec<ChunkInfo>)
    ensures
        is_stable_sort_by_seq(info_views(r@), listed_chunks(objects@)),
{
    let mut entries = listed_entries(objects);
    let ghost inp = info_views(entries@);
    let n = entries.len();
    let mut out: Vec<ChunkInfo> = Vec::new();
    let ghost mut perm: Seq<int> = Seq::empty();
    let mut i: usize = 0;
    while entries.len() > 0
        invariant
            n == inp.len(),
            i + entries@.len() == n,
            info_views(entries@) == inp.skip(i as int),
            out@.len() == i,
            is_stable_sort_perm(info_views(out@), inp.take(i as int), perm),
        decreases entries@.len(),
    {
        let ghost ev = entries@;
        let e = entries.remove(0);
        proof {
            assert(e == ev[0]);
            assert(info_views(ev)[0] == info_view(ev[0]));
            assert(inp.skip(i as int)[0] == inp[i as int]);
            assert(info_view(e) == inp[i as int]);
            assert(entries@ =~= ev.remove(0));
            assert forall|k: int| 0 <= k < entries@.len() implies #[trigger] info_views(entries@)[k] == inp.skip(i as int + 1)[k] by {
                assert(entries@[k] == ev[k + 1]);
                assert(info_views(ev)[k + 1] == inp.skip(i as int)[k + 1]);
            }
            assert(info_views(entries@) =~= inp.skip(i as int + 1));
        }
        let mut j: usize = 0;
        while j < out.len() && out[j].seq <= e.seq
            invariant
                j <= out@.len(),
                forall|k: int| 0 <= k < j ==> #[trigger] out@[k].seq <= e.seq,
            decreases out@.len() - j,
        {
            j = j + 1;
        }
        let ghost ov = info_views(out@);
        let ghost old_perm = perm;
        proof {
            let t = inp.take(i as int);
            let t2 = inp.take(i as int + 1);
            assert forall|k: int| 0 <= k < ov.len() implies #[trigger] ov[k].1 <= e.seq || k >= j by {
            }
            assert forall|k: int| j <= k < ov.len() implies #[trigger] ov[k].1 > e.seq by {
                assert(ov[j as int].1 == out@[j as int].seq);
                if k > j {
                    assert(ov[j as int].1 <= ov[k].1);
                }
            }
            perm = old_perm.insert(j as int, i as int);
            old_perm.insert_ensures(j as int, i as int);
            ov.insert_ensures(j as int, info_view(e));
            let nv = ov.insert(j as int, info_view(e));
            assert forall|k: int| 0 <= k < t.len() implies #[trigger] t2[k] == t[k] by {}
            assert forall|k: int| 0 <= k < perm.len() implies 0 <= #[trigger] perm[k] < t2.len() by {
                if k < j {
                    assert(perm[k] == old_perm[k]);
                } else if k > j {
                    assert(perm[k] == old_perm[k - 1]);
                }
            }
            assert forall|a: int, b: int| 0 <= a < b < perm.len() implies perm[a] != perm[b] by {
                if a < j && b < j {
                } else if a < j && b == j {
                    assert(old_perm[a] < i);
                } else if a < j && b > j {
                    assert(perm[b] == old_perm[b - 1]);
                } else if a == j {
                    assert(perm[b] == old_perm[b - 1]);
                    assert(old_perm[b - 1] < i);
                } else {
                    assert(perm[a] == old_perm[a - 1]);
                    assert(perm[b] == old_perm[b - 1]);
                }
            }
            assert forall|k: int| 0 <= k < nv.len() implies #[trigger] nv[k] == t2[perm[k]] by {
                if k < j {
                    assert(nv[k] == ov[k]);
                    assert(perm[k] == old_perm[k]);
                    assert(ov[k] == t[old_perm[k]]);
                } else if k == j {
                    assert(t2[i as int] == inp[i as int]);
                } else {
                    assert(nv[k] == ov[k - 1]);
                    assert(perm[k] == old_perm[k - 1]);
                    assert(ov[k - 1] == t[old_perm[k - 1]]);
                }
            }
            assert forall|a: int, b: int| 0 <= a < b < nv.len() implies nv[a].1 <= nv[b].1 by {
                if a < j && b < j {
                    assert(nv[a] == ov[a] && nv[b] == ov[b]);
                } else if a < j && b == j {
                    assert(nv[a] == ov[a]);
                    assert(out@[a].seq <= e.seq);
                } else if a < j && b > j {
                    assert(nv[a] == ov[a] && nv[b] == ov[b - 1]);
                } else if a == j {
                    assert(nv[b] == ov[b - 1]);
                } else {
                    assert(nv[a] == ov[a - 1] && nv[b] == ov[b - 1]);
                }
            }
            assert forall|a: int, b: int| 0 <= a < b < nv.len() && nv[a].1 == nv[b].1 implies perm[a] < perm[b] by {
                if a < j && b < j {
                    assert(nv[a] == ov[a] && nv[b] == ov[b]);
                } else if a < j && b == j {
                    assert(old_perm[a] < i);
                } else if a < j && b > j {
                    assert(nv[a] == ov[a] && nv[b] == ov[b - 1]);
                    assert(ov[a].1 <= e.seq);
                } else if a == j {
                    assert(nv[b] == ov[b - 1]);
                } else {
                    assert(nv[a] == ov[a - 1] && nv[b] == ov[b - 1]);
                }
            }
        }
        out.insert(j, e);
        proof {
            assert(info_views(out@) =~= ov.insert(j as int, inp[i as int]));
        }
        i = i + 1;
    }
    proof {
        assert(inp.take(n as int) =~= inp);
    }
    out
}

proof fn lemma_file_name_after(key: Seq<char>, p: int)
    requires
        0 <= p <= key.len(),
        p > 0 ==> key[p - 1] == '/',
        forall|j: int| p <= j < key.len() ==> key[j] != '/',
    ensures
        file_name(key) == key.skip(p),
    decreases key.len(),
{
    if key.len() == 0 {
        assert(key.skip(p) =~= key);
    } else if key.len() == p {
        assert(key.last() == '/');
        assert(key.skip(p) =~= Seq::<char>::empty());
    } else {
        lemma_file_name_after(key.drop_last(), p);
        assert(key.skip(p) =~= key.drop_last().skip(p).push(key.last()));
    }
}

/// Reads the sequence number out of a listed key.
pub fn chunk_seq_from_key(key: &str) -> (r: Option<u32>)
    ensures
        r == key_seq(key@),
{
    let cs = crate::text::chars_of(key);
    let n = cs.len();
    let mut p: usize = n;
    while p > 0 && cs[p - 1] != '/'
        invariant
            n == cs@.len(),
            cs@ == key@,
            p <= n,
            forall|j: int| p <= j < n ==> cs@[j] != '/',
        decreases p,
    {
        p = p - 1;
    }
    proof {
        lemma_file_name_after(key@, p as int);
        reveal_strlit("chunk_");
        reveal_strlit(".pcm");
    }
    let ghost f = key@.skip(p as int);
    // `chunk_` then digits then `.pcm`.
    if n - p < 6 {
        return None;
    }
    if !(cs[p] == 'c' && cs[p + 1] == 'h' && cs[p + 2] == 'u' && cs[p + 3] == 'n' && cs[p + 4] == 'k'
        && cs[p + 5] == '_') {
        proof {
            assert(f.take(6) != "chunk_"@) by {
                if f.take(6) == "chunk_"@ {
                    assert(f.take(6)[0] == 'c' && f.take(6)[1] == 'h' && f.take(6)[2] == 'u');
                    assert(f.take(6)[3] == 'n' && f.take(6)[4] == 'k' && f.take(6)[5] == '_');
                }
            }
        }
        return None;
    }
    assert(f.take(6) =~= "chunk_"@);
    let ghost rest = f.skip(6);
    if n - p - 6 < 4 {
        return None;
    }
    if !(cs[n - 4] == '.' && cs[n - 3] == 'p' && cs[n - 2] == 'c' && cs[n - 1] == 'm') {
        proof {
            let t = rest.skip(rest.len() - 4);
            assert(t != ".pcm"@) by {
                if t == ".pcm"@ {
                    assert(t[0] == '.' && t[1] == 'p' && t[2] == 'c' && t[3] == 'm');
                }
            }
        }
        return None;
    }
    assert(rest.skip(rest.len() - 4) =~= ".pcm"@);
    let mut digits = String::new();
    let mut q: usize = p + 6;
    while q < n - 4
        invariant
            n == cs@.len(),
            p + 6 <= q <= n - 4,
            digits@ == cs@.subrange(p + 6, q as int),
        decreases n - 4 - q,
    {
        crate::text::push_char(&mut digits, cs[q]);
        q = q + 1;
        assert(digits@ =~= cs@.subrange(p + 6, q as int));
    }
    assert(digits@ =~= rest.take(rest.len() - 4));
    match parse_u32(digits.as_str()) {
        Ok(v) => Some(v),
        Err(_) => None,
    }
}

/// A key of the per-session layout reads back as the sequence number it
/// was made from, whatever the prefix and speaker.
pub proof fn lemma_legacy_key_round_trip(prefix: Seq<char>, pseudo_id: Seq<char>, seq: u32)
    ensures
        key_seq(legacy_chunk_key_spec(prefix, pseudo_id, seq as nat)) == Some(seq),
{
    reveal_strlit("sessions/");
    reveal_strlit("/audio/");
    reveal_strlit("/chunk_");
    reveal_strlit("chunk_");
    reveal_strlit(".pcm");
    let zp = crate::text::zero_padded(seq as int, 4);
    crate::text::lemma_zero_padded_digits(seq as nat, 4);
    let head = "sessions/"@ + prefix + "/audio/"@ + pseudo_id;
    let tail = "chunk_"@ + zp + ".pcm"@;
    let key = legacy_chunk_key_spec(prefix, pseudo_id, seq as nat);
    assert(key =~= head + seq!['/'] + tail);
    let p: int = head.len() as int + 1;
    assert forall|j: int| p <= j < key.len() implies key[j] != '/' by {
        let t = j - p;
        assert(key[j] == tail[t]);
        if 6 <= t < 6 + zp.len() {
            assert(tail[t] == zp[t - 6]);
            assert(crate::text::is_digit(zp[t - 6]));
        }
    }
    lemma_file_name_after(key, p);
    let f = file_name(key);
    assert(f =~= tail);
    assert(f.take(6) =~= "chunk_"@);
    let rest = f.skip(6);
    assert(rest =~= zp + ".pcm"@);
    assert(rest.skip(rest.len() - 4) =~= ".pcm"@);
    assert(rest.take(rest.len() - 4) =~= zp);
    crate::text::lemma_parse_zero_padded(seq as nat, 4, false, u32::MAX as int, 0);
}

/// The WAV header is always 44 bytes, and its RIFF size field is the file
/// length less the eight bytes of the RIFF tag and size.
pub proof fn lemma_wav_header_layout(data_len: nat, sample_rate: nat, channels: nat, bits_per_sample: nat)
    ensures
        wav_header(data_len, sample_rate, channels, bits_per_sample).len() == 44,
        wav_header(data_len, sample_rate, channels, bits_per_sample).subrange(4, 8) == le_bytes(
            ((44 + data_len) - 8) as nat,
            4,
        ),
        wav_header(data_len, sample_rate, channels, bits_per_sample).subrange(40, 44) == le_bytes(data_len, 4),
{
    reveal_with_fuel(le_bytes, 5);
    let h = wav_header(data_len, sample_rate, channels, bits_per_sample);
    assert(h.subrange(4, 8) =~= le_bytes(36 + data_len, 4));
    assert(h.subrange(40, 44) =~= le_bytes(data_len, 4));
}

/// Silence mixes to silence, and every speaker added to a mix contributes
/// its sample: mixing one more buffer adds its sample to the mix so far,
/// saturated to 16 bits, whatever the number of speakers before it.
pub proof fn lemma_mix_adds_every_speaker(bufs: Seq<Seq<u8>>, b: Seq<u8>, off: int)
    ensures
        mixed_sample(Seq::<Seq<u8>>::empty(), off) == 0,
        mixed_sample(bufs.push(b), off) == clamp16(mixed_sample(bufs, off) + sample_at(b, off)),
{
    assert(bufs.push(b).drop_last() =~= bufs);
}

/// The plain sum of the speakers' samples at `off`.
pub open spec fn sample_sum(bufs: Seq<Seq<u8>>, off: int) -> int
    decreases bufs.len(),
{
    if bufs.len() == 0 {
        0
    } else {
        sample_at(bufs[0], off) + sample_sum(bufs.drop_first(), off)
    }
}

proof fn lemma_sample_sum_push(bufs: Seq<Seq<u8>>, b: Seq<u8>, off: int)
    ensures
        sample_sum(bufs.push(b), off) == sample_sum(bufs, off) + sample_at(b, off),
    decreases bufs.len(),
{
    if bufs.len() > 0 {
        assert(bufs.push(b).drop_first() =~= bufs.drop_first().push(b));
        assert(bufs.push(b)[0] == bufs[0]);
        lemma_sample_sum_push(bufs.drop_first(), b, off);
    } else {
        assert(bufs.push(b).drop_first() =~= Seq::<Seq<u8>>::empty());
        assert(bufs.push(b)[0] == b);
        assert(sample_sum(Seq::<Seq<u8>>::empty(), off) == 0);
    }
}

/// When no running total leaves the 16-bit range, the mix is the exact sum
/// of every speaker's sample.
pub proof fn lemma_mix_is_sum_in_range(bufs: Seq<Seq<u8>>, off: int)
    requires
        forall|k: int| 0 <= k <= bufs.len() ==> -32768 <= #[trigger] sample_sum(bufs.take(k), off) <= 32767,
    ensures
        mixed_sample(bufs, off) == sample_sum(bufs, off),
    decreases bufs.len(),
{
    if bufs.len() > 0 {
        let init = bufs.drop_last();
        assert forall|k: int| 0 <= k <= init.len() implies -32768 <= #[trigger] sample_sum(init.take(k), off) <= 32767 by {
            assert(init.take(k) =~= bufs.take(k));
        }
        lemma_mix_is_sum_in_range(init, off);
        assert(init.push(bufs.last()) =~= bufs);
        lemma_sample_sum_push(init, bufs.last(), off);
        lemma_mix_adds_every_speaker(init, bufs.last(), off);
        assert(bufs.take(bufs.len() as int) =~= bufs);
    }
}

/// Mixing one speaker alone gives back that speaker's PCM: whole samples
/// from `start`, unchanged.
pub proof fn lemma_mix_single_speaker(b: Seq<u8>, start: int, len: int)
    requires
        0 <= start,
        0 <= len,
        start + len <= b.len(),
    ensures
        mixed_pcm(seq![b], start, len) == b.subrange(start, start + (len / 2) * 2),
{
    let bufs = seq![b];
    let m = mixed_pcm(bufs, start, len);
    let want = b.subrange(start, start + (len / 2) * 2);
    assert forall|k: int| 0 <= k < m.len() implies #[trigger] m[k] == want[k] by {
        let off = start + (k / 2) * 2;
        assert(bufs.drop_last() =~= Seq::<Seq<u8>>::empty());
        assert(bufs.last() == b);
        assert(mixed_sample(bufs.drop_last(), off) == 0);
        let lo = b[off] as int;
        let hi = b[off + 1] as int;
        let v = lo + 256 * hi;
        let x = sample_at(b, off);
        assert(mixed_sample(bufs, off) == clamp16(0 + x));
        assert(-32768 <= x <= 32767);
        let u = if x < 0 { x + 65536 } else { x };
        assert(u == v);
        assert(u % 256 == lo && u / 256 == hi) by (nonlinear_arith)
            requires
                u == lo + 256 * hi,
                0 <= lo < 256,
                0 <= hi < 256,
        ;
        if k % 2 == 0 {
            assert(off == start + k);
        } else {
            assert(off + 1 == start + k);
        }
    }
    assert(m =~= want);
}

} // verus!

//! The frame extractor: finds checksum-valid RTCM 3 frames in a byte stream
//! that arrives in arbitrary chunks, and bounds what it keeps between calls.
//!
//! A frame is the preamble byte `0xD3`, two bytes whose low 10 bits give the
//! payload length `L`, `L` payload bytes, and the three big-endian bytes of
//! the CRC-24Q of everything before them.

use crate::crc::{crc24q, crc24q_of};
use vstd::prelude::*;
use vstd::slice::{slice_subrange, slice_to_vec};

verus! {

/// The byte that opens every frame.
pub const RTCM_MAGIC: u8 = 0xD3;

/// Largest payload that the 10-bit length can announce.
pub const RTCM_MAX_PAYLOAD: usize = 1023;

/// How many bytes an extractor keeps between calls unless told otherwise.
pub const DEFAULT_MAX_SIZE: usize = 10000;

/// The payload length announced by a preamble at `i`: the low 10 bits of
/// the two bytes after it.
pub open spec fn payload_len_at(buf: Seq<u8>, i: int) -> int {
    (buf[i + 1] % 4) * 256 + buf[i + 2]
}

/// Where a frame whose preamble is at `i` ends (exclusive).
pub open spec fn frame_end(buf: Seq<u8>, i: int) -> int {
    i + 6 + payload_len_at(buf, i)
}

/// The 24-bit big-endian number held by the three bytes at `j`.
pub open spec fn be24_at(buf: Seq<u8>, j: int) -> int {
    buf[j] * 65536 + buf[j + 1] * 256 + buf[j + 2]
}

/// Whether the candidate frame at `i`, complete in `buf`, carries the
/// checksum of its preamble, length and payload.
pub open spec fn checksum_ok(buf: Seq<u8>, i: int) -> bool {
    crc24q_of(buf.subrange(i, frame_end(buf, i) - 3)) == be24_at(buf, frame_end(buf, i) - 3)
}

/// Whether `f` is one whole, checksum-valid frame.
pub open spec fn is_frame(f: Seq<u8>) -> bool {
    &&& f.len() >= 6
    &&& f[0] == RTCM_MAGIC
    &&& f.len() == frame_end(f, 0)
    &&& checksum_ok(f, 0)
}

/// The scan from position `i`, with the drain point `drain` so far: the
/// frames found, in order, and the final drain point (the end of the last
/// frame found). The scan stops at the first preamble whose announced frame
/// is not complete yet.
pub open spec fn scan(buf: Seq<u8>, i: int, drain: int) -> (Seq<Seq<u8>>, int)
    decreases buf.len() - i,
{
    if i < 0 || i + 6 > buf.len() {
        (Seq::empty(), drain)
    } else if buf[i] != RTCM_MAGIC {
        scan(buf, i + 1, drain)
    } else if frame_end(buf, i) > buf.len() {
        (Seq::empty(), drain)
    } else if checksum_ok(buf, i) {
        let rest = scan(buf, frame_end(buf, i), frame_end(buf, i));
        (seq![buf.subrange(i, frame_end(buf, i))] + rest.0, rest.1)
    } else {
        scan(buf, i + 1, drain)
    }
}

/// Where the retained buffer starts after a scan of `len` bytes that
/// drained up to `drain`, with at most `max` bytes kept.
pub open spec fn keep_from(len: int, drain: int, max: int) -> int {
    if len - drain > max {
        len - max
    } else {
        drain
    }
}

/// One extraction over the whole buffer `buf`: the frames found and the
/// bytes retained for the next call.
pub open spec fn extract(buf: Seq<u8>, max: int) -> (Seq<Seq<u8>>, Seq<u8>) {
    let s = scan(buf, 0, 0);
    (s.0, buf.subrange(keep_from(buf.len() as int, s.1, max), buf.len() as int))
}

/// The byte strings of a list of frames.
pub open spec fn frames_view(v: Seq<Vec<u8>>) -> Seq<Seq<u8>> {
    v.map_values(|f: Vec<u8>| f@)
}

/// Frame extractor: the bytes kept from earlier input, and how many of them
/// it may keep.
pub struct RtcmParser {
    buffer: Vec<u8>,
    max_size: usize,
}

impl RtcmParser {
    /// The bytes retained from earlier calls.
    pub closed spec fn retained(&self) -> Seq<u8> {
        self.buffer@
    }

    /// The most bytes retained between calls.
    pub closed spec fn limit(&self) -> nat {
        self.max_size as nat
    }

    /// An extractor with an empty buffer that keeps at most 10,000 bytes.
    pub fn new() -> (r: Self)
        ensures
            r.retained() == Seq::<u8>::empty(),
            r.limit() == DEFAULT_MAX_SIZE,
    {
        RtcmParser { buffer: Vec::new(), max_size: DEFAULT_MAX_SIZE }
    }

    /// An extractor with an empty buffer that keeps at most `max_size` bytes.
    pub fn with_max_size(max_size: usize) -> (r: Self)
        ensures
            r.retained() == Seq::<u8>::empty(),
            r.limit() == max_size,
    {
        RtcmParser { buffer: Vec::new(), max_size }
    }

    /// The bytes retained from earlier calls.
    pub fn buffered(&self) -> (r: &[u8])
        ensures
            r@ == self.retained(),
    {
        self.buffer.as_slice()
    }

    /// The most bytes retained between calls.
    pub fn max_size(&self) -> (r: usize)
        ensures
            r == self.limit(),
    {
        self.max_size
    }

    /// Appends `input` to the retained bytes, returns every checksum-valid
    /// frame found in them, in stream order, and keeps only the bytes after
    /// the last frame found, or the last `max_size` bytes if those are fewer.
    pub fn parse(&mut self, input: &[u8]) -> (r: Vec<Vec<u8>>)
        requires
            old(self).retained().len() + input@.len() <= usize::MAX,
        ensures
            (frames_view(r@), final(self).retained()) == extract(
                old(self).retained() + input@,
                old(self).limit() as int,
            ),
            final(self).limit() == old(self).limit(),
            final(self).retained().len() <= final(self).limit(),
            forall|k: int| 0 <= k < r@.len() ==> is_frame(#[trigger] r@[k]@),
    {
        let ghost start = self.buffer@;
        let ghost max0 = self.max_size;
        let mut k: usize = 0;
        while k < input.len()
            invariant
                self.max_size == max0,
                start.len() + input@.len() <= usize::MAX,
                k <= input@.len(),
                self.buffer@ == start + input@.take(k as int),
            decreases input@.len() - k,
        {
            self.buffer.push(input[k]);
            k = k + 1;
            proof {
                assert(self.buffer@ =~= start + input@.take(k as int));
            }
        }
        proof {
            assert(input@.take(k as int) =~= input@);
        }
        let ghost buf = self.buffer@;
        let len = self.buffer.len();
        let mut result: Vec<Vec<u8>> = Vec::new();
        let mut drain: usize = 0;
        let mut i: usize = 0;
        let mut stopped = false;
        proof {
            lemma_scan_frames_valid(buf, 0, 0);
        }
        while !stopped && i < len && len - i >= 6
            invariant
                self.max_size == max0,
                buf == self.buffer@,
                len == buf.len(),
                drain <= len,
                i <= len,
                frames_view(result@) + scan(buf, i as int, drain as int).0 == scan(buf, 0, 0).0,
                scan(buf, i as int, drain as int).1 == scan(buf, 0, 0).1,
                stopped ==> scan(buf, i as int, drain as int) == (
                Seq::<Seq<u8>>::empty(),
                drain as int,
                ),
            decreases len - i + if stopped {
                0int
            } else {
                1int
            },
        {
            if self.buffer[i] != RTCM_MAGIC {
                i = i + 1;
            } else {
                let l = ((self.buffer[i + 1] % 4) as usize) * 256 + self.buffer[i + 2] as usize;
                if l > len - i - 6 {
                    stopped = true;
                } else {
                    let end = i + 6 + l;
                    let body = slice_subrange(self.buffer.as_slice(), i, end - 3);
                    let c = crc24q(body);
                    let given = (self.buffer[end - 3] as u64) * 65536 + (self.buffer[end - 2] as u64)
                        * 256 + self.buffer[end - 1] as u64;
                    if c == given {
                        let frame = slice_to_vec(slice_subrange(self.buffer.as_slice(), i, end));
                        let ghost prev = result@;
                        result.push(frame);
                        proof {
                            assert(frames_view(result@) =~= frames_view(prev).push(
                                buf.subrange(i as int, end as int),
                            ));
                            let rest = scan(buf, end as int, end as int);
                            assert(seq![buf.subrange(i as int, end as int)] + rest.0 =~= seq![
                                buf.subrange(i as int, end as int)] + rest.0);
                            assert(frames_view(prev) + (seq![buf.subrange(i as int, end as int)]
                                + rest.0) =~= frames_view(result@) + rest.0);
                        }
                        drain = end;
                        i = end;
                    } else {
                        i = i + 1;
                    }
                }
            }
        }
        proof {
            assert(frames_view(result@) =~= scan(buf, 0, 0).0);
            assert forall|k: int| 0 <= k < result@.len() implies is_frame(#[trigger] result@[k]@) by {
                assert(frames_view(result@)[k] == result@[k]@);
            }
        }
        if len - drain > self.max_size {
            drain = len - self.max_size;
        }
        self.buffer = slice_to_vec(slice_subrange(self.buffer.as_slice(), drain, len));
        result
    }
}

/// Every frame that a scan finds is a whole, checksum-valid frame.
pub proof fn lemma_scan_frames_valid(buf: Seq<u8>, i: int, drain: int)
    ensures
        forall|k: int|
            0 <= k < scan(buf, i, drain).0.len() ==> is_frame(#[trigger] scan(buf, i, drain).0[k]),
    decreases buf.len() - i,
{
    if i < 0 || i + 6 > buf.len() {
    } else if buf[i] != RTCM_MAGIC {
        lemma_scan_frames_valid(buf, i + 1, drain);
        assert(scan(buf, i, drain) == scan(buf, i + 1, drain));
    } else if frame_end(buf, i) > buf.len() {
    } else if checksum_ok(buf, i) {
        let e = frame_end(buf, i);
        lemma_scan_frames_valid(buf, e, e);
        let f = buf.subrange(i, e);
        assert(f.subrange(0, frame_end(f, 0) - 3) =~= buf.subrange(i, e - 3));
        assert(is_frame(f));
        let rest = scan(buf, e, e);
        assert forall|k: int| 0 <= k < scan(buf, i, drain).0.len() implies is_frame(
            #[trigger] scan(buf, i, drain).0[k],
        ) by {
            if k > 0 {
                assert(scan(buf, i, drain).0[k] == rest.0[k - 1]);
            }
        }
    } else {
        lemma_scan_frames_valid(buf, i + 1, drain);
        assert(scan(buf, i, drain) == scan(buf, i + 1, drain));
    }
}

/// The frame that carries `payload`: preamble, length, payload and the
/// three bytes of the checksum of all of those.
pub open spec fn frame_of(payload: Seq<u8>) -> Seq<u8> {
    let head = seq![RTCM_MAGIC, (payload.len() / 256) as u8, (payload.len() % 256) as u8] + payload;
    let c = crc24q_of(head);
    head + seq![(c / 65536) as u8, ((c / 256) % 256) as u8, (c % 256) as u8]
}

/// Builds the frame that carries `payload`, or `None` when the payload is
/// longer than the 10-bit length field can announce.
pub fn build_frame(payload: &[u8]) -> (r: Option<Vec<u8>>)
    ensures
        r is Some <==> payload@.len() <= RTCM_MAX_PAYLOAD,
        r matches Some(f) ==> f@ == frame_of(payload@) && is_frame(f@),
{
    if payload.len() > RTCM_MAX_PAYLOAD {
        return None;
    }
    let n = payload.len();
    let mut out: Vec<u8> = Vec::new();
    out.push(RTCM_MAGIC);
    out.push((n / 256) as u8);
    out.push((n % 256) as u8);
    let ghost head0 = out@;
    let mut k: usize = 0;
    while k < n
        invariant
            n == payload@.len() <= RTCM_MAX_PAYLOAD,
            k <= n,
            out@ == head0 + payload@.take(k as int),
        decreases n - k,
    {
        out.push(payload[k]);
        k = k + 1;
        proof {
            assert(out@ =~= head0 + payload@.take(k as int));
        }
    }
    proof {
        assert(payload@.take(k as int) =~= payload@);
    }
    let ghost head = out@;
    assert(head =~= seq![RTCM_MAGIC, (n / 256) as u8, (n % 256) as u8] + payload@);
    let c = crc24q(out.as_slice());
    out.push((c / 65536) as u8);
    out.push(((c / 256) % 256) as u8);
    out.push((c % 256) as u8);
    proof {
        let f = out@;
        assert(f =~= head + seq![(c / 65536) as u8, ((c / 256) % 256) as u8, (c % 256) as u8]);
        assert(f =~= frame_of(payload@));
        assert(payload_len_at(f, 0) == n);
        assert(f.subrange(0, frame_end(f, 0) - 3) =~= head);
    }
    Some(out)
}

/// A lone valid frame is extracted whole, and nothing of it is retained.
pub proof fn lemma_single_frame(f: Seq<u8>, max: int)
    requires
        is_frame(f),
        max >= 0,
    ensures
        extract(f, max) == (seq![f], Seq::<u8>::empty()),
{
    assert(f.subrange(0, frame_end(f, 0)) =~= f);
    assert(scan(f, f.len() as int, f.len() as int) == (Seq::<Seq<u8>>::empty(), f.len() as int));
    assert(scan(f, 0, 0) == (seq![f] + Seq::<Seq<u8>>::empty(), f.len() as int));
    assert(seq![f] + Seq::<Seq<u8>>::empty() =~= seq![f]);
    assert(f.subrange(f.len() as int, f.len() as int) =~= Seq::<u8>::empty());
}

/// A complete, checksum-valid frame at `s` is found by a scan from any
/// earlier position `i`, whatever bytes precede it, provided that each
/// preamble byte between `i` and `s` announces a frame that is complete in
/// the buffer, and that none of those which check out runs past `s`.
pub proof fn lemma_resync(buf: Seq<u8>, s: int, i: int, drain: int)
    requires
        0 <= i <= s,
        s + 6 <= buf.len(),
        buf[s] == RTCM_MAGIC,
        frame_end(buf, s) <= buf.len(),
        checksum_ok(buf, s),
        forall|j: int|
            i <= j < s && #[trigger] buf[j] == RTCM_MAGIC ==> frame_end(buf, j) <= buf.len() && (
            checksum_ok(buf, j) ==> frame_end(buf, j) <= s),
    ensures
        exists|k: int|
            0 <= k < scan(buf, i, drain).0.len() && #[trigger] scan(buf, i, drain).0[k]
                == buf.subrange(s, frame_end(buf, s)),
    decreases s - i,
{
    let target = buf.subrange(s, frame_end(buf, s));
    if i == s {
        assert(scan(buf, i, drain).0[0] == target);
    } else if buf[i] != RTCM_MAGIC {
        lemma_resync(buf, s, i + 1, drain);
        assert(scan(buf, i, drain) == scan(buf, i + 1, drain));
    } else if checksum_ok(buf, i) {
        let e = frame_end(buf, i);
        lemma_resync(buf, s, e, e);
        let rest = scan(buf, e, e).0;
        let k = choose|k: int| 0 <= k < rest.len() && #[trigger] rest[k] == target;
        assert(scan(buf, i, drain).0[k + 1] == target);
    } else {
        lemma_resync(buf, s, i + 1, drain);
        assert(scan(buf, i, drain) == scan(buf, i + 1, drain));
    }
}

} // verus!

//! Laws of the frame extractor over a stream that arrives in pieces: how a
//! scan behaves when bytes are appended, or when a prefix is dropped, and
//! why chunking does not change the frames found.

use crate::framing::{checksum_ok, extract, frame_end, keep_from, scan, RTCM_MAGIC};
use vstd::prelude::*;

verus! {

/// Where a scan from `i` stops: the first preamble whose announced frame is
/// incomplete, or the first position with fewer than six bytes after it.
pub open spec fn scan_stop(buf: Seq<u8>, i: int) -> int
    decreases buf.len() - i,
{
    if i < 0 || i + 6 > buf.len() {
        i
    } else if buf[i] != RTCM_MAGIC {
        scan_stop(buf, i + 1)
    } else if frame_end(buf, i) > buf.len() {
        i
    } else if checksum_ok(buf, i) {
        scan_stop(buf, frame_end(buf, i))
    } else {
        scan_stop(buf, i + 1)
    }
}

/// The frames that a scan finds do not depend on the drain point it starts
/// with; its final drain point is the starting one when it finds none.
pub proof fn lemma_scan_drain(buf: Seq<u8>, i: int, d1: int, d2: int)
    ensures
        scan(buf, i, d1).0 == scan(buf, i, d2).0,
        scan(buf, i, d1).0.len() > 0 ==> scan(buf, i, d1).1 == scan(buf, i, d2).1,
        scan(buf, i, d1).0.len() == 0 ==> scan(buf, i, d1).1 == d1,
        0 <= d1 <= buf.len() ==> 0 <= scan(buf, i, d1).1 <= buf.len(),
    decreases buf.len() - i,
{
    if i < 0 || i + 6 > buf.len() {
    } else if buf[i] != RTCM_MAGIC {
        lemma_scan_drain(buf, i + 1, d1, d2);
    } else if frame_end(buf, i) > buf.len() {
    } else if checksum_ok(buf, i) {
        let e = frame_end(buf, i);
        lemma_scan_drain(buf, e, e, e);
    } else {
        lemma_scan_drain(buf, i + 1, d1, d2);
    }
}

/// Appending bytes does not change what a scan decides before the point
/// where it stopped: the scan of the longer buffer finds the same frames,
/// then goes on from that point.
pub proof fn lemma_scan_extend(buf: Seq<u8>, x: Seq<u8>, i: int, d: int)
    requires
        0 <= i,
    ensures
        scan(buf + x, i, d) == (
            scan(buf, i, d).0 + scan(buf + x, scan_stop(buf, i), scan(buf, i, d).1).0,
            scan(buf + x, scan_stop(buf, i), scan(buf, i, d).1).1,
        ),
    decreases buf.len() - i,
{
    let bx = buf + x;
    if i + 6 > buf.len() {
        assert(Seq::<Seq<u8>>::empty() + scan(bx, i, d).0 =~= scan(bx, i, d).0);
    } else {
        assert(bx[i] == buf[i] && bx[i + 1] == buf[i + 1] && bx[i + 2] == buf[i + 2]);
        if buf[i] != RTCM_MAGIC {
            lemma_scan_extend(buf, x, i + 1, d);
        } else if frame_end(buf, i) > buf.len() {
            assert(Seq::<Seq<u8>>::empty() + scan(bx, i, d).0 =~= scan(bx, i, d).0);
        } else {
            let e = frame_end(buf, i);
            assert(bx.subrange(i, e - 3) =~= buf.subrange(i, e - 3));
            assert(bx[e - 3] == buf[e - 3] && bx[e - 2] == buf[e - 2] && bx[e - 1] == buf[e - 1]);
            if checksum_ok(buf, i) {
                lemma_scan_extend(buf, x, e, e);
                assert(bx.subrange(i, e) =~= buf.subrange(i, e));
                let t = scan_stop(buf, e);
                let d1 = scan(buf, e, e).1;
                assert(seq![buf.subrange(i, e)] + (scan(buf, e, e).0 + scan(bx, t, d1).0) =~= (
                seq![buf.subrange(i, e)] + scan(buf, e, e).0) + scan(bx, t, d1).0);
            } else {
                lemma_scan_extend(buf, x, i + 1, d);
            }
        }
    }
}

/// Dropping the first `k` bytes shifts a scan that starts at or after `k`:
/// the same frames, and every position `k` smaller.
pub proof fn lemma_scan_shift(buf: Seq<u8>, k: int, i: int, d: int)
    requires
        0 <= k <= i,
        k <= buf.len(),
    ensures
        scan(buf.skip(k), i - k, d - k) == (scan(buf, i, d).0, scan(buf, i, d).1 - k),
    decreases buf.len() - i,
{
    let bs = buf.skip(k);
    let j = i - k;
    if i + 6 > buf.len() {
    } else {
        assert(bs[j] == buf[i] && bs[j + 1] == buf[i + 1] && bs[j + 2] == buf[i + 2]);
        if buf[i] != RTCM_MAGIC {
            lemma_scan_shift(buf, k, i + 1, d);
        } else if frame_end(buf, i) > buf.len() {
        } else {
            let e = frame_end(buf, i);
            assert(frame_end(bs, j) == e - k);
            assert(bs.subrange(j, e - k - 3) =~= buf.subrange(i, e - 3));
            assert(bs[e - k - 3] == buf[e - 3] && bs[e - k - 2] == buf[e - 2] && bs[e - k - 1]
                == buf[e - 1]);
            if checksum_ok(buf, i) {
                lemma_scan_shift(buf, k, e, e);
                assert(bs.subrange(j, e - k) =~= buf.subrange(i, e));
            } else {
                lemma_scan_shift(buf, k, i + 1, d);
            }
        }
    }
}

/// After its last frame, a scan finds nothing more and stops where the
/// whole scan stopped.
pub proof fn lemma_scan_quiet(buf: Seq<u8>, i: int, d: int)
    requires
        0 <= i,
    ensures
        scan(buf, i, d).0.len() > 0 ==> {
            let last = scan(buf, i, d).1;
            &&& scan(buf, last, last).0.len() == 0
            &&& scan_stop(buf, last) == scan_stop(buf, i)
        },
    decreases buf.len() - i,
{
    if i + 6 > buf.len() {
    } else if buf[i] != RTCM_MAGIC {
        lemma_scan_quiet(buf, i + 1, d);
    } else if frame_end(buf, i) > buf.len() {
    } else if checksum_ok(buf, i) {
        let e = frame_end(buf, i);
        lemma_scan_drain(buf, e, e, e);
        lemma_scan_quiet(buf, e, e);
    } else {
        lemma_scan_quiet(buf, i + 1, d);
    }
}

/// Feeding `a` and then `b` to an extractor that holds `st` gives the same
/// frames, in the same order, and leaves the same bytes retained, as feeding
/// `a + b` at once, provided that the retained bytes and `a` together fit
/// within the bound `max` (so that the first call drops no unscanned byte).
pub proof fn lemma_chunking(st: Seq<u8>, a: Seq<u8>, b: Seq<u8>, max: int)
    requires
        0 <= max,
        st.len() + a.len() <= max,
    ensures
        ({
            let first = extract(st + a, max);
            let second = extract(first.1 + b, max);
            extract(st + a + b, max) == (first.0 + second.0, second.1)
        }),
{
    let buf1 = st + a;
    let bufc = buf1 + b;
    let s1 = scan(buf1, 0, 0);
    let d1 = s1.1;
    let t = scan_stop(buf1, 0);
    lemma_scan_drain(buf1, 0, 0, 0);
    assert(keep_from(buf1.len() as int, d1, max) == d1);
    let st1 = buf1.subrange(d1, buf1.len() as int);
    let buf2 = st1 + b;
    assert(buf2 =~= bufc.skip(d1));
    lemma_scan_extend(buf1, b, 0, 0);
    lemma_scan_shift(bufc, d1, d1, d1);
    if s1.0.len() > 0 {
        lemma_scan_quiet(buf1, 0, 0);
        lemma_scan_drain(buf1, d1, d1, d1);
        lemma_scan_extend(buf1, b, d1, d1);
        assert(Seq::<Seq<u8>>::empty() + scan(bufc, t, d1).0 =~= scan(bufc, t, d1).0);
    } else {
        assert(Seq::<Seq<u8>>::empty() + scan(bufc, t, d1).0 =~= scan(bufc, t, d1).0);
    }
    assert(scan(bufc, d1, d1) == scan(bufc, t, d1));
    let s2 = scan(buf2, 0, 0);
    let sc = scan(bufc, 0, 0);
    assert(s2.0 == scan(bufc, t, d1).0);
    assert(s2.1 == sc.1 - d1);
    let k2 = keep_from(buf2.len() as int, s2.1, max);
    let kc = keep_from(bufc.len() as int, sc.1, max);
    lemma_scan_drain(buf2, 0, 0, 0);
    lemma_scan_drain(bufc, 0, 0, 0);
    assert(buf2.len() == bufc.len() - d1);
    assert(k2 == kc - d1);
    assert(buf2.subrange(k2, buf2.len() as int) =~= bufc.subrange(kc, bufc.len() as int));
}

/// Feeding `input` one byte per call to an extractor that holds `st`: the
/// frames of all the calls, and the bytes retained after the last one.
pub open spec fn feed_bytewise(st: Seq<u8>, input: Seq<u8>, max: int) -> (Seq<Seq<u8>>, Seq<u8>)
    decreases input.len(),
{
    if input.len() == 0 {
        (Seq::empty(), st)
    } else {
        let first = extract(st + seq![input[0]], max);
        let rest = feed_bytewise(first.1, input.skip(1), max);
        (first.0 + rest.0, rest.1)
    }
}

/// Feeding a non-empty input one byte at a time finds the same frames and
/// leaves the same bytes retained as feeding it in one call, as long as the
/// retained bytes and the input fit within the bound.
pub proof fn lemma_bytewise(st: Seq<u8>, input: Seq<u8>, max: int)
    requires
        0 <= max,
        input.len() > 0,
        st.len() + input.len() <= max,
    ensures
        feed_bytewise(st, input, max) == extract(st + input, max),
    decreases input.len(),
{
    let x = seq![input[0]];
    let rest = input.skip(1);
    let first = extract(st + x, max);
    assert(st + input =~= st + x + rest);
    if rest.len() == 0 {
        assert(st + x =~= st + input);
        assert(first.0 + Seq::<Seq<u8>>::empty() =~= first.0);
        assert(feed_bytewise(first.1, rest, max) == (Seq::<Seq<u8>>::empty(), first.1));
    } else {
        lemma_chunking(st, x, rest, max);
        lemma_scan_drain(st + x, 0, 0, 0);
        assert(first.1.len() <= (st + x).len());
        lemma_bytewise(first.1, rest, max);
    }
}

} // verus!

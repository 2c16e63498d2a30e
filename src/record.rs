//! Fixed-layout records: the `Record` trait that ties a struct to its layout
//! table, and the generic reading and writing of one record, of a counted run
//! of records, and of byte-alignment padding.

use crate::bits::{bit_at, bits_to_nat, bytes_to_bits, lemma_bits_nat_round_trip};
use crate::error::{DecodeError, EncodeError};
use crate::fields::{
    layout_wf, layout_width, lemma_fields_round_trip, pow2_u128, push_field, read_field,
    read_fields, values_fit, write_fields, Field,
};
use vstd::arithmetic::mul::*;
use vstd::arithmetic::power2::*;
use vstd::prelude::*;

verus! {

/// A struct whose fields are read and written, in order, by a layout table.
pub trait Record: Sized {
    /// The layout table of the struct.
    spec fn spec_layout() -> Seq<Field>;

    /// The struct's field values, in layout order.
    spec fn values(&self) -> Seq<i128>;

    proof fn lemma_layout_wf()
        ensures
            layout_wf(Self::spec_layout()),
    ;

    fn layout() -> (r: Vec<Field>)
        ensures
            r@ == Self::spec_layout(),
    ;

    fn from_values(v: &Vec<i128>) -> (r: Self)
        requires
            values_fit(Self::spec_layout(), v@),
        ensures
            r.values() == v@,
    ;

    fn to_values(&self) -> (r: Vec<i128>)
        ensures
            r@ == self.values(),
    ;
}

/// The field values of each record of `s`.
pub open spec fn values_of<R: Record>(s: Seq<R>) -> Seq<Seq<i128>> {
    s.map_values(|r: R| r.values())
}

/// Whether each record of `recs` fits the layout.
pub open spec fn records_fit(layout: Seq<Field>, recs: Seq<Seq<i128>>) -> bool {
    forall|i: int| 0 <= i < recs.len() ==> values_fit(layout, #[trigger] recs[i])
}

/// `n` consecutive records of `layout` from bit `pos`, if all of them are there.
pub open spec fn records_at(bits: Seq<bool>, pos: int, layout: Seq<Field>, n: nat) -> Option<
    Seq<Seq<i128>>,
> {
    let w = layout_width(layout);
    if 0 <= pos && pos + n * w <= bits.len() {
        Some(Seq::new(n, |i: int| read_fields(layout, bits.subrange(pos + i * w, pos + i * w + w))))
    } else {
        None
    }
}

/// The bits of consecutive records.
pub open spec fn write_records(layout: Seq<Field>, recs: Seq<Seq<i128>>) -> Seq<bool>
    decreases recs.len(),
{
    if recs.len() == 0 {
        Seq::empty()
    } else {
        write_records(layout, recs.drop_last()) + write_fields(layout, recs.last())
    }
}

/// Number of padding bits that follow bit `pos` of a payload of `len` bits.
pub open spec fn padding_len(len: int, pos: int) -> int {
    (len - pos) % 8
}

pub proof fn lemma_layout_width_prefix(layout: Seq<Field>, k: int)
    requires
        0 <= k <= layout.len(),
    ensures
        layout_width(layout.take(k)) <= layout_width(layout),
    decreases layout.len(),
{
    if k < layout.len() {
        assert(layout.drop_last().take(k) =~= layout.take(k));
        lemma_layout_width_prefix(layout.drop_last(), k);
    } else {
        assert(layout.take(k) =~= layout);
    }
}

/// Reads one record of `layout` at bit `pos`.
pub fn read_record(data: &[u8], pos: usize, layout: &Vec<Field>) -> (r: Result<
    (Vec<i128>, usize),
    DecodeError,
>)
    requires
        layout_wf(layout@),
        8 * data@.len() <= usize::MAX,
        pos <= 8 * data@.len(),
    ensures
        match r {
            Ok((v, p)) => {
                &&& record_values_at(bytes_to_bits(data@), pos as int, layout@) == Some(v@)
                &&& p == pos + layout_width(layout@)
                &&& values_fit(layout@, v@)
            },
            Err(e) => {
                &&& record_values_at(bytes_to_bits(data@), pos as int, layout@) is None
                &&& e == DecodeError::Incomplete
            },
        },
{
    let ghost bits = bytes_to_bits(data@);
    let total = 8 * data.len();
    let mut vals: Vec<i128> = Vec::new();
    let mut p = pos;
    let mut i: usize = 0;
    proof {
        assert(layout@.take(0) =~= Seq::<Field>::empty());
        assert(vals@ =~= read_fields(layout@.take(0), bits.subrange(pos as int, pos as int)));
    }
    while i < layout.len()
        invariant
            layout_wf(layout@),
            8 * data@.len() <= usize::MAX,
            total == 8 * data@.len(),
            bits == bytes_to_bits(data@),
            i <= layout@.len(),
            pos <= p <= total,
            p == pos + layout_width(layout@.take(i as int)),
            vals@ == read_fields(layout@.take(i as int), bits.subrange(pos as int, p as int)),
            values_fit(layout@.take(i as int), vals@),
        decreases layout@.len() - i,
    {
        let f = layout[i];
        assert(f.wf());
        proof {
            assert(layout@.take(i + 1).drop_last() =~= layout@.take(i as int));
        }
        if f.width as usize > total - p {
            proof {
                lemma_layout_width_prefix(layout@, i + 1);
            }
            return Err(DecodeError::Incomplete);
        }
        let v = read_field(data, p, f);
        proof {
            let l1 = layout@.take(i + 1);
            let q = p + f.width;
            let s = bits.subrange(pos as int, q);
            assert(s.take(p - pos) =~= bits.subrange(pos as int, p as int));
            assert(s.subrange(p - pos, q - pos) =~= bits.subrange(p as int, q));
            assert(l1.last() == f);
        }
        vals.push(v);
        p = p + f.width as usize;
        i = i + 1;
        proof {
            assert(values_fit(layout@.take(i as int), vals@)) by {
                assert forall|k: int| 0 <= k < i implies #[trigger] layout@.take(i as int)[k].fits(
                    vals@[k] as int,
                ) by {
                    if k < i - 1 {
                        assert(layout@.take(i - 1)[k] == layout@.take(i as int)[k]);
                    }
                }
            }
        }
    }
    proof {
        assert(layout@.take(i as int) =~= layout@);
    }
    Ok((vals, p))
}

/// The values of the record of `layout` at bit `pos`, if all of it is there.
pub open spec fn record_values_at(bits: Seq<bool>, pos: int, layout: Seq<Field>) -> Option<
    Seq<i128>,
> {
    if 0 <= pos && pos + layout_width(layout) <= bits.len() {
        Some(read_fields(layout, bits.subrange(pos, pos + layout_width(layout))))
    } else {
        None
    }
}

/// Reads one record of type `R` at bit `pos`.
pub fn read_one<R: Record>(data: &[u8], pos: usize) -> (r: Result<(R, usize), DecodeError>)
    requires
        8 * data@.len() <= usize::MAX,
        pos <= 8 * data@.len(),
    ensures
        match r {
            Ok((rec, p)) => {
                &&& record_values_at(bytes_to_bits(data@), pos as int, R::spec_layout()) == Some(
                    rec.values(),
                )
                &&& p == pos + layout_width(R::spec_layout())
            },
            Err(e) => {
                &&& record_values_at(bytes_to_bits(data@), pos as int, R::spec_layout()) is None
                &&& e == DecodeError::Incomplete
            },
        },
{
    let layout = R::layout();
    proof {
        R::lemma_layout_wf();
    }
    match read_record(data, pos, &layout) {
        Ok((v, p)) => Ok((R::from_values(&v), p)),
        Err(e) => Err(e),
    }
}

/// Reads `n` consecutive records of type `R` from bit `pos`.
pub fn read_many<R: Record>(data: &[u8], pos: usize, n: usize) -> (r: Result<
    (Vec<R>, usize),
    DecodeError,
>)
    requires
        8 * data@.len() <= usize::MAX,
        pos <= 8 * data@.len(),
    ensures
        match r {
            Ok((recs, p)) => {
                &&& records_at(bytes_to_bits(data@), pos as int, R::spec_layout(), n as nat) == Some(
                    values_of(recs@),
                )
                &&& p == pos + n * layout_width(R::spec_layout())
            },
            Err(e) => {
                &&& records_at(bytes_to_bits(data@), pos as int, R::spec_layout(), n as nat) is None
                &&& e == DecodeError::Incomplete
            },
        },
{
    let ghost bits = bytes_to_bits(data@);
    let ghost w = layout_width(R::spec_layout());
    let mut out: Vec<R> = Vec::new();
    let mut p = pos;
    let mut i: usize = 0;
    while i < n
        invariant
            8 * data@.len() <= usize::MAX,
            bits == bytes_to_bits(data@),
            w == layout_width(R::spec_layout()),
            i <= n,
            out@.len() == i,
            p == pos + i * w,
            pos <= p <= 8 * data@.len(),
            forall|k: int|
                0 <= k < i ==> (#[trigger] out@[k]).values() == read_fields(
                    R::spec_layout(),
                    bits.subrange(pos + k * w, pos + k * w + w),
                ),
        decreases n - i,
    {
        match read_one::<R>(data, p) {
            Ok((rec, q)) => {
                proof {
                    lemma_mul_is_distributive_add_other_way(w as int, i as int, 1);
                }
                out.push(rec);
                p = q;
                i = i + 1;
            },
            Err(e) => {
                proof {
                    lemma_mul_is_distributive_add_other_way(w as int, i as int, 1);
                    lemma_mul_inequality(i + 1, n as int, w as int);
                }
                return Err(e);
            },
        }
    }
    proof {
        let recs = Seq::new(
            n as nat,
            |k: int| read_fields(R::spec_layout(), bits.subrange(pos + k * w, pos + k * w + w)),
        );
        assert(values_of(out@) =~= recs);
    }
    Ok((out, p))
}

/// Reads the padding that follows bit `pos`: as many bits as bring the
/// payload to a whole number of bytes from its end.
pub fn read_padding(data: &[u8], pos: usize) -> (r: (Vec<bool>, usize))
    requires
        8 * data@.len() <= usize::MAX,
        pos <= 8 * data@.len(),
    ensures
        r.1 == pos + padding_len((8 * data@.len()) as int, pos as int),
        r.0@ == bytes_to_bits(data@).subrange(pos as int, r.1 as int),
{
    let total = 8 * data.len();
    let n = (total - pos) % 8;
    match read_flags(data, pos, n) {
        Ok(r) => r,
        Err(_) => (Vec::new(), pos),
    }
}

/// Reads `n` single-bit flags from bit `pos`.
pub fn read_flags(data: &[u8], pos: usize, n: usize) -> (r: Result<(Vec<bool>, usize), DecodeError>)
    requires
        8 * data@.len() <= usize::MAX,
        pos <= 8 * data@.len(),
    ensures
        match r {
            Ok((flags, p)) => {
                &&& pos + n <= 8 * data@.len()
                &&& p == pos + n
                &&& flags@ == bytes_to_bits(data@).subrange(pos as int, p as int)
            },
            Err(e) => pos + n > 8 * data@.len() && e == DecodeError::Incomplete,
        },
{
    let total = 8 * data.len();
    if n > total - pos {
        return Err(DecodeError::Incomplete);
    }
    let mut out: Vec<bool> = Vec::new();
    let mut j: usize = 0;
    while j < n
        invariant
            8 * data@.len() <= usize::MAX,
            total == 8 * data@.len(),
            pos + n <= total,
            j <= n,
            out@ == bytes_to_bits(data@).subrange(pos as int, pos + j),
        decreases n - j,
    {
        let b = bit_at(data, pos + j);
        out.push(b);
        j = j + 1;
        proof {
            assert(out@ =~= bytes_to_bits(data@).subrange(pos as int, pos + j));
        }
    }
    Ok((out, pos + n))
}

pub proof fn lemma_write_records_len(layout: Seq<Field>, recs: Seq<Seq<i128>>)
    requires
        layout_wf(layout),
        records_fit(layout, recs),
    ensures
        write_records(layout, recs).len() == recs.len() * layout_width(layout),
    decreases recs.len(),
{
    if recs.len() > 0 {
        assert(values_fit(layout, recs[recs.len() - 1]));
        lemma_fields_round_trip(layout, recs.last());
        assert(records_fit(layout, recs.drop_last())) by {
            assert forall|i: int| 0 <= i < recs.len() - 1 implies values_fit(
                layout,
                #[trigger] recs.drop_last()[i],
            ) by {
                assert(values_fit(layout, recs[i]));
            }
        }
        lemma_write_records_len(layout, recs.drop_last());
        lemma_mul_is_distributive_add_other_way(
            layout_width(layout) as int,
            recs.len() - 1,
            1,
        );
    }
}

/// A record written between any bits reads back where it was written.
pub proof fn lemma_record_round_trip(
    layout: Seq<Field>,
    vals: Seq<i128>,
    pre: Seq<bool>,
    post: Seq<bool>,
)
    requires
        layout_wf(layout),
        values_fit(layout, vals),
    ensures
        record_values_at(pre + write_fields(layout, vals) + post, pre.len() as int, layout) == Some(
            vals,
        ),
{
    lemma_fields_round_trip(layout, vals);
    let b = pre + write_fields(layout, vals) + post;
    assert(b.subrange(pre.len() as int, (pre.len() + layout_width(layout)) as int) =~= write_fields(
        layout,
        vals,
    ));
}

/// Records written one after another between any bits read back in order.
pub proof fn lemma_records_round_trip(
    layout: Seq<Field>,
    recs: Seq<Seq<i128>>,
    pre: Seq<bool>,
    post: Seq<bool>,
)
    requires
        layout_wf(layout),
        records_fit(layout, recs),
    ensures
        records_at(pre + write_records(layout, recs) + post, pre.len() as int, layout, recs.len())
            == Some(recs),
    decreases recs.len(),
{
    let w = layout_width(layout);
    let p = pre.len() as int;
    let n = recs.len() as int;
    let b = pre + write_records(layout, recs) + post;
    lemma_write_records_len(layout, recs);
    if n == 0 {
        assert(records_at(b, p, layout, 0).unwrap() =~= recs);
    } else {
        let r0 = recs.drop_last();
        let last = recs.last();
        assert(values_fit(layout, recs[n - 1]));
        assert(records_fit(layout, r0)) by {
            assert forall|i: int| 0 <= i < n - 1 implies values_fit(layout, #[trigger] r0[i]) by {
                assert(values_fit(layout, recs[i]));
            }
        }
        lemma_write_records_len(layout, r0);
        lemma_fields_round_trip(layout, last);
        assert(b =~= pre + write_records(layout, r0) + (write_fields(layout, last) + post));
        lemma_records_round_trip(layout, r0, pre, write_fields(layout, last) + post);
        lemma_mul_is_distributive_add_other_way(w as int, n - 1, 1);
        let got = records_at(b, p, layout, n as nat).unwrap();
        let prev = records_at(b, p, layout, (n - 1) as nat).unwrap();
        assert(b.subrange(p + (n - 1) * w, p + (n - 1) * w + w) =~= write_fields(layout, last));
        assert forall|i: int| 0 <= i < n implies got[i] == recs[i] by {
            if i < n - 1 {
                assert(got[i] == prev[i]);
            }
        }
        assert(got =~= recs);
    }
}

/// Whether `v` is representable in the field `f`.
pub fn field_fits(f: Field, v: i128) -> (r: bool)
    requires
        f.wf(),
    ensures
        r == f.fits(v as int),
{
    proof {
        lemma2_to64();
        lemma_pow2_unfold(f.width as nat);
        if f.width < 64 {
            lemma_pow2_strictly_increases(f.width as nat, 64);
        }
    }
    if f.signed {
        let half = pow2_u128(f.width - 1) as i128;
        -half <= v && v < half
    } else {
        0 <= v && v < pow2_u128(f.width) as i128
    }
}

/// Appends the encoding of one record of type `R`, or reports a field whose
/// value its width cannot hold.
pub fn write_one<R: Record>(out: &mut Vec<bool>, rec: &R) -> (r: Result<(), EncodeError>)
    ensures
        match r {
            Ok(()) => {
                &&& values_fit(R::spec_layout(), rec.values())
                &&& final(out)@ == old(out)@ + write_fields(R::spec_layout(), rec.values())
            },
            Err(e) => !values_fit(R::spec_layout(), rec.values()) && e
                == EncodeError::ValueOutOfRange,
        },
{
    let layout = R::layout();
    let vals = rec.to_values();
    proof {
        R::lemma_layout_wf();
    }
    if vals.len() != layout.len() {
        return Err(EncodeError::ValueOutOfRange);
    }
    let mut i: usize = 0;
    while i < layout.len()
        invariant
            layout@ == R::spec_layout(),
            vals@ == rec.values(),
            layout_wf(layout@),
            vals@.len() == layout@.len(),
            i <= layout@.len(),
            forall|k: int| 0 <= k < i ==> #[trigger] layout@[k].fits(vals@[k] as int),
        decreases layout@.len() - i,
    {
        if !field_fits(layout[i], vals[i]) {
            return Err(EncodeError::ValueOutOfRange);
        }
        i = i + 1;
    }
    let ghost start = old(out)@;
    let mut j: usize = 0;
    proof {
        assert(layout@.take(0) =~= Seq::<Field>::empty());
        assert(out@ =~= start + write_fields(layout@.take(0), vals@.take(0)));
    }
    while j < layout.len()
        invariant
            layout@ == R::spec_layout(),
            vals@ == rec.values(),
            layout_wf(layout@),
            values_fit(layout@, vals@),
            j <= layout@.len(),
            out@ == start + write_fields(layout@.take(j as int), vals@.take(j as int)),
        decreases layout@.len() - j,
    {
        let f = layout[j];
        let v = vals[j];
        assert(f.wf() && f.fits(v as int));
        push_field(out, f, v);
        j = j + 1;
        proof {
            assert(layout@.take(j as int).drop_last() =~= layout@.take(j - 1));
            assert(vals@.take(j as int).drop_last() =~= vals@.take(j - 1));
            assert(out@ =~= start + write_fields(layout@.take(j as int), vals@.take(j as int)));
        }
    }
    proof {
        assert(layout@.take(j as int) =~= layout@);
        assert(vals@.take(j as int) =~= vals@);
    }
    Ok(())
}

/// Packs a bit string of whole bytes into bytes.
pub fn pack_bits(bits: &Vec<bool>) -> (r: Vec<u8>)
    requires
        bits@.len() % 8 == 0,
    ensures
        bytes_to_bits(r@) == bits@,
        r@.len() * 8 == bits@.len(),
{
    let n = bits.len() / 8;
    let mut out: Vec<u8> = Vec::new();
    let mut i: usize = 0;
    while i < n
        invariant
            n * 8 == bits@.len() <= usize::MAX,
            i <= n,
            out@.len() == i,
            forall|k: int| 0 <= k < 8 * i ==> #[trigger] bytes_to_bits(out@)[k] == bits@[k],
        decreases n - i,
    {
        let mut byte: u8 = 0;
        let mut j: usize = 0;
        proof {
            lemma2_to64();
            assert(bits@.subrange(8 * i, 8 * i) =~= Seq::<bool>::empty());
        }
        while j < 8
            invariant
                n * 8 == bits@.len() <= usize::MAX,
                i < n,
                j <= 8,
                byte == bits_to_nat(bits@.subrange(8 * i, 8 * i + j)),
                byte < pow2(j as nat),
            decreases 8 - j,
        {
            let b = bits[8 * i + j];
            proof {
                let s = bits@.subrange(8 * i, 8 * i + j + 1);
                assert(s.drop_last() =~= bits@.subrange(8 * i, 8 * i + j));
                lemma_pow2_unfold((j + 1) as nat);
                lemma2_to64();
                if j + 1 < 8 {
                    lemma_pow2_strictly_increases((j + 1) as nat, 8);
                }
            }
            byte = byte * 2 + if b {
                1
            } else {
                0
            };
            j = j + 1;
        }
        let ghost prev = out@;
        out.push(byte);
        proof {
            let s = bits@.subrange(8 * i, 8 * i + 8);
            lemma_bits_nat_round_trip(s);
            assert forall|k: int| 0 <= k < 8 * (i + 1) implies #[trigger] bytes_to_bits(out@)[k]
                == bits@[k] by {
                if k < 8 * i {
                    assert(bytes_to_bits(prev)[k] == bits@[k]);
                    assert(out@[k / 8] == prev[k / 8]);
                } else {
                    assert(k / 8 == i);
                    assert(s[k % 8] == bits@[k]);
                }
            }
        }
        i = i + 1;
    }
    proof {
        assert(bytes_to_bits(out@) =~= bits@);
    }
    out
}

/// Appends the bits of `v`.
pub fn push_bits(out: &mut Vec<bool>, v: &Vec<bool>)
    ensures
        final(out)@ == old(out)@ + v@,
{
    let ghost start = old(out)@;
    let mut j: usize = 0;
    while j < v.len()
        invariant
            j <= v@.len(),
            out@ == start + v@.take(j as int),
        decreases v@.len() - j,
    {
        out.push(v[j]);
        j = j + 1;
        proof {
            assert(out@ =~= start + v@.take(j as int));
        }
    }
    proof {
        assert(v@.take(j as int) =~= v@);
    }
}

/// Appends the encoding of each record of `recs`, or reports a field whose
/// value its width cannot hold.
pub fn write_many<S: Record>(out: &mut Vec<bool>, recs: &Vec<S>) -> (r: Result<(), EncodeError>)
    ensures
        match r {
            Ok(()) => {
                &&& records_fit(S::spec_layout(), values_of(recs@))
                &&& final(out)@ == old(out)@ + write_records(S::spec_layout(), values_of(recs@))
            },
            Err(e) => !records_fit(S::spec_layout(), values_of(recs@)) && e
                == EncodeError::ValueOutOfRange,
        },
{
    let ghost start = old(out)@;
    let mut i: usize = 0;
    proof {
        assert(values_of(recs@.take(0)) =~= Seq::<Seq<i128>>::empty());
        assert(out@ =~= start + write_records(S::spec_layout(), values_of(recs@.take(0))));
    }
    while i < recs.len()
        invariant
            i <= recs@.len(),
            out@ == start + write_records(S::spec_layout(), values_of(recs@.take(i as int))),
            records_fit(S::spec_layout(), values_of(recs@.take(i as int))),
        decreases recs@.len() - i,
    {
        match write_one(out, &recs[i]) {
            Ok(()) => {},
            Err(e) => {
                proof {
                    assert(values_of(recs@)[i as int] == recs@[i as int].values());
                }
                return Err(e);
            },
        }
        proof {
            let t = values_of(recs@.take(i + 1));
            assert(t.drop_last() =~= values_of(recs@.take(i as int)));
            assert(t.last() == recs@[i as int].values());
            assert(records_fit(S::spec_layout(), t)) by {
                assert forall|k: int| 0 <= k < t.len() implies values_fit(
                    S::spec_layout(),
                    #[trigger] t[k],
                ) by {
                    if k < i {
                        assert(t[k] == values_of(recs@.take(i as int))[k]);
                    }
                }
            }
            assert(out@ =~= start + write_records(S::spec_layout(), t));
        }
        i = i + 1;
    }
    proof {
        assert(recs@.take(i as int) =~= recs@);
    }
    Ok(())
}

} // verus!

//! Field-layout tables and the generic codec that reads and writes them:
//! unsigned and two's-complement signed integers of 1 to 64 bits at any bit
//! offset of a payload.

use crate::bits::{
    bit_at, bits_to_nat, bytes_to_bits, lemma_bits_to_nat_bound, lemma_nat_bits_round_trip,
    lemma_nat_to_bits_index, lemma_nat_to_bits_len, nat_to_bits,
};
use vstd::arithmetic::power2::*;
use vstd::prelude::*;

verus! {

/// One entry of a layout table: a field's width in bits and whether it is a
/// two's-complement signed integer.
#[derive(Clone, Copy, Debug)]
pub struct Field {
    pub width: u8,
    pub signed: bool,
}

impl Field {
    pub open spec fn wf(self) -> bool {
        1 <= self.width <= 64
    }

    /// Whether `v` is representable in this field.
    pub open spec fn fits(self, v: int) -> bool {
        if self.signed {
            -pow2((self.width - 1) as nat) <= v < pow2((self.width - 1) as nat)
        } else {
            0 <= v < pow2(self.width as nat)
        }
    }

    /// The unsigned integer that stands for `v` on the wire.
    pub open spec fn raw(self, v: int) -> nat {
        if v < 0 {
            (v + pow2(self.width as nat)) as nat
        } else {
            v as nat
        }
    }

    /// The bits that encode `v`.
    pub open spec fn encode(self, v: int) -> Seq<bool> {
        nat_to_bits(self.raw(v), self.width as nat)
    }

    /// The value that the bit string `s` (of this field's width) encodes:
    /// signed fields are sign-extended from their top bit.
    pub open spec fn decode(self, s: Seq<bool>) -> int {
        let raw = bits_to_nat(s) as int;
        if self.signed && raw >= pow2((self.width - 1) as nat) {
            raw - pow2(self.width as nat)
        } else {
            raw
        }
    }

    /// An unsigned field of `w` bits.
    pub fn unsigned(w: u8) -> (r: Field)
        ensures
            r == (Field { width: w, signed: false }),
    {
        Field { width: w, signed: false }
    }

    /// A signed field of `w` bits.
    pub fn signed(w: u8) -> (r: Field)
        ensures
            r == (Field { width: w, signed: true }),
    {
        Field { width: w, signed: true }
    }
}

pub open spec fn uf(w: u8) -> Field {
    Field { width: w, signed: false }
}

pub open spec fn sf(w: u8) -> Field {
    Field { width: w, signed: true }
}

pub open spec fn layout_wf(layout: Seq<Field>) -> bool {
    forall|i: int| 0 <= i < layout.len() ==> (#[trigger] layout[i]).wf()
}

/// Total number of bits of a layout.
pub open spec fn layout_width(layout: Seq<Field>) -> nat
    decreases layout.len(),
{
    if layout.len() == 0 {
        0
    } else {
        layout_width(layout.drop_last()) + layout.last().width as nat
    }
}

/// Whether `vals` has one value for each field of `layout`, each representable.
pub open spec fn values_fit(layout: Seq<Field>, vals: Seq<i128>) -> bool {
    &&& vals.len() == layout.len()
    &&& forall|i: int| 0 <= i < layout.len() ==> #[trigger] layout[i].fits(vals[i] as int)
}

/// The values that the bit string `s` holds under `layout`, in order.
pub open spec fn read_fields(layout: Seq<Field>, s: Seq<bool>) -> Seq<i128>
    decreases layout.len(),
{
    if layout.len() == 0 {
        Seq::empty()
    } else {
        let w = layout_width(layout.drop_last());
        read_fields(layout.drop_last(), s.take(w as int)).push(
            layout.last().decode(s.subrange(w as int, w + layout.last().width)) as i128,
        )
    }
}

/// The bit string that encodes `vals` under `layout`.
pub open spec fn write_fields(layout: Seq<Field>, vals: Seq<i128>) -> Seq<bool>
    decreases layout.len(),
{
    if layout.len() == 0 || vals.len() == 0 {
        Seq::empty()
    } else {
        write_fields(layout.drop_last(), vals.drop_last()) + layout.last().encode(
            vals.last() as int,
        )
    }
}

pub proof fn lemma_field_round_trip(f: Field, v: int)
    requires
        f.wf(),
        f.fits(v),
    ensures
        f.encode(v).len() == f.width,
        f.decode(f.encode(v)) == v,
{
    let w = f.width as nat;
    lemma_nat_to_bits_len(f.raw(v), w);
    lemma_pow2_unfold(w);
    lemma_pow2_pos((w - 1) as nat);
    if !f.signed {
        lemma_nat_bits_round_trip(f.raw(v), w);
        lemma_pow2_strictly_increases((w - 1) as nat, w);
    } else {
        lemma_nat_bits_round_trip(f.raw(v), w);
    }
}

pub proof fn lemma_field_value_bound(f: Field, s: Seq<bool>)
    requires
        f.wf(),
        s.len() == f.width,
    ensures
        f.fits(f.decode(s)),
        -0x8000_0000_0000_0000 <= f.decode(s) < 0x1_0000_0000_0000_0000,
{
    let w = f.width as nat;
    lemma_bits_to_nat_bound(s);
    lemma_pow2_unfold(w);
    lemma2_to64();
    if w < 64 {
        lemma_pow2_strictly_increases(w, 64);
    }
    if w - 1 < 63 {
        lemma_pow2_strictly_increases((w - 1) as nat, 63);
    }
    assert(pow2(63) == 0x8000_0000_0000_0000) by {
        lemma_pow2_unfold(64);
    }
}

pub proof fn lemma_write_fields_len(layout: Seq<Field>, vals: Seq<i128>)
    requires
        layout_wf(layout),
        vals.len() == layout.len(),
    ensures
        write_fields(layout, vals).len() == layout_width(layout),
    decreases layout.len(),
{
    if layout.len() > 0 {
        lemma_write_fields_len(layout.drop_last(), vals.drop_last());
        lemma_nat_to_bits_len(layout.last().raw(vals.last() as int), layout.last().width as nat);
    }
}

/// Reading back what `write_fields` wrote gives the values.
pub proof fn lemma_fields_round_trip(layout: Seq<Field>, vals: Seq<i128>)
    requires
        layout_wf(layout),
        values_fit(layout, vals),
    ensures
        write_fields(layout, vals).len() == layout_width(layout),
        read_fields(layout, write_fields(layout, vals)) == vals,
    decreases layout.len(),
{
    lemma_write_fields_len(layout, vals);
    if layout.len() > 0 {
        let l0 = layout.drop_last();
        let v0 = vals.drop_last();
        assert(layout_wf(l0));
        assert(values_fit(l0, v0)) by {
            assert forall|i: int| 0 <= i < l0.len() implies #[trigger] l0[i].fits(v0[i] as int) by {
                assert(layout[i].fits(vals[i] as int));
            }
        }
        lemma_fields_round_trip(l0, v0);
        let f = layout.last();
        assert(f.wf() && f.fits(vals.last() as int)) by {
            assert(layout[layout.len() - 1].fits(vals[vals.len() - 1] as int));
        }
        lemma_field_round_trip(f, vals.last() as int);
        let s = write_fields(layout, vals);
        let w = layout_width(l0);
        assert(s.take(w as int) =~= write_fields(l0, v0));
        assert(s.subrange(w as int, w + f.width) =~= f.encode(vals.last() as int));
        assert(read_fields(layout, s) =~= vals);
    }
}

pub proof fn lemma_read_fields_len(layout: Seq<Field>, s: Seq<bool>)
    ensures
        read_fields(layout, s).len() == layout.len(),
    decreases layout.len(),
{
    if layout.len() > 0 {
        let w = layout_width(layout.drop_last());
        lemma_read_fields_len(layout.drop_last(), s.take(w as int));
    }
}

/// The first value of a record is its first field, read from its first bits.
pub proof fn lemma_read_fields_first(layout: Seq<Field>, s: Seq<bool>)
    requires
        layout.len() >= 1,
        s.len() == layout_width(layout),
    ensures
        layout[0].width <= layout_width(layout),
        read_fields(layout, s)[0] == layout[0].decode(s.subrange(0, layout[0].width as int)) as i128,
    decreases layout.len(),
{
    let l0 = layout.drop_last();
    let w = layout_width(l0);
    if layout.len() == 1 {
        assert(l0 =~= Seq::<Field>::empty());
        assert(layout_width(l0) == 0);
        assert(layout.last() == layout[0]);
        assert(read_fields(l0, s.take(0)) == Seq::<i128>::empty());
        assert(read_fields(layout, s)[0] == layout[0].decode(s.subrange(0, layout[0].width as int))
            as i128);
    } else {
        lemma_read_fields_len(l0, s.take(w as int));
        lemma_read_fields_first(l0, s.take(w as int));
        assert(read_fields(layout, s)[0] == read_fields(l0, s.take(w as int))[0]);
        assert(l0[0] == layout[0]);
        assert(s.take(w as int).subrange(0, layout[0].width as int) =~= s.subrange(
            0,
            layout[0].width as int,
        ));
    }
}

/// Whatever bits a layout reads, each value fits its field.
pub proof fn lemma_read_fields_fit(layout: Seq<Field>, s: Seq<bool>)
    requires
        layout_wf(layout),
        s.len() == layout_width(layout),
    ensures
        values_fit(layout, read_fields(layout, s)),
    decreases layout.len(),
{
    if layout.len() > 0 {
        let l0 = layout.drop_last();
        let w = layout_width(l0);
        assert(layout_wf(l0));
        lemma_read_fields_fit(l0, s.take(w as int));
        let f = layout.last();
        assert(f.wf());
        lemma_field_value_bound(f, s.subrange(w as int, w + f.width));
        let v = read_fields(layout, s);
        let v0 = read_fields(l0, s.take(w as int));
        assert forall|i: int| 0 <= i < layout.len() implies #[trigger] layout[i].fits(
            v[i] as int,
        ) by {
            if i < layout.len() - 1 {
                assert(v[i] == v0[i]);
                assert(layout[i] == l0[i]);
            }
        }
    }
}

/// `2^e` as a machine integer.
pub fn pow2_u128(e: u8) -> (r: u128)
    requires
        e <= 64,
    ensures
        r == pow2(e as nat),
{
    let mut p: u128 = 1;
    let mut i: u8 = 0;
    proof {
        lemma2_to64();
    }
    while i < e
        invariant
            i <= e <= 64,
            p == pow2(i as nat),
        decreases e - i,
    {
        proof {
            lemma_pow2_unfold((i + 1) as nat);
            lemma2_to64();
            if i + 1 < 64 {
                lemma_pow2_strictly_increases((i + 1) as nat, 64);
            }
        }
        p = p * 2;
        i = i + 1;
    }
    p
}

/// Reads the field `f` at bit `pos` of `data`.
pub fn read_field(data: &[u8], pos: usize, f: Field) -> (r: i128)
    requires
        f.wf(),
        pos + f.width <= 8 * data@.len(),
        8 * data@.len() <= usize::MAX,
    ensures
        r == f.decode(bytes_to_bits(data@).subrange(pos as int, pos + f.width)),
        f.fits(r as int),
{
    let ghost bits = bytes_to_bits(data@);
    let w = f.width as usize;
    let mut raw: u128 = 0;
    let mut j: usize = 0;
    proof {
        lemma2_to64();
        assert(bits.subrange(pos as int, pos as int) =~= Seq::<bool>::empty());
    }
    while j < w
        invariant
            f.wf(),
            w == f.width,
            pos + w <= 8 * data@.len(),
            8 * data@.len() <= usize::MAX,
            bits == bytes_to_bits(data@),
            j <= w,
            raw == bits_to_nat(bits.subrange(pos as int, pos + j)),
            raw < pow2(j as nat),
        decreases w - j,
    {
        let b = bit_at(data, pos + j);
        proof {
            let s = bits.subrange(pos as int, pos + j + 1);
            assert(s.drop_last() =~= bits.subrange(pos as int, pos + j));
            lemma_pow2_unfold((j + 1) as nat);
            lemma2_to64();
            if j + 1 < 64 {
                lemma_pow2_strictly_increases((j + 1) as nat, 64);
            }
        }
        raw = raw * 2 + if b {
            1
        } else {
            0
        };
        j = j + 1;
    }
    proof {
        lemma_field_value_bound(f, bits.subrange(pos as int, pos + w));
        lemma2_to64();
        if w < 64 {
            lemma_pow2_strictly_increases(w as nat, 64);
        }
        lemma_pow2_unfold(w as nat);
    }
    if f.signed && raw >= pow2_u128(f.width - 1) {
        raw as i128 - pow2_u128(f.width) as i128
    } else {
        raw as i128
    }
}

/// Appends the encoding of `v` in the field `f`.
pub fn push_field(out: &mut Vec<bool>, f: Field, v: i128)
    requires
        f.wf(),
        f.fits(v as int),
    ensures
        final(out)@ == old(out)@ + f.encode(v as int),
{
    let w = f.width;
    proof {
        lemma_pow2_unfold(w as nat);
        lemma_pow2_pos((w - 1) as nat);
        lemma2_to64();
        if w < 64 {
            lemma_pow2_strictly_increases(w as nat, 64);
        }
    }
    let raw: u128 = if v < 0 {
        (v + pow2_u128(w) as i128) as u128
    } else {
        v as u128
    };
    assert(raw == f.raw(v as int));
    let ghost start = out@;
    let mut j: u8 = 0;
    let mut d: u128 = pow2_u128(w - 1);
    proof {
        lemma_nat_to_bits_len(raw as nat, w as nat);
        assert(f.encode(v as int).take(0) =~= Seq::<bool>::empty());
        assert(out@ =~= start + f.encode(v as int).take(0));
    }
    while j < w
        invariant
            f.wf(),
            w == f.width,
            raw == f.raw(v as int),
            j <= w,
            j < w ==> d == pow2((w - 1 - j) as nat),
            f.encode(v as int).len() == w,
            out@ == start + f.encode(v as int).take(j as int),
        decreases w - j,
    {
        proof {
            lemma_pow2_pos((w - 1 - j) as nat);
            lemma_nat_to_bits_index(raw as nat, w as nat, j as nat);
            assert(f.encode(v as int).take(j + 1) =~= f.encode(v as int).take(j as int).push(
                f.encode(v as int)[j as int],
            ));
            if j + 1 < w {
                lemma_pow2_unfold((w - 1 - j) as nat);
            }
        }
        out.push((raw / d) % 2 == 1);
        j = j + 1;
        d = d / 2;
    }
    assert(f.encode(v as int).take(w as int) =~= f.encode(v as int));
}

} // verus!

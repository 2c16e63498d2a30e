//! Bit sequences, most significant bit first: the mathematical model of a
//! payload and the conversions between integers and fixed-width bit strings.

use vstd::arithmetic::div_mod::*;
use vstd::arithmetic::power2::*;
use vstd::bits::*;
use vstd::prelude::*;

verus! {

/// Value of a bit string read most significant bit first.
pub open spec fn bits_to_nat(s: Seq<bool>) -> nat
    decreases s.len(),
{
    if s.len() == 0 {
        0
    } else {
        2 * bits_to_nat(s.drop_last()) + if s.last() {
            1nat
        } else {
            0nat
        }
    }
}

/// The `w` low bits of `v`, most significant first.
pub open spec fn nat_to_bits(v: nat, w: nat) -> Seq<bool>
    decreases w,
{
    if w == 0 {
        Seq::empty()
    } else {
        nat_to_bits(v / 2, (w - 1) as nat).push(v % 2 == 1)
    }
}

/// The bits of a byte string, eight per byte, most significant first.
pub open spec fn bytes_to_bits(b: Seq<u8>) -> Seq<bool> {
    Seq::new(8 * b.len(), |i: int| nat_to_bits(b[i / 8] as nat, 8)[i % 8])
}

pub proof fn lemma_nat_to_bits_len(v: nat, w: nat)
    ensures
        nat_to_bits(v, w).len() == w,
    decreases w,
{
    if w > 0 {
        lemma_nat_to_bits_len(v / 2, (w - 1) as nat);
    }
}

pub proof fn lemma_bits_to_nat_bound(s: Seq<bool>)
    ensures
        bits_to_nat(s) < pow2(s.len()),
    decreases s.len(),
{
    if s.len() > 0 {
        lemma_bits_to_nat_bound(s.drop_last());
        lemma_pow2_unfold(s.len());
    } else {
        lemma2_to64();
    }
}

/// Writing `v` on `w` bits and reading it back gives `v` when it fits.
pub proof fn lemma_nat_bits_round_trip(v: nat, w: nat)
    requires
        v < pow2(w),
    ensures
        bits_to_nat(nat_to_bits(v, w)) == v,
    decreases w,
{
    if w == 0 {
        lemma2_to64();
    } else {
        lemma_pow2_unfold(w);
        lemma_nat_to_bits_len(v / 2, (w - 1) as nat);
        let s = nat_to_bits(v, w);
        assert(s.drop_last() =~= nat_to_bits(v / 2, (w - 1) as nat));
        lemma_nat_bits_round_trip(v / 2, (w - 1) as nat);
    }
}

/// Reading a bit string and writing the value on as many bits gives it back.
pub proof fn lemma_bits_nat_round_trip(s: Seq<bool>)
    ensures
        nat_to_bits(bits_to_nat(s), s.len()) == s,
    decreases s.len(),
{
    if s.len() > 0 {
        let v = bits_to_nat(s);
        let b: nat = if s.last() {
            1
        } else {
            0
        };
        assert(v / 2 == bits_to_nat(s.drop_last()) && v % 2 == b);
        lemma_bits_nat_round_trip(s.drop_last());
        assert(nat_to_bits(v, s.len()) =~= s);
    } else {
        assert(nat_to_bits(bits_to_nat(s), 0) =~= s);
    }
}

/// Bit `k` of the `w`-bit string of `v`, as an arithmetic formula.
pub proof fn lemma_nat_to_bits_index(v: nat, w: nat, k: nat)
    requires
        k < w,
    ensures
        nat_to_bits(v, w)[k as int] == ((v / pow2((w - 1 - k) as nat)) % 2 == 1),
    decreases w,
{
    lemma_nat_to_bits_len(v / 2, (w - 1) as nat);
    if k == w - 1 {
        lemma2_to64();
        assert(nat_to_bits(v, w)[k as int] == (v % 2 == 1));
        assert(v / pow2(0) == v);
    } else {
        lemma_nat_to_bits_index(v / 2, (w - 1) as nat, k);
        let e = (w - 2 - k) as nat;
        lemma_pow2_unfold(e + 1);
        lemma_pow2_pos(e);
        lemma_div_denominator(v as int, 2, pow2(e) as int);
        assert((w - 1 - k) as nat == e + 1);
        assert(nat_to_bits(v, w)[k as int] == nat_to_bits(v / 2, (w - 1) as nat)[k as int]);
        assert(v as int / 2 / pow2(e) as int == v / pow2(e + 1));
    }
}

/// The value of two bit strings side by side.
pub proof fn lemma_bits_to_nat_append(a: Seq<bool>, b: Seq<bool>)
    ensures
        bits_to_nat(a + b) == bits_to_nat(a) * pow2(b.len()) + bits_to_nat(b),
    decreases b.len(),
{
    if b.len() == 0 {
        lemma2_to64();
        assert(a + b =~= a);
    } else {
        assert((a + b).drop_last() =~= a + b.drop_last());
        lemma_bits_to_nat_append(a, b.drop_last());
        lemma_pow2_unfold(b.len());
        assert(bits_to_nat(a) * pow2(b.len()) == 2 * (bits_to_nat(a) * pow2((b.len() - 1) as nat)))
            by (nonlinear_arith)
            requires
                pow2(b.len()) == 2 * pow2((b.len() - 1) as nat),
        ;
    }
}

/// Dropping the last bit of a `w`-bit string halves the value.
pub proof fn lemma_nat_to_bits_prefix(v: nat, w: nat, k: nat)
    requires
        k <= w,
    ensures
        nat_to_bits(v, w).take(k as int) == nat_to_bits(v / pow2((w - k) as nat), k),
    decreases w - k,
{
    lemma_nat_to_bits_len(v, w);
    if k == w {
        lemma2_to64();
        assert(nat_to_bits(v, w).take(k as int) =~= nat_to_bits(v, w));
        assert(pow2(0) == 1);
        assert(v / 1 == v) by (nonlinear_arith);
        assert((w - k) as nat == 0);
    } else {
        lemma_nat_to_bits_prefix(v / 2, (w - 1) as nat, k);
        lemma_nat_to_bits_len(v / 2, (w - 1) as nat);
        assert(nat_to_bits(v, w).take(k as int) =~= nat_to_bits(v / 2, (w - 1) as nat).take(
            k as int,
        ));
        let e = (w - 1 - k) as nat;
        lemma_pow2_unfold(e + 1);
        lemma_pow2_pos(e);
        lemma_div_denominator(v as int, 2, pow2(e) as int);
        assert((w - k) as nat == e + 1);
        assert(v as int / 2 / pow2(e) as int == v / pow2(e + 1));
        assert((v / 2) / pow2(e) == v / pow2((w - k) as nat));
    }
}

/// The first twelve bits of a byte string of at least two bytes: the first
/// byte, then the top four bits of the second.
pub proof fn lemma_first_twelve_bits(data: Seq<u8>)
    requires
        data.len() >= 2,
    ensures
        bits_to_nat(bytes_to_bits(data).take(12)) == data[0] * 16 + data[1] / 16,
{
    let a = nat_to_bits(data[0] as nat, 8);
    let b = nat_to_bits(data[1] as nat, 8);
    lemma_nat_to_bits_len(data[0] as nat, 8);
    lemma_nat_to_bits_len(data[1] as nat, 8);
    lemma_nat_to_bits_prefix(data[1] as nat, 8, 4);
    lemma2_to64();
    assert(bytes_to_bits(data).take(12) =~= a + b.take(4));
    lemma_bits_to_nat_append(a, b.take(4));
    lemma_nat_bits_round_trip(data[0] as nat, 8);
    lemma_nat_bits_round_trip(data[1] as nat / 16, 4);
}

/// Bit `k` of a byte string's model, computed with a shift.
pub fn bit_at(data: &[u8], k: usize) -> (r: bool)
    requires
        k < 8 * data@.len(),
    ensures
        r == bytes_to_bits(data@)[k as int],
{
    let byte = data[k / 8];
    let shift: u8 = (7 - k % 8) as u8;
    proof {
        lemma_u8_shr_is_div(byte, shift);
        lemma_nat_to_bits_index(byte as nat, 8, (k % 8) as nat);
        let y = byte >> shift;
        assert((y & 1 == 1) == (y % 2 == 1)) by (bit_vector);
    }
    (byte >> shift) & 1 == 1
}

} // verus!

//! Bit ranges of a byte buffer.
//!
//! Bit `i` of a buffer is bit `i % 8` of byte `i / 8`, counted from the least
//! significant bit. An unsigned field is little-endian: its first bit is its
//! least significant. The bit work itself is done by `bitvec`.

use bitvec::field::BitField;
use bitvec::order::Lsb0;
use bitvec::view::BitView;
use vstd::arithmetic::div_mod::lemma_mod_breakdown;
use vstd::arithmetic::power2::lemma_pow2_pos;
use vstd::arithmetic::power2::lemma_pow2_unfold;
use vstd::arithmetic::power2::pow2;
use vstd::prelude::*;

verus! {

/// The number that `bits` spells, least significant bit first.
pub open spec fn le_value(bits: Seq<bool>) -> nat
    decreases bits.len(),
{
    if bits.len() == 0 {
        0
    } else {
        (if bits[0] { 1nat } else { 0nat }) + 2 * le_value(bits.drop_first())
    }
}

/// The `width` low bits of `value`, least significant bit first.
pub open spec fn le_bits(value: nat, width: nat) -> Seq<bool>
    decreases width,
{
    if width == 0 {
        Seq::empty()
    } else {
        seq![value % 2 == 1] + le_bits(value / 2, (width - 1) as nat)
    }
}

/// The bits of a byte buffer, eight per byte.
pub open spec fn bits_of(bytes: Seq<u8>) -> Seq<bool> {
    Seq::new(8 * bytes.len(), |i: int| le_bits(bytes[i / 8] as nat, 8)[i % 8])
}

/// The bytes that `bits` fill, eight bits per byte; a last group of fewer than
/// eight bits is left out.
pub open spec fn bytes_of(bits: Seq<bool>) -> Seq<u8> {
    Seq::new((bits.len() / 8) as nat, |j: int| le_value(bits.subrange(8 * j, 8 * j + 8)) as u8)
}

/// The unsigned field in bits `start..end` of `bits`.
pub open spec fn uint_at(bits: Seq<bool>, start: int, end: int) -> nat {
    le_value(bits.subrange(start, end))
}

/// `bits` with the bits from `at` on replaced by `patch`.
pub open spec fn splice(bits: Seq<bool>, at: int, patch: Seq<bool>) -> Seq<bool> {
    bits.subrange(0, at) + patch + bits.subrange(at + patch.len(), bits.len() as int)
}

/// `bytes` with the bytes from `at` on replaced by `patch`.
pub open spec fn with_bytes(bytes: Seq<u8>, at: int, patch: Seq<u8>) -> Seq<u8> {
    bytes.subrange(0, at) + patch + bytes.subrange(at + patch.len(), bytes.len() as int)
}

/// `bytes` with the bits from bit `at` on replaced by `patch`.
pub open spec fn with_bits(bytes: Seq<u8>, at: int, patch: Seq<bool>) -> Seq<u8> {
    bytes_of(splice(bits_of(bytes), at, patch))
}

/// `n` bits, all clear.
pub open spec fn zeros(n: nat) -> Seq<bool> {
    Seq::new(n, |i: int| false)
}

/// The longest buffer that `bitvec` views as bits on every target.
pub open spec fn max_buf_len() -> int {
    (usize::MAX as int) / 64
}

/// A field of `n` bits is below `2^n`.
pub proof fn lemma_le_value_bound(bits: Seq<bool>)
    ensures
        le_value(bits) < pow2(bits.len()),
    decreases bits.len(),
{
    if bits.len() == 0 {
        lemma_pow2_pos(0);
    } else {
        lemma_le_value_bound(bits.drop_first());
        lemma_pow2_unfold(bits.len());
    }
}

/// Writing the value of a field back gives the field's bits.
pub proof fn lemma_le_bits_of_value(bits: Seq<bool>)
    ensures
        le_bits(le_value(bits), bits.len()) == bits,
    decreases bits.len(),
{
    if bits.len() == 0 {
        assert(le_bits(le_value(bits), bits.len()) =~= bits);
    } else {
        let rest = bits.drop_first();
        lemma_le_bits_of_value(rest);
        let v = le_value(bits);
        assert(v / 2 == le_value(rest));
        assert((v % 2 == 1) == bits[0]);
        assert(le_bits(v, bits.len()) =~= bits);
    }
}

/// Reading back `width` written bits gives the value modulo `2^width`.
pub proof fn lemma_le_value_of_bits(value: nat, width: nat)
    ensures
        le_bits(value, width).len() == width,
        le_value(le_bits(value, width)) == value % pow2(width),
    decreases width,
{
    if width == 0 {
        lemma_pow2_pos(0);
        assert(pow2(0) == 1) by {
            reveal(pow2);
            reveal(vstd::arithmetic::power::pow);
        }
    } else {
        let w1 = (width - 1) as nat;
        lemma_le_value_of_bits(value / 2, w1);
        let s = le_bits(value, width);
        assert(s.drop_first() =~= le_bits(value / 2, w1));
        lemma_pow2_unfold(width);
        lemma_pow2_pos(w1);
        lemma_mod_breakdown(value as int, 2, pow2(w1) as int);
        assert(pow2(width) == 2 * pow2(w1));
    }
}

/// The length of `le_bits`.
pub proof fn lemma_le_bits_len(value: nat, width: nat)
    ensures
        le_bits(value, width).len() == width,
{
    lemma_le_value_of_bits(value, width);
}

/// A field in two parts: the low part counts as it is, the high part times
/// `2^n`, where `n` is the width of the low part.
pub proof fn lemma_le_value_concat(low: Seq<bool>, high: Seq<bool>)
    ensures
        le_value(low + high) == le_value(low) + pow2(low.len()) * le_value(high),
    decreases low.len(),
{
    if low.len() == 0 {
        assert(low + high =~= high);
        assert(pow2(0) == 1) by {
            reveal(pow2);
            reveal(vstd::arithmetic::power::pow);
        }
    } else {
        let rest = low.drop_first();
        lemma_le_value_concat(rest, high);
        assert((low + high).drop_first() =~= rest + high);
        lemma_pow2_unfold(low.len());
        assert(2 * (pow2(rest.len()) * le_value(high)) == (2 * pow2(rest.len())) * le_value(high))
            by (nonlinear_arith);
    }
}

/// The bits of a value in two parts: the low `n` bits are those of the value
/// modulo `2^n`, the rest those of the value divided by `2^n`.
pub proof fn lemma_le_bits_concat(value: nat, low_width: nat, high_width: nat)
    ensures
        le_bits(value, low_width + high_width) == le_bits(value % pow2(low_width), low_width)
            + le_bits(value / pow2(low_width), high_width),
{
    let whole = le_bits(value, low_width + high_width);
    lemma_le_bits_len(value, low_width + high_width);
    let low = whole.subrange(0, low_width as int);
    let high = whole.subrange(low_width as int, whole.len() as int);
    assert(whole =~= low + high);
    lemma_le_value_concat(low, high);
    lemma_le_value_of_bits(value, low_width + high_width);
    lemma_le_value_bound(low);
    lemma_le_value_bound(high);
    lemma_pow2_pos(low_width);
    let p = pow2(low_width) as int;
    let total = le_value(whole) as int;
    let lo = le_value(low) as int;
    let hi = le_value(high) as int;
    assert(total == p * hi + lo);
    vstd::arithmetic::div_mod::lemma_fundamental_div_mod_converse(total, p, hi, lo);
    // `total` is `value` modulo `2^(low_width + high_width)`.
    vstd::arithmetic::power2::lemma_pow2_adds(low_width, high_width);
    lemma_pow2_pos(high_width);
    let q = pow2(high_width) as int;
    vstd::arithmetic::div_mod::lemma_mod_mod(value as int, p, q);
    assert(lo == (value as int) % p);
    lemma_mod_breakdown(value as int, p, q);
    assert(p * hi + lo == p * (((value as int) / p) % q) + (value as int) % p);
    assert(hi == ((value as int) / p) % q) by (nonlinear_arith)
        requires
            p * hi + lo == p * (((value as int) / p) % q) + (value as int) % p,
            lo == (value as int) % p,
            p > 0,
    ;
    lemma_le_bits_of_value(low);
    lemma_le_bits_of_value(high);
    lemma_le_value_of_bits((value / pow2(low_width)) as nat, high_width);
    lemma_le_value_of_bits(value % pow2(low_width), low_width);
    lemma_le_bits_low_only(value % pow2(low_width), low_width);
    lemma_le_bits_low_only((value / pow2(low_width)) as nat, high_width);
    vstd::arithmetic::div_mod::lemma_small_mod((value % pow2(low_width)) as nat, pow2(low_width));
}

/// Only the value modulo `2^width` counts for its `width` low bits.
pub proof fn lemma_le_bits_low_only(value: nat, width: nat)
    ensures
        le_bits(value, width) == le_bits(value % pow2(width), width),
{
    let a = le_bits(value, width);
    let b = le_bits(value % pow2(width), width);
    lemma_le_value_of_bits(value, width);
    lemma_le_value_of_bits(value % pow2(width), width);
    lemma_pow2_pos(width);
    vstd::arithmetic::div_mod::lemma_mod_twice(value as int, pow2(width) as int);
    lemma_le_bits_of_value(a);
    lemma_le_bits_of_value(b);
}

/// The eight bits of byte `j` spell that byte.
pub proof fn lemma_byte_of_bits(bytes: Seq<u8>, j: int)
    requires
        0 <= j < bytes.len(),
    ensures
        bits_of(bytes).subrange(8 * j, 8 * j + 8) == le_bits(bytes[j] as nat, 8),
        uint_at(bits_of(bytes), 8 * j, 8 * j + 8) == bytes[j],
{
    let part = bits_of(bytes).subrange(8 * j, 8 * j + 8);
    let byte = le_bits(bytes[j] as nat, 8);
    lemma_le_value_of_bits(bytes[j] as nat, 8);
    assert forall|k: int| 0 <= k < 8 implies part[k] == byte[k] by {
        assert((8 * j + k) / 8 == j);
        assert((8 * j + k) % 8 == k);
    }
    assert(part =~= byte);
    vstd::arithmetic::power2::lemma2_to64();
}

/// Bytes are what their bits spell.
pub proof fn lemma_bytes_of_bits_of(bytes: Seq<u8>)
    ensures
        bytes_of(bits_of(bytes)) == bytes,
{
    assert forall|j: int| 0 <= j < bytes.len() implies bytes_of(bits_of(bytes))[j] == bytes[j] by {
        lemma_byte_of_bits(bytes, j);
    }
    assert(bytes_of(bits_of(bytes)) =~= bytes);
}

/// Whole bytes of bits are the bits of their bytes.
pub proof fn lemma_bits_of_bytes_of(bits: Seq<bool>)
    requires
        bits.len() % 8 == 0,
    ensures
        bits_of(bytes_of(bits)) == bits,
{
    let bytes = bytes_of(bits);
    assert forall|i: int| 0 <= i < bits.len() implies bits_of(bytes)[i] == bits[i] by {
        let j = i / 8;
        let part = bits.subrange(8 * j, 8 * j + 8);
        lemma_le_value_bound(part);
        vstd::arithmetic::power2::lemma2_to64();
        lemma_le_bits_of_value(part);
        assert(bytes[j] as nat == le_value(part));
        assert(part[i % 8] == bits[i]);
    }
    assert(bits_of(bytes) =~= bits);
}

/// Two buffers with the same bits are the same buffer.
pub proof fn lemma_bits_of_injective(a: Seq<u8>, b: Seq<u8>)
    requires
        bits_of(a) == bits_of(b),
    ensures
        a == b,
{
    lemma_bytes_of_bits_of(a);
    lemma_bytes_of_bits_of(b);
}

/// What a splice keeps and what it replaces.
pub proof fn lemma_splice(bits: Seq<bool>, at: int, patch: Seq<bool>)
    requires
        0 <= at,
        at + patch.len() <= bits.len(),
    ensures
        splice(bits, at, patch).len() == bits.len(),
        splice(bits, at, patch).subrange(0, at) == bits.subrange(0, at),
        splice(bits, at, patch).subrange(at, at + patch.len()) == patch,
        splice(bits, at, patch).subrange(at + patch.len(), bits.len() as int) == bits.subrange(
            at + patch.len(),
            bits.len() as int,
        ),
        splice(bits, at, patch).subrange(0, at + patch.len()) == bits.subrange(0, at) + patch,
        forall|i: int| 0 <= i < at ==> splice(bits, at, patch)[i] == bits[i],
        forall|i: int| at + patch.len() <= i < bits.len() ==> splice(bits, at, patch)[i] == bits[i],
        forall|i: int| at <= i < at + patch.len() ==> splice(bits, at, patch)[i] == patch[i - at],
{
    let spliced = splice(bits, at, patch);
    assert(spliced.subrange(0, at) =~= bits.subrange(0, at));
    assert(spliced.subrange(at, at + patch.len()) =~= patch);
    assert(spliced.subrange(at + patch.len(), bits.len() as int) =~= bits.subrange(
        at + patch.len(),
        bits.len() as int,
    ));
    assert(spliced.subrange(0, at + patch.len()) =~= bits.subrange(0, at) + patch);
}

/// Two runs of bits that meet make one run.
pub proof fn lemma_join(bits: Seq<bool>, start: int, mid: int, end: int)
    requires
        0 <= start <= mid <= end <= bits.len(),
    ensures
        bits.subrange(start, mid) + bits.subrange(mid, end) == bits.subrange(start, end),
{
    assert(bits.subrange(start, mid) + bits.subrange(mid, end) =~= bits.subrange(start, end));
}

/// A patch and then another right behind it are one patch.
pub proof fn lemma_splice_extend(bits: Seq<bool>, at: int, first: Seq<bool>, second: Seq<bool>)
    requires
        0 <= at,
        at + first.len() + second.len() <= bits.len(),
    ensures
        splice(splice(bits, at, first), at + first.len(), second) == splice(
            bits,
            at,
            first + second,
        ),
{
    assert(splice(splice(bits, at, first), at + first.len(), second) =~= splice(
        bits,
        at,
        first + second,
    ));
}

/// A run within a run is a run of the whole.
pub proof fn lemma_subrange_within(bits: Seq<bool>, start: int, end: int, from: int, to: int)
    requires
        0 <= start <= end <= bits.len(),
        0 <= from <= to <= end - start,
    ensures
        bits.subrange(start, end).subrange(from, to) == bits.subrange(start + from, start + to),
{
    assert(bits.subrange(start, end).subrange(from, to) =~= bits.subrange(
        start + from,
        start + to,
    ));
}

/// Where two runs are the same, so are the runs within them.
pub proof fn lemma_subrange_of_same(
    a: Seq<bool>,
    a_start: int,
    b: Seq<bool>,
    b_start: int,
    len: int,
    from: int,
    to: int,
)
    requires
        0 <= a_start,
        a_start + len <= a.len(),
        0 <= b_start,
        b_start + len <= b.len(),
        0 <= from <= to <= len,
        a.subrange(a_start, a_start + len) == b.subrange(b_start, b_start + len),
    ensures
        a.subrange(a_start + from, a_start + to) == b.subrange(b_start + from, b_start + to),
{
    lemma_subrange_within(a, a_start, a_start + len, from, to);
    lemma_subrange_within(b, b_start, b_start + len, from, to);
}

/// Putting back the bits that are there changes nothing.
pub proof fn lemma_splice_same(bits: Seq<bool>, start: int, end: int)
    requires
        0 <= start <= end <= bits.len(),
    ensures
        splice(bits, start, bits.subrange(start, end)) == bits,
{
    assert(splice(bits, start, bits.subrange(start, end)) =~= bits);
}

/// A field and its bits: the field is below `2^n` for its `n` bits, and its
/// value written in `n` bits is the bits it was read from.
pub proof fn lemma_field(bits: Seq<bool>, start: int, end: int)
    requires
        0 <= start <= end <= bits.len(),
    ensures
        uint_at(bits, start, end) < pow2((end - start) as nat),
        le_bits(uint_at(bits, start, end), (end - start) as nat) == bits.subrange(start, end),
{
    lemma_le_value_bound(bits.subrange(start, end));
    lemma_le_bits_of_value(bits.subrange(start, end));
}

/// A buffer whose bits are those of another with a patch is that other with
/// the patch.
pub proof fn lemma_with_bits(before: Seq<u8>, after: Seq<u8>, at: int, patch: Seq<bool>)
    requires
        bits_of(after) == splice(bits_of(before), at, patch),
    ensures
        after == with_bits(before, at, patch),
{
    lemma_bytes_of_bits_of(after);
}

/// Replacing bits keeps the length of the buffer.
pub proof fn lemma_with_bits_len(bytes: Seq<u8>, at: int, patch: Seq<bool>)
    requires
        0 <= at,
        at + patch.len() <= 8 * bytes.len(),
    ensures
        with_bits(bytes, at, patch).len() == bytes.len(),
        bits_of(with_bits(bytes, at, patch)) == splice(bits_of(bytes), at, patch),
{
    lemma_splice(bits_of(bytes), at, patch);
    lemma_bits_of_bytes_of(splice(bits_of(bytes), at, patch));
}

/// Putting back the bits that are there changes nothing.
pub proof fn lemma_with_bits_same(bytes: Seq<u8>, start: int, end: int)
    requires
        0 <= start <= end <= 8 * bytes.len(),
    ensures
        with_bits(bytes, start, bits_of(bytes).subrange(start, end)) == bytes,
{
    lemma_splice_same(bits_of(bytes), start, end);
    lemma_bytes_of_bits_of(bytes);
}

/// Putting back the bytes that are there changes nothing.
pub proof fn lemma_with_bytes_same(bytes: Seq<u8>, start: int, end: int)
    requires
        0 <= start <= end <= bytes.len(),
    ensures
        with_bytes(bytes, start, bytes.subrange(start, end)) == bytes,
{
    assert(with_bytes(bytes, start, bytes.subrange(start, end)) =~= bytes);
}

/// Two runs that end in pieces of one length and are the same as a whole are
/// the same piece by piece.
pub proof fn lemma_concat_split(a1: Seq<bool>, b1: Seq<bool>, a2: Seq<bool>, b2: Seq<bool>)
    requires
        a1 + b1 == a2 + b2,
        b1.len() == b2.len(),
    ensures
        a1 == a2,
        b1 == b2,
{
    let whole = a1 + b1;
    assert(whole.len() == a1.len() + b1.len());
    assert((a2 + b2).len() == a2.len() + b2.len());
    assert(a1 =~= whole.subrange(0, a1.len() as int));
    assert(a2 =~= (a2 + b2).subrange(0, a2.len() as int));
    assert(b1 =~= whole.subrange(a1.len() as int, whole.len() as int));
    assert(b2 =~= (a2 + b2).subrange(a2.len() as int, whole.len() as int));
}

/// Two values that fit `width` bits and have the same bits are the same.
pub proof fn lemma_le_bits_injective(x: nat, y: nat, width: nat)
    requires
        le_bits(x, width) == le_bits(y, width),
        x < pow2(width),
        y < pow2(width),
    ensures
        x == y,
{
    lemma_le_value_of_bits(x, width);
    lemma_le_value_of_bits(y, width);
    vstd::arithmetic::div_mod::lemma_small_mod(x, pow2(width));
    vstd::arithmetic::div_mod::lemma_small_mod(y, pow2(width));
}

/// Replacing bytes replaces their bits.
pub proof fn lemma_bits_of_with_bytes(bytes: Seq<u8>, at: int, patch: Seq<u8>)
    requires
        0 <= at,
        at + patch.len() <= bytes.len(),
    ensures
        with_bytes(bytes, at, patch).len() == bytes.len(),
        bits_of(with_bytes(bytes, at, patch)) == splice(bits_of(bytes), 8 * at, bits_of(patch)),
{
    let before = bytes.subrange(0, at);
    let after = bytes.subrange(at + patch.len(), bytes.len() as int);
    lemma_bits_of_concat(before, patch);
    lemma_bits_of_concat(before + patch, after);
    lemma_bits_of_subrange(bytes, 0, at);
    lemma_bits_of_subrange(bytes, at + patch.len(), bytes.len() as int);
}

/// The bytes in a run of whole bytes of bits.
pub proof fn lemma_bytes_of_subrange(bytes: Seq<u8>, start: int, end: int)
    requires
        0 <= start <= end <= bytes.len(),
    ensures
        bytes_of(bits_of(bytes).subrange(8 * start, 8 * end)) == bytes.subrange(start, end),
{
    lemma_bits_of_subrange(bytes, start, end);
    lemma_bytes_of_bits_of(bytes.subrange(start, end));
}

/// Bits written one field after the other into clear bits: after `piece` is
/// put behind what is there, the bits are all the pieces, then clear bits.
pub proof fn lemma_fill(before: Seq<bool>, after: Seq<bool>, acc: Seq<bool>, piece: Seq<bool>)
    requires
        acc.len() + piece.len() <= before.len(),
        before == acc + zeros((before.len() - acc.len()) as nat),
        after == splice(before, acc.len() as int, piece),
    ensures
        after == (acc + piece) + zeros((before.len() - acc.len() - piece.len()) as nat),
        after.len() == before.len(),
        (acc + piece).len() == acc.len() + piece.len(),
{
    assert(after =~= (acc + piece) + zeros((before.len() - acc.len() - piece.len()) as nat));
}

/// The bits of zero are all clear.
pub proof fn lemma_le_bits_zero(width: nat)
    ensures
        le_bits(0, width) == zeros(width),
    decreases width,
{
    if width > 0 {
        lemma_le_bits_zero((width - 1) as nat);
    }
    assert(le_bits(0, width) =~= zeros(width));
}

/// The bits of zero bytes are all clear.
pub proof fn lemma_bits_of_zero_bytes(bytes: Seq<u8>)
    requires
        forall|j: int| 0 <= j < bytes.len() ==> bytes[j] == 0,
    ensures
        bits_of(bytes) == zeros(8 * bytes.len()),
{
    lemma_le_bits_zero(8);
    assert(bits_of(bytes) =~= zeros(8 * bytes.len()));
}

/// The bits of a run of bytes are a run of the bits.
pub proof fn lemma_bits_of_subrange(bytes: Seq<u8>, start: int, end: int)
    requires
        0 <= start <= end <= bytes.len(),
    ensures
        bits_of(bytes.subrange(start, end)) == bits_of(bytes).subrange(8 * start, 8 * end),
{
    let part = bytes.subrange(start, end);
    assert forall|i: int| 0 <= i < 8 * (end - start) implies bits_of(part)[i] == bits_of(bytes)[8
        * start + i] by {
        assert((8 * start + i) / 8 == start + i / 8);
        assert((8 * start + i) % 8 == i % 8);
    }
    assert(bits_of(part) =~= bits_of(bytes).subrange(8 * start, 8 * end));
}

/// The bits of two runs of bytes, one after the other.
pub proof fn lemma_bits_of_concat(a: Seq<u8>, b: Seq<u8>)
    ensures
        bits_of(a + b) == bits_of(a) + bits_of(b),
{
    let whole = a + b;
    assert forall|i: int| 0 <= i < 8 * whole.len() implies bits_of(whole)[i] == (bits_of(a)
        + bits_of(b))[i] by {
        if i >= 8 * a.len() {
            assert((i - 8 * a.len()) / 8 == i / 8 - a.len());
            assert((i - 8 * a.len()) % 8 == i % 8);
        }
    }
    assert(bits_of(whole) =~= bits_of(a) + bits_of(b));
}

/// Trusted: `BitField::load_le::<u64>` of `bitvec`, on the bits `start..end`
/// of `buf` viewed in `Lsb0` order. Claimed: the result is the little-endian
/// number that those bits spell. `bitvec` panics on an empty range, on one
/// wider than 64 bits, and on a buffer too long to view.
#[verifier::external_body]
fn bitvec_load_le(buf: &[u8], start: usize, end: usize) -> (value: u64)
    requires
        buf@.len() <= max_buf_len(),
        start < end <= 8 * buf@.len(),
        end - start <= 64,
    ensures
        value == uint_at(bits_of(buf@), start as int, end as int),
{
    buf.view_bits::<Lsb0>()[start..end].load_le::<u64>()
}

/// Trusted: `BitField::store_le::<u64>` of `bitvec`, on the bits `start..end`
/// of `buf` viewed in `Lsb0` order. Claimed: those bits become the low bits
/// of `value`, least significant first, and no other bit changes. `bitvec`
/// panics on an empty range, on one wider than 64 bits, and on a buffer too
/// long to view.
#[verifier::external_body]
fn bitvec_store_le(buf: &mut Vec<u8>, start: usize, end: usize, value: u64)
    requires
        old(buf)@.len() <= max_buf_len(),
        start < end <= 8 * old(buf)@.len(),
        end - start <= 64,
    ensures
        final(buf)@.len() == old(buf)@.len(),
        bits_of(final(buf)@) == splice(
            bits_of(old(buf)@),
            start as int,
            le_bits(value as nat, (end - start) as nat),
        ),
{
    buf.view_bits_mut::<Lsb0>()[start..end].store_le::<u64>(value)
}

/// Trusted: indexing a `BitSlice` of `bitvec`, on `buf` viewed in `Lsb0`
/// order. Claimed: the result is the bit at `index`. `bitvec` panics on an
/// index past the end and on a buffer too long to view.
#[verifier::external_body]
fn bitvec_get(buf: &[u8], index: usize) -> (bit: bool)
    requires
        buf@.len() <= max_buf_len(),
        index < 8 * buf@.len(),
    ensures
        bit == bits_of(buf@)[index as int],
{
    buf.view_bits::<Lsb0>()[index]
}

/// Trusted: `BitSlice::set` of `bitvec`, on `buf` viewed in `Lsb0` order.
/// Claimed: the bit at `index` becomes `bit`, and no other bit changes.
/// `bitvec` panics on an index past the end and on a buffer too long to view.
#[verifier::external_body]
fn bitvec_set(buf: &mut Vec<u8>, index: usize, bit: bool)
    requires
        old(buf)@.len() <= max_buf_len(),
        index < 8 * old(buf)@.len(),
    ensures
        final(buf)@.len() == old(buf)@.len(),
        bits_of(final(buf)@) == bits_of(old(buf)@).update(index as int, bit),
{
    buf.view_bits_mut::<Lsb0>().set(index, bit)
}

/// Trusted: `BitSlice::copy_from_bitslice` of `bitvec`, between two ranges of
/// buffers viewed in `Lsb0` order. Claimed: the bits of `dst` in its range
/// become the bits of `src` in its range, in order, and no other bit changes.
/// `bitvec` panics on ranges of different lengths, on a range past the end and
/// on a buffer too long to view.
#[verifier::external_body]
fn bitvec_copy(
    dst: &mut Vec<u8>,
    dst_start: usize,
    dst_end: usize,
    src: &[u8],
    src_start: usize,
    src_end: usize,
)
    requires
        old(dst)@.len() <= max_buf_len(),
        src@.len() <= max_buf_len(),
        dst_start <= dst_end <= 8 * old(dst)@.len(),
        src_start <= src_end <= 8 * src@.len(),
        dst_end - dst_start == src_end - src_start,
    ensures
        final(dst)@.len() == old(dst)@.len(),
        bits_of(final(dst)@) == splice(
            bits_of(old(dst)@),
            dst_start as int,
            bits_of(src@).subrange(src_start as int, src_end as int),
        ),
{
    dst.view_bits_mut::<Lsb0>()[dst_start..dst_end].copy_from_bitslice(
        &src.view_bits::<Lsb0>()[src_start..src_end],
    )
}

/// Reads the unsigned field in bits `start..end` of `buf`, at most 64 bits
/// wide.
pub fn load_uint_le(buf: &[u8], start: usize, end: usize) -> (value: u64)
    requires
        buf@.len() <= max_buf_len(),
        start < end <= 8 * buf@.len(),
        end - start <= 64,
    ensures
        value == uint_at(bits_of(buf@), start as int, end as int),
        value < pow2((end - start) as nat),
{
    proof {
        lemma_field(bits_of(buf@), start as int, end as int);
    }
    bitvec_load_le(buf, start, end)
}

/// Writes `value` to the unsigned field in bits `start..end` of `buf`, at
/// most 64 bits wide. Of a value too large for the field the low bits are
/// written.
pub fn store_uint_le(buf: &mut Vec<u8>, start: usize, end: usize, value: u64)
    requires
        old(buf)@.len() <= max_buf_len(),
        start < end <= 8 * old(buf)@.len(),
        end - start <= 64,
    ensures
        final(buf)@.len() == old(buf)@.len(),
        bits_of(final(buf)@) == splice(
            bits_of(old(buf)@),
            start as int,
            le_bits(value as nat, (end - start) as nat),
        ),
{
    bitvec_store_le(buf, start, end, value)
}

/// Reads the unsigned field in bits `start..end` of `buf`, more than 64 and
/// at most 128 bits wide, as its low 64 bits and the rest.
pub fn load_u128_le(buf: &[u8], start: usize, end: usize) -> (value: u128)
    requires
        buf@.len() <= max_buf_len(),
        end <= 8 * buf@.len(),
        64 < end - start <= 128,
    ensures
        value == uint_at(bits_of(buf@), start as int, end as int),
        value < pow2((end - start) as nat),
{
    let mid = start + 64;
    let low = load_uint_le(buf, start, mid);
    let high = load_uint_le(buf, mid, end);
    proof {
        let bits = bits_of(buf@);
        lemma_join(bits, start as int, mid as int, end as int);
        lemma_le_value_concat(
            bits.subrange(start as int, mid as int),
            bits.subrange(mid as int, end as int),
        );
        lemma_field(bits, start as int, end as int);
        vstd::arithmetic::power2::lemma2_to64();
        assert(pow2(64) == 0x1_0000_0000_0000_0000);
        assert(high as int * 0x1_0000_0000_0000_0000 <= 0xFFFF_FFFF_FFFF_FFFF
            * 0x1_0000_0000_0000_0000) by (nonlinear_arith)
            requires
                high <= 0xFFFF_FFFF_FFFF_FFFF,
        ;
        assert(pow2(64) * (high as nat) == high as int * 0x1_0000_0000_0000_0000)
            by (nonlinear_arith)
            requires
                pow2(64) == 0x1_0000_0000_0000_0000,
        ;
    }
    (low as u128) + (high as u128) * 0x1_0000_0000_0000_0000u128
}

/// Writes `value` to the unsigned field in bits `start..end` of `buf`, more
/// than 64 and at most 128 bits wide, as its low 64 bits and the rest. Of a
/// value too large for the field the low bits are written.
pub fn store_u128_le(buf: &mut Vec<u8>, start: usize, end: usize, value: u128)
    requires
        old(buf)@.len() <= max_buf_len(),
        end <= 8 * old(buf)@.len(),
        64 < end - start <= 128,
    ensures
        final(buf)@.len() == old(buf)@.len(),
        bits_of(final(buf)@) == splice(
            bits_of(old(buf)@),
            start as int,
            le_bits(value as nat, (end - start) as nat),
        ),
{
    let mid = start + 64;
    let low = (value % 0x1_0000_0000_0000_0000u128) as u64;
    let high = (value / 0x1_0000_0000_0000_0000u128) as u64;
    let ghost before = bits_of(buf@);
    store_uint_le(buf, start, mid, low);
    let ghost between = bits_of(buf@);
    store_uint_le(buf, mid, end, high);
    proof {
        vstd::arithmetic::power2::lemma2_to64();
        assert(pow2(64) == 0x1_0000_0000_0000_0000);
        let high_width = (end - mid) as nat;
        lemma_le_bits_concat(value as nat, 64, high_width);
        lemma_le_bits_len(low as nat, 64);
        lemma_le_bits_len(high as nat, high_width);
        assert(bits_of(buf@) =~= splice(
            before,
            start as int,
            le_bits(low as nat, 64) + le_bits(high as nat, high_width),
        ));
    }
}

/// Reads bit `index` of `buf`.
pub fn load_bit(buf: &[u8], index: usize) -> (bit: bool)
    requires
        buf@.len() <= max_buf_len(),
        index < 8 * buf@.len(),
    ensures
        bit == bits_of(buf@)[index as int],
{
    bitvec_get(buf, index)
}

/// Writes `bit` to bit `index` of `buf`.
pub fn store_bit(buf: &mut Vec<u8>, index: usize, bit: bool)
    requires
        old(buf)@.len() <= max_buf_len(),
        index < 8 * old(buf)@.len(),
    ensures
        final(buf)@.len() == old(buf)@.len(),
        bits_of(final(buf)@) == splice(bits_of(old(buf)@), index as int, seq![bit]),
{
    let ghost before = bits_of(buf@);
    bitvec_set(buf, index, bit);
    proof {
        assert(before.update(index as int, bit) =~= splice(before, index as int, seq![bit]));
    }
}

/// Copies bits `src_start..src_end` of `src` to bits `dst_start..dst_end` of
/// `dst`. The two ranges have the same length.
pub fn copy_bits(
    dst: &mut Vec<u8>,
    dst_start: usize,
    dst_end: usize,
    src: &[u8],
    src_start: usize,
    src_end: usize,
)
    requires
        old(dst)@.len() <= max_buf_len(),
        src@.len() <= max_buf_len(),
        dst_start <= dst_end <= 8 * old(dst)@.len(),
        src_start <= src_end <= 8 * src@.len(),
        dst_end - dst_start == src_end - src_start,
    ensures
        final(dst)@.len() == old(dst)@.len(),
        bits_of(final(dst)@) == splice(
            bits_of(old(dst)@),
            dst_start as int,
            bits_of(src@).subrange(src_start as int, src_end as int),
        ),
{
    bitvec_copy(dst, dst_start, dst_end, src, src_start, src_end)
}

/// A buffer of `len` zero bytes.
pub fn zeroed(len: usize) -> (buf: Vec<u8>)
    ensures
        buf@.len() == len,
        forall|j: int| 0 <= j < len ==> buf@[j] == 0,
        bits_of(buf@) == zeros((8 * len) as nat),
{
    let mut buf: Vec<u8> = Vec::new();
    while buf.len() < len
        invariant
            buf@.len() <= len,
            forall|j: int| 0 <= j < buf@.len() ==> buf@[j] == 0,
        decreases len - buf@.len(),
    {
        buf.push(0u8);
    }
    proof {
        lemma_bits_of_zero_bytes(buf@);
    }
    buf
}

/// `bytes` hold the bits `written`, and clear bits behind them.
pub open spec fn filled(bytes: Seq<u8>, written: Seq<bool>) -> bool {
    &&& written.len() <= 8 * bytes.len()
    &&& bits_of(bytes) == written + zeros((8 * bytes.len() - written.len()) as nat)
}

/// Writes a field right behind the bits written so far.
pub(crate) fn fill_uint(
    buf: &mut Vec<u8>,
    Ghost(written): Ghost<Seq<bool>>,
    start: usize,
    end: usize,
    value: u64,
)
    requires
        old(buf)@.len() <= max_buf_len(),
        start < end <= 8 * old(buf)@.len(),
        end - start <= 64,
        start == written.len(),
        filled(old(buf)@, written),
    ensures
        final(buf)@.len() == old(buf)@.len(),
        filled(final(buf)@, written + le_bits(value as nat, (end - start) as nat)),
        (written + le_bits(value as nat, (end - start) as nat)).len() == end,
{
    let ghost before = bits_of(buf@);
    store_uint_le(buf, start, end, value);
    proof {
        lemma_le_bits_len(value as nat, (end - start) as nat);
        lemma_fill(before, bits_of(buf@), written, le_bits(value as nat, (end - start) as nat));
    }
}

/// Writes a field of more than 64 bits right behind the bits written so far.
pub(crate) fn fill_u128(
    buf: &mut Vec<u8>,
    Ghost(written): Ghost<Seq<bool>>,
    start: usize,
    end: usize,
    value: u128,
)
    requires
        old(buf)@.len() <= max_buf_len(),
        end <= 8 * old(buf)@.len(),
        64 < end - start <= 128,
        start == written.len(),
        filled(old(buf)@, written),
    ensures
        final(buf)@.len() == old(buf)@.len(),
        filled(final(buf)@, written + le_bits(value as nat, (end - start) as nat)),
        (written + le_bits(value as nat, (end - start) as nat)).len() == end,
{
    let ghost before = bits_of(buf@);
    store_u128_le(buf, start, end, value);
    proof {
        lemma_le_bits_len(value as nat, (end - start) as nat);
        lemma_fill(before, bits_of(buf@), written, le_bits(value as nat, (end - start) as nat));
    }
}

/// Writes a bit right behind the bits written so far.
pub(crate) fn fill_bit(buf: &mut Vec<u8>, Ghost(written): Ghost<Seq<bool>>, index: usize, bit: bool)
    requires
        old(buf)@.len() <= max_buf_len(),
        index < 8 * old(buf)@.len(),
        index == written.len(),
        filled(old(buf)@, written),
    ensures
        final(buf)@.len() == old(buf)@.len(),
        filled(final(buf)@, written + seq![bit]),
        (written + seq![bit]).len() == index + 1,
{
    let ghost before = bits_of(buf@);
    store_bit(buf, index, bit);
    proof {
        lemma_fill(before, bits_of(buf@), written, seq![bit]);
    }
}

/// Copies the first bits of `src` right behind the bits written so far.
pub(crate) fn fill_bits(
    buf: &mut Vec<u8>,
    Ghost(written): Ghost<Seq<bool>>,
    start: usize,
    end: usize,
    src: &[u8],
)
    requires
        old(buf)@.len() <= max_buf_len(),
        src@.len() <= max_buf_len(),
        start <= end <= 8 * old(buf)@.len(),
        end - start <= 8 * src@.len(),
        start == written.len(),
        filled(old(buf)@, written),
    ensures
        final(buf)@.len() == old(buf)@.len(),
        filled(final(buf)@, written + bits_of(src@).subrange(0, end - start)),
        (written + bits_of(src@).subrange(0, end - start)).len() == end,
{
    let ghost before = bits_of(buf@);
    copy_bits(buf, start, end, src, 0, end - start);
    proof {
        lemma_fill(before, bits_of(buf@), written, bits_of(src@).subrange(0, end - start));
    }
}

} // verus!

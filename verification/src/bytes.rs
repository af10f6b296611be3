//! Byte strings.

use vstd::prelude::*;

verus! {

pub open spec fn has_prefix(bytes: Seq<u8>, prefix: Seq<u8>) -> bool {
    prefix.len() <= bytes.len() && bytes.take(prefix.len() as int) == prefix
}

pub fn starts_with(bytes: &[u8], prefix: &[u8]) -> (found: bool)
    ensures
        found == has_prefix(bytes@, prefix@),
{
    if bytes.len() < prefix.len() {
        return false;
    }
    for i in 0..prefix.len()
        invariant
            prefix@.len() <= bytes@.len(),
            forall|j: int| 0 <= j < i ==> bytes@[j] == prefix@[j],
    {
        if bytes[i] != prefix[i] {
            assert(bytes@.take(prefix@.len() as int)[i as int] != prefix@[i as int]);
            return false;
        }
    }
    assert(bytes@.take(prefix@.len() as int) =~= prefix@);
    true
}

pub fn same_bytes(a: &[u8], b: &[u8]) -> (same: bool)
    ensures
        same == (a@ == b@),
{
    if a.len() != b.len() {
        return false;
    }
    assert(a@.take(b@.len() as int) =~= a@);
    starts_with(a, b)
}

/// The low `width` bytes of a number, the lowest first.
pub open spec fn le(value: nat, width: nat) -> Seq<u8>
    decreases width,
{
    if width == 0 {
        Seq::empty()
    } else {
        seq![(value % 256) as u8] + le(value / 256, (width - 1) as nat)
    }
}

/// The number whose bytes these are, the lowest first.
pub open spec fn le_value(bytes: Seq<u8>) -> nat
    decreases bytes.len(),
{
    if bytes.len() == 0 {
        0
    } else {
        bytes[0] as nat + 256 * le_value(bytes.skip(1))
    }
}

pub open spec fn pow256(width: nat) -> nat
    decreases width,
{
    if width == 0 {
        1
    } else {
        256 * pow256((width - 1) as nat)
    }
}

pub proof fn lemma_pow256()
    ensures
        pow256(1) == 0x100,
        pow256(2) == 0x1_0000,
        pow256(4) == 0x1_0000_0000,
        pow256(8) == 0x1_0000_0000_0000_0000,
{
    reveal_with_fuel(pow256, 9);
}

pub proof fn lemma_le(value: nat, width: nat)
    requires
        value < pow256(width),
    ensures
        le(value, width).len() == width,
        le_value(le(value, width)) == value,
    decreases width,
{
    if width > 0 {
        assert(value / 256 < pow256((width - 1) as nat)) by (nonlinear_arith)
            requires
                value < 256 * pow256((width - 1) as nat),
        ;
        lemma_le(value / 256, (width - 1) as nat);
        assert(le(value, width).skip(1) =~= le(value / 256, (width - 1) as nat));
    }
}

pub proof fn lemma_le_len(value: nat, width: nat)
    ensures
        le(value, width).len() == width,
    decreases width,
{
    if width > 0 {
        lemma_le_len(value / 256, (width - 1) as nat);
    }
}

pub proof fn lemma_le_value_bound(bytes: Seq<u8>)
    ensures
        le_value(bytes) < pow256(bytes.len()),
    decreases bytes.len(),
{
    if bytes.len() > 0 {
        lemma_le_value_bound(bytes.skip(1));
    }
}

/// Bytes are those of the number that they give.
pub proof fn lemma_le_of_value(bytes: Seq<u8>)
    ensures
        le(le_value(bytes), bytes.len()) == bytes,
    decreases bytes.len(),
{
    if bytes.len() > 0 {
        let rest = bytes.skip(1);
        lemma_le_of_value(rest);
        let value = le_value(bytes);
        assert(value % 256 == bytes[0] as nat);
        assert(value / 256 == le_value(rest));
        assert(seq![bytes[0]] + rest =~= bytes);
    } else {
        assert(bytes =~= Seq::empty());
    }
}

/// Appends the low `width` bytes of a number, the lowest first.
pub fn put_le(out: &mut Vec<u8>, value: u64, width: usize)
    ensures
        final(out)@ == old(out)@ + le(value as nat, width as nat),
{
    let mut rest: u64 = value;
    assert(out@ + le(value as nat, width as nat) =~= old(out)@ + le(value as nat, width as nat));
    for i in 0..width
        invariant
            out@ + le(rest as nat, (width - i) as nat) == old(out)@ + le(
                value as nat,
                width as nat,
            ),
    {
        let ghost before = out@;
        out.push((rest % 256) as u8);
        assert(out@ + le(rest as nat / 256, (width - i - 1) as nat) =~= before + le(
            rest as nat,
            (width - i) as nat,
        ));
        rest = rest / 256;
    }
    assert(out@ + Seq::<u8>::empty() =~= out@);
}

/// The number whose bytes these are, the lowest first.
pub fn get_le(bytes: &[u8]) -> (value: u64)
    requires
        bytes@.len() <= 8,
    ensures
        value == le_value(bytes@),
{
    let mut value: u64 = 0;
    let mut i: usize = bytes.len();
    assert(bytes@.skip(i as int) =~= Seq::<u8>::empty());
    proof {
        lemma_pow256();
    }
    while i > 0
        invariant
            i <= bytes@.len() <= 8,
            value == le_value(bytes@.skip(i as int)),
        decreases i,
    {
        i = i - 1;
        proof {
            let part = bytes@.skip(i as int);
            assert(part.skip(1) =~= bytes@.skip(i + 1));
            lemma_le_value_bound(part);
            lemma_pow256_grows(part.len(), 8);
            lemma_pow256();
        }
        value = bytes[i] as u64 + 256 * value;
    }
    assert(bytes@.skip(0) =~= bytes@);
    value
}

pub proof fn lemma_pow256_grows(small: nat, large: nat)
    requires
        small <= large,
    ensures
        0 < pow256(small) <= pow256(large),
    decreases large,
{
    if small < large {
        lemma_pow256_grows(small, (large - 1) as nat);
    } else if small > 0 {
        lemma_pow256_grows((small - 1) as nat, (small - 1) as nat);
    }
}

pub fn array16(bytes: &[u8]) -> (array: [u8; 16])
    requires
        bytes@.len() == 16,
    ensures
        array@ == bytes@,
{
    let mut array = [0u8; 16];
    for i in 0..16
        invariant
            bytes@.len() == 16,
            forall|j: int| 0 <= j < i ==> array@[j] == bytes@[j],
    {
        array[i] = bytes[i];
    }
    assert(array@ =~= bytes@);
    array
}

/// The number whose bytes these are, the highest first.
pub open spec fn be_value(bytes: Seq<u8>) -> nat
    decreases bytes.len(),
{
    if bytes.len() == 0 {
        0
    } else {
        256 * be_value(bytes.drop_last()) + bytes.last() as nat
    }
}

/// The low `width` bytes of a number, the highest first.
pub open spec fn be(value: nat, width: nat) -> Seq<u8>
    decreases width,
{
    if width == 0 {
        Seq::empty()
    } else {
        be(value / 256, (width - 1) as nat).push((value % 256) as u8)
    }
}

pub proof fn lemma_be(value: nat, width: nat)
    requires
        value < pow256(width),
    ensures
        be(value, width).len() == width,
        be_value(be(value, width)) == value,
    decreases width,
{
    if width > 0 {
        assert(value / 256 < pow256((width - 1) as nat)) by (nonlinear_arith)
            requires
                value < 256 * pow256((width - 1) as nat),
        ;
        lemma_be(value / 256, (width - 1) as nat);
        assert(be(value, width).drop_last() =~= be(value / 256, (width - 1) as nat));
    }
}

pub proof fn lemma_be_value_bound(bytes: Seq<u8>)
    ensures
        be_value(bytes) < pow256(bytes.len()),
    decreases bytes.len(),
{
    if bytes.len() > 0 {
        lemma_be_value_bound(bytes.drop_last());
    }
}

/// The number whose bytes these are, the highest first.
pub fn get_be(bytes: &[u8]) -> (value: u64)
    requires
        bytes@.len() <= 8,
    ensures
        value == be_value(bytes@),
{
    let mut value: u64 = 0;
    proof {
        lemma_pow256();
    }
    for i in 0..bytes.len()
        invariant
            bytes@.len() <= 8,
            value == be_value(bytes@.take(i as int)),
    {
        proof {
            let part = bytes@.take(i + 1);
            assert(part.drop_last() =~= bytes@.take(i as int));
            lemma_be_value_bound(part);
            lemma_pow256_grows(part.len(), 8);
            lemma_pow256();
        }
        value = 256 * value + bytes[i] as u64;
    }
    assert(bytes@.take(bytes@.len() as int) =~= bytes@);
    value
}

/// The low four bytes of a number, the highest first.
pub fn be32(value: u64) -> (bytes: [u8; 4])
    ensures
        bytes@ == be(value as nat, 4),
{
    let bytes = [
        (value / 0x100_0000 % 256) as u8,
        (value / 0x1_0000 % 256) as u8,
        (value / 0x100 % 256) as u8,
        (value % 256) as u8,
    ];
    proof {
        reveal_with_fuel(be, 5);
        assert(value / 256 / 256 == value / 0x1_0000);
        assert(value / 256 / 256 / 256 == value / 0x100_0000);
        assert(bytes@ =~= be(value as nat, 4));
    }
    bytes
}

/// The lowest byte stands first in one order and last in the other.
pub proof fn orders_of_bytes(value: nat, a: u8, b: u8, c: u8, d: u8)
    ensures
        le(value, 1) == seq![(value % 256) as u8],
        le(value, 2) == seq![(value % 256) as u8, (value / 256 % 256) as u8],
        le(value, 4) == seq![
            (value % 256) as u8,
            (value / 0x100 % 256) as u8,
            (value / 0x1_0000 % 256) as u8,
            (value / 0x100_0000 % 256) as u8,
        ],
        be(value, 2) == seq![(value / 256 % 256) as u8, (value % 256) as u8],
        be(value, 4) == seq![
            (value / 0x100_0000 % 256) as u8,
            (value / 0x1_0000 % 256) as u8,
            (value / 0x100 % 256) as u8,
            (value % 256) as u8,
        ],
        le_value(seq![a, b]) == a + 0x100 * b,
        le_value(seq![a, b, c, d]) == a + 0x100 * b + 0x1_0000 * c + 0x100_0000 * d,
        be_value(seq![a, b]) == 0x100 * a + b,
        be_value(seq![a, b, c, d]) == 0x100_0000 * a + 0x1_0000 * b + 0x100 * c + d,
{
    reveal_with_fuel(le, 5);
    reveal_with_fuel(be, 5);
    reveal_with_fuel(le_value, 5);
    reveal_with_fuel(be_value, 5);
    assert(value / 256 / 256 == value / 0x1_0000);
    assert(value / 256 / 256 / 256 == value / 0x100_0000);
    assert(le(value, 1) =~= seq![(value % 256) as u8]);
    assert(le(value, 2) =~= seq![(value % 256) as u8, (value / 256 % 256) as u8]);
    assert(le(value, 4) =~= seq![
        (value % 256) as u8,
        (value / 0x100 % 256) as u8,
        (value / 0x1_0000 % 256) as u8,
        (value / 0x100_0000 % 256) as u8,
    ]);
    assert(be(value, 2) =~= seq![(value / 256 % 256) as u8, (value % 256) as u8]);
    assert(be(value, 4) =~= seq![
        (value / 0x100_0000 % 256) as u8,
        (value / 0x1_0000 % 256) as u8,
        (value / 0x100 % 256) as u8,
        (value % 256) as u8,
    ]);
    let four = seq![a, b, c, d];
    assert(four.skip(1) =~= seq![b, c, d]);
    assert(seq![b, c, d].skip(1) =~= seq![c, d]);
    assert(seq![c, d].skip(1) =~= seq![d]);
    assert(seq![d].skip(1) =~= Seq::empty());
    assert(seq![a, b].skip(1) =~= seq![b]);
    assert(seq![b].skip(1) =~= Seq::empty());
    assert(four.drop_last() =~= seq![a, b, c]);
    assert(seq![a, b, c].drop_last() =~= seq![a, b]);
    assert(seq![a, b].drop_last() =~= seq![a]);
    assert(seq![a].drop_last() =~= Seq::empty());
}

} // verus!

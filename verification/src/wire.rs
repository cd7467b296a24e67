//! Big-endian integers and commit windows, as the wire formats of this crate use them.

use vstd::prelude::*;

verus! {

/// The `n` low base-256 digits of `v`, most significant digit first.
pub open spec fn be_bytes(v: nat, n: nat) -> Seq<u8>
    decreases n,
{
    if n == 0 {
        Seq::empty()
    } else {
        be_bytes(v / 256, (n - 1) as nat).push((v % 256) as u8)
    }
}

/// The number whose base-256 digits are `s`, most significant digit first.
pub open spec fn be_nat(s: Seq<u8>) -> nat
    decreases s.len(),
{
    if s.len() == 0 {
        0
    } else {
        be_nat(s.drop_last()) * 256 + s.last() as nat
    }
}

/// 256 to the power of `n`: how many values `n` bytes can tell apart.
pub open spec fn byte_range(n: nat) -> nat
    decreases n,
{
    if n == 0 {
        1
    } else {
        256 * byte_range((n - 1) as nat)
    }
}

/// A commit window with its byte vectors taken by their contents.
pub open spec fn window_view(window: Seq<(u64, Vec<u8>)>) -> Seq<(u64, Seq<u8>)> {
    Seq::new(window.len(), |i: int| (window[i].0, window[i].1@))
}

/// Writing `n` digits gives `n` bytes.
pub proof fn lemma_be_bytes_len(v: nat, n: nat)
    ensures
        be_bytes(v, n).len() == n,
    decreases n,
{
    if n > 0 {
        lemma_be_bytes_len(v / 256, (n - 1) as nat);
    }
}

/// Reading back what was written gives the number, if it fits in the bytes.
pub proof fn lemma_be_nat_of_bytes(v: nat, n: nat)
    requires
        v < byte_range(n),
    ensures
        be_nat(be_bytes(v, n)) == v,
    decreases n,
{
    if n > 0 {
        lemma_be_nat_of_bytes(v / 256, (n - 1) as nat);
        let s = be_bytes(v, n);
        assert(s.drop_last() =~= be_bytes(v / 256, (n - 1) as nat));
        assert(s.last() as nat == v % 256);
    }
}

/// Writing back what was read gives the bytes.
pub proof fn lemma_be_bytes_of_nat(s: Seq<u8>)
    ensures
        be_bytes(be_nat(s), s.len()) == s,
        be_nat(s) < byte_range(s.len()),
    decreases s.len(),
{
    if s.len() > 0 {
        lemma_be_bytes_of_nat(s.drop_last());
        assert(be_nat(s) / 256 == be_nat(s.drop_last()));
        assert(be_nat(s) % 256 == s.last() as nat);
        assert(s.drop_last().push(s.last()) =~= s);
    }
}

/// The ranges of the integer widths that occur on the wire.
pub proof fn lemma_byte_ranges()
    ensures
        byte_range(1) == 0x100,
        byte_range(2) == 0x1_0000,
        byte_range(4) == 0x1_0000_0000,
        byte_range(8) == 0x1_0000_0000_0000_0000,
{
    reveal_with_fuel(byte_range, 9);
}

/// One and two bytes of an integer.
pub proof fn lemma_short_integers(v: nat)
    ensures
        be_bytes(v, 1) == seq![(v % 256) as u8],
        be_bytes(v, 2) == seq![(v / 256 % 256) as u8, (v % 256) as u8],
{
    reveal_with_fuel(be_bytes, 3);
    assert(be_bytes(v, 1) =~= seq![(v % 256) as u8]);
    assert(be_bytes(v, 2) =~= seq![(v / 256 % 256) as u8, (v % 256) as u8]);
}

/// Law: integers are written with the most significant byte first: each byte holds its own base-256
/// digit of the number.
pub proof fn integers_are_written_big_endian(v: nat)
    ensures
        be_bytes(v, 1) == seq![(v % 256) as u8],
        be_bytes(v, 2) == seq![(v / 0x100 % 256) as u8, (v % 256) as u8],
        be_bytes(v, 4) == seq![
            (v / 0x100_0000 % 256) as u8,
            (v / 0x1_0000 % 256) as u8,
            (v / 0x100 % 256) as u8,
            (v % 256) as u8,
        ],
        be_bytes(v, 8) == seq![
            (v / 0x100_0000_0000_0000 % 256) as u8,
            (v / 0x1_0000_0000_0000 % 256) as u8,
            (v / 0x100_0000_0000 % 256) as u8,
            (v / 0x1_0000_0000 % 256) as u8,
            (v / 0x100_0000 % 256) as u8,
            (v / 0x1_0000 % 256) as u8,
            (v / 0x100 % 256) as u8,
            (v % 256) as u8,
        ],
{
    let v1 = v / 0x100;
    let v2 = v1 / 256;
    let v3 = v2 / 256;
    let v4 = v3 / 256;
    let v5 = v4 / 256;
    let v6 = v5 / 256;
    let v7 = v6 / 256;
    vstd::arithmetic::div_mod::lemma_div_denominator(v as int, 0x100, 256);
    assert(v2 == v / 0x1_0000);
    vstd::arithmetic::div_mod::lemma_div_denominator(v as int, 0x1_0000, 256);
    assert(v3 == v / 0x100_0000);
    vstd::arithmetic::div_mod::lemma_div_denominator(v as int, 0x100_0000, 256);
    assert(v4 == v / 0x1_0000_0000);
    vstd::arithmetic::div_mod::lemma_div_denominator(v as int, 0x1_0000_0000, 256);
    assert(v5 == v / 0x100_0000_0000);
    vstd::arithmetic::div_mod::lemma_div_denominator(v as int, 0x100_0000_0000, 256);
    assert(v6 == v / 0x1_0000_0000_0000);
    vstd::arithmetic::div_mod::lemma_div_denominator(v as int, 0x1_0000_0000_0000, 256);
    assert(v7 == v / 0x100_0000_0000_0000);
    let digit = |d: nat| (d % 256) as u8;
    let one = seq![digit(v)];
    let two = seq![digit(v1), digit(v)];
    let four = seq![digit(v3), digit(v2), digit(v1), digit(v)];
    let eight = seq![
        digit(v7),
        digit(v6),
        digit(v5),
        digit(v4),
        digit(v3),
        digit(v2),
        digit(v1),
        digit(v),
    ];
    reveal_with_fuel(be_bytes, 5);
    assert(be_bytes(v, 1) =~= one);
    assert(be_bytes(v, 2) =~= two);
    assert(be_bytes(v, 4) =~= four);
    assert(be_bytes(v4, 4) =~= seq![digit(v7), digit(v6), digit(v5), digit(v4)]);
    assert(be_bytes(v, 8) =~= be_bytes(v4, 4) + four);
    assert(be_bytes(v, 8) =~= eight);
}

/// Law: integers are read with the most significant byte first: a byte more takes what was read
/// 256-fold and adds its own value; so four bytes weigh 2^24, 2^16, 2^8 and 1.
pub proof fn integers_are_read_big_endian(s: Seq<u8>, b: u8)
    ensures
        be_nat(Seq::<u8>::empty()) == 0,
        be_nat(s.push(b)) == 256 * be_nat(s) + b,
        s.len() == 4 ==> be_nat(s) == 0x100_0000 * s[0] + 0x1_0000 * s[1] + 0x100 * s[2] + s[3],
        s.len() == 8 ==> be_nat(s) == 0x100_0000_0000_0000 * s[0] + 0x1_0000_0000_0000 * s[1]
            + 0x100_0000_0000 * s[2] + 0x1_0000_0000 * s[3] + 0x100_0000 * s[4] + 0x1_0000 * s[5]
            + 0x100 * s[6] + s[7],
{
    reveal_with_fuel(be_nat, 9);
    assert(s.push(b).drop_last() =~= s);
}

/// Law: the view of a window holds its entries, one for one and in their order.
pub proof fn windows_are_viewed_entry_by_entry(
    window: Seq<(u64, Vec<u8>)>,
    epoch: u64,
    commit: Vec<u8>,
)
    ensures
        window_view(Seq::empty()) == Seq::<(u64, Seq<u8>)>::empty(),
        window_view(window.push((epoch, commit))) == window_view(window).push((epoch, commit@)),
{
    assert(window_view(Seq::empty()) =~= Seq::<(u64, Seq<u8>)>::empty());
    assert(window_view(window.push((epoch, commit))) =~= window_view(window).push(
        (epoch, commit@),
    ));
}

/// Appends the `n` low bytes of `v`, most significant byte first.
pub fn put_be(out: &mut Vec<u8>, v: u64, n: usize)
    requires
        n <= 8,
    ensures
        final(out)@ == old(out)@ + be_bytes(v as nat, n as nat),
    decreases n,
{
    if n > 0 {
        put_be(out, v / 256, n - 1);
        out.push((v % 256) as u8);
        assert(out@ =~= old(out)@ + be_bytes(v as nat, n as nat));
    }
}

/// Reads the `n` bytes at `start` as one number, most significant byte first.
pub fn read_be(bytes: &[u8], start: usize, n: usize) -> (v: u64)
    requires
        n <= 8,
        start + n <= bytes@.len(),
    ensures
        v as nat == be_nat(bytes@.subrange(start as int, start + n)),
{
    let len: usize = bytes.len();
    let mut acc: u64 = 0;
    let mut i: usize = 0;
    proof {
        assert(bytes@.subrange(start as int, start + 0) =~= Seq::<u8>::empty());
    }
    while i < n
        invariant
            i <= n <= 8,
            start + n <= len == bytes@.len(),
            acc as nat == be_nat(bytes@.subrange(start as int, start + i)),
        decreases n - i,
    {
        proof {
            let head = bytes@.subrange(start as int, start + i);
            let more = bytes@.subrange(start as int, start + i + 1);
            assert(more.drop_last() =~= head);
            lemma_be_bytes_of_nat(more);
            reveal_with_fuel(byte_range, 9);
        }
        acc = acc * 256 + bytes[start + i] as u64;
        i = i + 1;
    }
    acc
}

/// A copy of the bytes of a slice.
pub fn copy_bytes(bytes: &[u8]) -> (out: Vec<u8>)
    ensures
        out@ == bytes@,
{
    let mut out: Vec<u8> = Vec::new();
    out.extend_from_slice(bytes);
    assert(out@ =~= bytes@);
    out
}

} // verus!

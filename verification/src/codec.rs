//! Big-endian, fixed-width encoding of unsigned integers.
//!
//! An encoded value occupies exactly as many bytes as its width demands, most
//! significant byte first, so that comparing two encodings of one width byte
//! by byte gives the same answer as comparing the numbers themselves.

use vstd::prelude::*;

verus! {

/// The bit widths an unsigned integer can be stored at.
#[derive(Clone, Copy, Debug, PartialEq, Eq, Structural)]
pub enum Width {
    W8,
    W16,
    W32,
    W64,
    W128,
}

/// 256 raised to the power `n`.
pub open spec fn pow256(n: nat) -> nat
    decreases n,
{
    if n == 0 {
        1
    } else {
        256 * pow256((n - 1) as nat)
    }
}

/// The `n`-byte big-endian form of `v`: the bytes of `v / 256` followed by
/// the least significant byte of `v`.
pub open spec fn be_bytes(v: nat, n: nat) -> Seq<u8>
    decreases n,
{
    if n == 0 {
        Seq::empty()
    } else {
        be_bytes(v / 256, (n - 1) as nat).push((v % 256) as u8)
    }
}

/// The number that a big-endian byte sequence stands for.
pub open spec fn be_value(s: Seq<u8>) -> nat
    decreases s.len(),
{
    if s.len() == 0 {
        0
    } else {
        be_value(s.drop_last()) * 256 + s.last() as nat
    }
}

impl Width {
    /// Number of bits of this width.
    pub open spec fn spec_bits(self) -> nat {
        match self {
            Width::W8 => 8,
            Width::W16 => 16,
            Width::W32 => 32,
            Width::W64 => 64,
            Width::W128 => 128,
        }
    }

    /// Number of bytes an encoded value of this width occupies.
    pub open spec fn spec_byte_len(self) -> nat {
        self.spec_bits() / 8
    }

    /// Largest value representable at this width.
    pub open spec fn spec_max_value(self) -> nat {
        match self {
            Width::W8 => 0xff,
            Width::W16 => 0xffff,
            Width::W32 => 0xffff_ffff,
            Width::W64 => 0xffff_ffff_ffff_ffff,
            Width::W128 => 0xffff_ffff_ffff_ffff_ffff_ffff_ffff_ffff,
        }
    }

    /// Number of bits of this width.
    pub fn bits(self) -> (r: u32)
        ensures
            r == self.spec_bits(),
    {
        match self {
            Width::W8 => 8,
            Width::W16 => 16,
            Width::W32 => 32,
            Width::W64 => 64,
            Width::W128 => 128,
        }
    }

    /// Number of bytes an encoded value of this width occupies.
    pub fn byte_len(self) -> (r: usize)
        ensures
            r == self.spec_byte_len(),
    {
        match self {
            Width::W8 => 1,
            Width::W16 => 2,
            Width::W32 => 4,
            Width::W64 => 8,
            Width::W128 => 16,
        }
    }
}

/// Strict lexicographic order on byte sequences: the first differing byte
/// decides, and a proper prefix sorts before its extensions.
pub open spec fn lex_lt(a: Seq<u8>, b: Seq<u8>) -> bool
    decreases a.len(),
{
    if b.len() == 0 {
        false
    } else if a.len() == 0 {
        true
    } else if a[0] != b[0] {
        a[0] < b[0]
    } else {
        lex_lt(a.drop_first(), b.drop_first())
    }
}

/// The values of `pow256` at the byte lengths of the supported widths.
pub proof fn lemma_pow256_values()
    ensures
        pow256(0) == 1,
        pow256(1) == 0x100,
        pow256(2) == 0x1_0000,
        pow256(4) == 0x1_0000_0000,
        pow256(8) == 0x1_0000_0000_0000_0000,
        pow256(16) == 0x1_0000_0000_0000_0000_0000_0000_0000_0000,
{
    reveal_with_fuel(pow256, 5);
    assert(pow256(4) == 0x1_0000_0000);
    assert(pow256(8) == 0x1_0000_0000 * pow256(4));
    assert(pow256(12) == 0x1_0000_0000 * pow256(8));
    assert(pow256(16) == 0x1_0000_0000 * pow256(12));
}

/// Every width holds exactly the numbers below 256 to the power of its byte length.
pub proof fn lemma_width_range(width: Width)
    ensures
        width.spec_max_value() + 1 == pow256(width.spec_byte_len()),
        1 <= width.spec_byte_len() <= 16,
{
    lemma_pow256_values();
}

/// An encoding has exactly the requested number of bytes.
pub proof fn lemma_be_bytes_len(v: nat, n: nat)
    ensures
        be_bytes(v, n).len() == n,
    decreases n,
{
    if n > 0 {
        lemma_be_bytes_len(v / 256, (n - 1) as nat);
    }
}

/// A byte sequence of length `n` stands for a number below 256 to the power `n`.
pub proof fn lemma_be_value_bound(s: Seq<u8>)
    ensures
        be_value(s) < pow256(s.len()),
    decreases s.len(),
{
    if s.len() > 0 {
        lemma_be_value_bound(s.drop_last());
    }
}

/// Decoding an encoding gives the number back, provided it fits in `n` bytes.
pub proof fn lemma_value_of_bytes(v: nat, n: nat)
    requires
        v < pow256(n),
    ensures
        be_value(be_bytes(v, n)) == v,
    decreases n,
{
    if n > 0 {
        let rest = be_bytes(v / 256, (n - 1) as nat);
        lemma_value_of_bytes(v / 256, (n - 1) as nat);
        assert(be_bytes(v, n).drop_last() =~= rest);
    }
}

/// Encoding a decoded byte sequence at its own length gives the bytes back.
pub proof fn lemma_bytes_of_value(s: Seq<u8>)
    ensures
        be_bytes(be_value(s), s.len()) == s,
    decreases s.len(),
{
    if s.len() > 0 {
        lemma_bytes_of_value(s.drop_last());
        assert(be_bytes(be_value(s), s.len()) =~= s);
    } else {
        assert(be_bytes(be_value(s), s.len()) =~= s);
    }
}

/// Appending one byte to two sequences of equal length: the longer sequences
/// compare as the shorter ones do, and the appended bytes break a tie.
pub proof fn lemma_lex_lt_push(a: Seq<u8>, b: Seq<u8>, p: u8, q: u8)
    requires
        a.len() == b.len(),
    ensures
        lex_lt(a.push(p), b.push(q)) == (lex_lt(a, b) || (a == b && p < q)),
    decreases a.len(),
{
    let ap = a.push(p);
    let bq = b.push(q);
    if a.len() == 0 {
        assert(a =~= b);
        assert(ap.drop_first() =~= Seq::<u8>::empty());
        assert(bq.drop_first() =~= Seq::<u8>::empty());
        assert(!lex_lt(Seq::<u8>::empty(), Seq::<u8>::empty()));
        assert(!lex_lt(a, b));
        assert(ap[0] == p && bq[0] == q);
    } else {
        assert(ap[0] == a[0] && bq[0] == b[0]);
        if a[0] == b[0] {
            lemma_lex_lt_push(a.drop_first(), b.drop_first(), p, q);
            assert(ap.drop_first() =~= a.drop_first().push(p));
            assert(bq.drop_first() =~= b.drop_first().push(q));
            if a.drop_first() == b.drop_first() {
                assert forall|i: int| 0 <= i < a.len() implies a[i] == b[i] by {
                    if i > 0 {
                        assert(a[i] == a.drop_first()[i - 1]);
                        assert(b[i] == b.drop_first()[i - 1]);
                    }
                }
                assert(a =~= b);
            }
        }
    }
}

/// Order preservation: two numbers that fit in `n` bytes compare as their
/// `n`-byte encodings do under the lexicographic order.
pub proof fn lemma_order_preserved(a: nat, b: nat, n: nat)
    requires
        a < pow256(n),
        b < pow256(n),
    ensures
        a < b <==> lex_lt(be_bytes(a, n), be_bytes(b, n)),
    decreases n,
{
    if n > 0 {
        let m = (n - 1) as nat;
        let hi_a = be_bytes(a / 256, m);
        let hi_b = be_bytes(b / 256, m);
        lemma_order_preserved(a / 256, b / 256, m);
        lemma_be_bytes_len(a / 256, m);
        lemma_be_bytes_len(b / 256, m);
        lemma_value_of_bytes(a / 256, m);
        lemma_value_of_bytes(b / 256, m);
        lemma_lex_lt_push(hi_a, hi_b, (a % 256) as u8, (b % 256) as u8);
    }
}

/// Two numbers that fit in `n` bytes are equal exactly when their encodings are.
pub proof fn lemma_encoding_injective(a: nat, b: nat, n: nat)
    requires
        a < pow256(n),
        b < pow256(n),
    ensures
        a == b <==> be_bytes(a, n) == be_bytes(b, n),
{
    lemma_value_of_bytes(a, n);
    lemma_value_of_bytes(b, n);
}

/// Round trip: a number that fits a width is read back unchanged from its
/// encoding at that width, and the encoding has the width's byte length.
pub proof fn lemma_round_trip(v: nat, width: Width)
    requires
        v <= width.spec_max_value(),
    ensures
        be_bytes(v, width.spec_byte_len()).len() == width.spec_byte_len(),
        be_value(be_bytes(v, width.spec_byte_len())) == v,
{
    lemma_width_range(width);
    lemma_be_bytes_len(v, width.spec_byte_len());
    lemma_value_of_bytes(v, width.spec_byte_len());
}

/// Order preservation at a width: two numbers that fit it compare exactly as
/// their encodings at that width compare byte by byte.
pub proof fn lemma_width_order_preserved(a: nat, b: nat, width: Width)
    requires
        a <= width.spec_max_value(),
        b <= width.spec_max_value(),
    ensures
        a < b <==> lex_lt(be_bytes(a, width.spec_byte_len()), be_bytes(b, width.spec_byte_len())),
        a == b <==> be_bytes(a, width.spec_byte_len()) == be_bytes(b, width.spec_byte_len()),
{
    lemma_width_range(width);
    lemma_order_preserved(a, b, width.spec_byte_len());
    lemma_encoding_injective(a, b, width.spec_byte_len());
}

/// Encodings at two different widths are never equal, whatever numbers they
/// hold: their lengths already differ.
pub proof fn lemma_widths_do_not_mix(a: nat, wa: Width, b: nat, wb: Width)
    requires
        wa != wb,
    ensures
        be_bytes(a, wa.spec_byte_len()).len() != be_bytes(b, wb.spec_byte_len()).len(),
        be_bytes(a, wa.spec_byte_len()) != be_bytes(b, wb.spec_byte_len()),
{
    lemma_be_bytes_len(a, wa.spec_byte_len());
    lemma_be_bytes_len(b, wb.spec_byte_len());
}

/// Writes `value` as `n` big-endian bytes.
pub fn be_encode(value: u128, n: usize) -> (out: Vec<u8>)
    ensures
        out@ == be_bytes(value as nat, n as nat),
{
    let mut out: Vec<u8> = Vec::new();
    let mut k: usize = 0;
    while k < n
        invariant
            k <= n,
            out@.len() == k,
        decreases n - k,
    {
        out.push(0u8);
        k = k + 1;
    }
    let mut rest: u128 = value;
    let mut i: usize = n;
    while i > 0
        invariant
            i <= n,
            out@.len() == n,
            be_bytes(value as nat, n as nat) == be_bytes(rest as nat, i as nat) + out@.subrange(
                i as int,
                n as int,
            ),
        decreases i,
    {
        let low: u8 = (rest % 256) as u8;
        let ghost before = out@;
        out.set(i - 1, low);
        proof {
            let head = be_bytes((rest / 256) as nat, (i - 1) as nat);
            assert(be_bytes(rest as nat, i as nat) == head.push(low));
            lemma_be_bytes_len((rest / 256) as nat, (i - 1) as nat);
            assert(head.push(low) + before.subrange(i as int, n as int) =~= head + out@.subrange(
                i - 1,
                n as int,
            ));
        }
        rest = rest / 256;
        i = i - 1;
    }
    proof {
        assert(be_bytes(rest as nat, 0) + out@.subrange(0, n as int) =~= out@);
    }
    out
}

/// Reads at most sixteen big-endian bytes as a number.
pub fn be_decode(bytes: &[u8]) -> (value: u128)
    requires
        bytes@.len() <= 16,
    ensures
        value == be_value(bytes@),
{
    let mut value: u128 = 0;
    let mut i: usize = 0;
    while i < bytes.len()
        invariant
            i <= bytes@.len() <= 16,
            value == be_value(bytes@.take(i as int)),
        decreases bytes@.len() - i,
    {
        proof {
            let prefix = bytes@.take(i as int);
            let next = bytes@.take(i + 1);
            lemma_be_value_bound(prefix);
            lemma_pow256_le(i as nat, 15);
            lemma_pow256_values();
            reveal_with_fuel(pow256, 2);
            assert(pow256(16) == 256 * pow256(15));
            assert(next.drop_last() =~= prefix);
            assert(next.last() == bytes@[i as int]);
        }
        value = value * 256 + bytes[i] as u128;
        i = i + 1;
    }
    proof {
        assert(bytes@.take(i as int) =~= bytes@);
    }
    value
}

/// `pow256` never decreases.
pub proof fn lemma_pow256_le(m: nat, n: nat)
    requires
        m <= n,
    ensures
        1 <= pow256(m) <= pow256(n),
    decreases n,
{
    if m < n {
        lemma_pow256_le(m, (n - 1) as nat);
    } else if n > 0 {
        lemma_pow256_le((m - 1) as nat, (n - 1) as nat);
    }
}

/// Byte-wise comparison, as a storage engine that orders raw keys performs it.
pub fn lex_less(a: &[u8], b: &[u8]) -> (r: bool)
    ensures
        r == lex_lt(a@, b@),
{
    let mut i: usize = 0;
    proof {
        assert(a@.skip(0) =~= a@);
        assert(b@.skip(0) =~= b@);
    }
    while i < a.len() && i < b.len()
        invariant
            i <= a@.len(),
            i <= b@.len(),
            lex_lt(a@, b@) == lex_lt(a@.skip(i as int), b@.skip(i as int)),
        decreases a@.len() - i,
    {
        proof {
            assert(a@.skip(i as int)[0] == a@[i as int]);
            assert(b@.skip(i as int)[0] == b@[i as int]);
            assert(a@.skip(i as int).drop_first() =~= a@.skip(i + 1));
            assert(b@.skip(i as int).drop_first() =~= b@.skip(i + 1));
        }
        if a[i] != b[i] {
            return a[i] < b[i];
        }
        i = i + 1;
    }
    a.len() < b.len()
}

/// Of two byte sequences, at most one sorts before the other.
pub proof fn lemma_lex_lt_asymmetric(a: Seq<u8>, b: Seq<u8>)
    requires
        lex_lt(a, b),
    ensures
        !lex_lt(b, a),
    decreases a.len(),
{
    if a.len() > 0 && b.len() > 0 && a[0] == b[0] {
        lemma_lex_lt_asymmetric(a.drop_first(), b.drop_first());
    }
}

/// Not sorting after is transitive: if `b` does not sort before `a`, nor
/// `c` before `b`, then `c` does not sort before `a`.
pub proof fn lemma_lex_le_transitive(a: Seq<u8>, b: Seq<u8>, c: Seq<u8>)
    requires
        !lex_lt(b, a),
        !lex_lt(c, b),
    ensures
        !lex_lt(c, a),
    decreases a.len(),
{
    if a.len() > 0 && b.len() > 0 && c.len() > 0 && a[0] == b[0] && b[0] == c[0] {
        lemma_lex_le_transitive(a.drop_first(), b.drop_first(), c.drop_first());
    }
}

} // verus!

//! Fixed-width Ethereum values held as plain integers: 20-byte addresses and
//! 256-bit words, together with their big-endian byte encodings.
use vstd::prelude::*;
use vstd::arithmetic::div_mod::{
    lemma_div_denominator, lemma_fundamental_div_mod, lemma_fundamental_div_mod_converse,
};

verus! {

/// `256^n`.
pub open spec fn pow256(n: nat) -> nat
    decreases n,
{
    if n == 0 {
        1
    } else {
        256 * pow256((n - 1) as nat)
    }
}

/// The natural number that a byte string denotes in big-endian order.
pub open spec fn be_value(s: Seq<u8>) -> nat
    decreases s.len(),
{
    if s.len() == 0 {
        0
    } else {
        be_value(s.drop_last()) * 256 + s.last() as nat
    }
}

/// `2^32`, the number of values of the low address part.
pub open spec fn two_32() -> nat {
    0x1_0000_0000
}

/// `2^128`.
pub open spec fn two_128() -> nat {
    0x1_0000_0000_0000_0000_0000_0000_0000_0000nat
}

pub proof fn lemma_pow256_positive(n: nat)
    ensures
        pow256(n) > 0,
    decreases n,
{
    if n > 0 {
        lemma_pow256_positive((n - 1) as nat);
    }
}

pub proof fn lemma_pow256_monotone(a: nat, b: nat)
    requires
        a <= b,
    ensures
        pow256(a) <= pow256(b),
    decreases b,
{
    if a < b {
        lemma_pow256_monotone(a, (b - 1) as nat);
        lemma_pow256_positive((b - 1) as nat);
    }
}

/// The powers of 256 that the fixed widths use.
pub proof fn lemma_pow256_values()
    ensures
        pow256(4) == two_32(),
        pow256(14) == 0x1_0000_0000_0000_0000_0000_0000_0000,
        pow256(16) == two_128(),
        pow256(20) == 0x1_0000_0000_0000_0000_0000_0000_0000_0000_0000_0000nat,
        pow256(32) == 0x1_0000_0000_0000_0000_0000_0000_0000_0000_0000_0000_0000_0000_0000_0000_0000_0000nat,
{
    reveal_with_fuel(pow256, 33);
}

pub proof fn lemma_be_value_bound(s: Seq<u8>)
    ensures
        be_value(s) < pow256(s.len()),
    decreases s.len(),
{
    if s.len() > 0 {
        lemma_be_value_bound(s.drop_last());
        let p = pow256((s.len() - 1) as nat);
        assert(be_value(s.drop_last()) * 256 + s.last() < p * 256) by (nonlinear_arith)
            requires
                be_value(s.drop_last()) < p,
                s.last() < 256,
        ;
    }
}

/// Concatenation of big-endian strings shifts the first part left.
pub proof fn lemma_be_value_append(a: Seq<u8>, b: Seq<u8>)
    ensures
        be_value(a + b) == be_value(a) * pow256(b.len()) + be_value(b),
    decreases b.len(),
{
    if b.len() == 0 {
        assert(a + b =~= a);
        assert(pow256(0) == 1);
        assert(be_value(b) == 0);
    } else {
        let b0 = b.drop_last();
        lemma_be_value_append(a, b0);
        assert((a + b).drop_last() =~= a + b0);
        assert((a + b).last() == b.last());
        let x = be_value(a);
        let p = pow256(b0.len());
        let v0 = be_value(b0);
        let l = b.last() as nat;
        assert(be_value(a + b) == be_value(a + b0) * 256 + l);
        assert(be_value(b) == v0 * 256 + l);
        assert(pow256(b.len()) == 256 * p);
        assert((x * p + v0) * 256 + l == x * (256 * p) + (v0 * 256 + l)) by (nonlinear_arith);
    }
}

/// Reads `bytes[start..end)` as a big-endian number.
pub fn be_u128(bytes: &[u8], start: usize, end: usize) -> (r: u128)
    requires
        start <= end <= bytes@.len(),
        end - start <= 16,
    ensures
        r as nat == be_value(bytes@.subrange(start as int, end as int)),
{
    let mut acc: u128 = 0;
    let mut i: usize = start;
    proof {
        assert(bytes@.subrange(start as int, start as int) =~= Seq::<u8>::empty());
    }
    while i < end
        invariant
            start <= i <= end <= bytes@.len(),
            end - start <= 16,
            acc as nat == be_value(bytes@.subrange(start as int, i as int)),
        decreases end - i,
    {
        let ghost prefix = bytes@.subrange(start as int, i as int);
        let ghost next = bytes@.subrange(start as int, i + 1);
        proof {
            assert(next.drop_last() =~= prefix);
            lemma_be_value_bound(next);
            lemma_pow256_monotone(next.len(), 16);
            lemma_pow256_values();
        }
        acc = acc * 256 + bytes[i] as u128;
        i = i + 1;
    }
    acc
}

/// The address whose number is the big-endian value of `s` (the high part
/// of that number and its low 32 bits).
pub open spec fn address_from_be(s: Seq<u8>) -> Address {
    let v = be_value(s);
    Address { hi: (v / two_32()) as u128, lo: (v % two_32()) as u32 }
}

/// `256^k` as a machine number, for `k < 16`.
fn pow256_u128(k: usize) -> (r: u128)
    requires
        k < 16,
    ensures
        r as nat == pow256(k as nat),
{
    let mut r: u128 = 1;
    let mut i: usize = 0;
    while i < k
        invariant
            i <= k < 16,
            r as nat == pow256(i as nat),
        decreases k - i,
    {
        proof {
            lemma_pow256_monotone((i + 1) as nat, 15);
            lemma_pow256_values();
            assert(pow256(15) < pow256(16)) by {
                lemma_pow256_positive(15);
            }
        }
        r = r * 256;
        i = i + 1;
    }
    r
}

/// Appends the `n` big-endian bytes of `x` to `out`.
pub fn push_be_bytes(out: &mut Vec<u8>, x: u128, n: usize)
    requires
        1 <= n <= 16,
        x < pow256(n as nat),
    ensures
        final(out)@.len() == old(out)@.len() + n,
        final(out)@.subrange(0, old(out)@.len() as int) == old(out)@,
        be_value(final(out)@.subrange(old(out)@.len() as int, final(out)@.len() as int)) == x,
{
    let ghost start = out@.len();
    let mut d: u128 = pow256_u128(n - 1);
    let mut i: usize = 0;
    proof {
        assert(out@.subrange(start as int, start as int) =~= Seq::<u8>::empty());
        lemma_pow256_positive(n as nat);
        lemma_fundamental_div_mod_converse(x as int, pow256(n as nat) as int, 0, x as int);
    }
    while i < n
        invariant
            1 <= n <= 16,
            x < pow256(n as nat),
            i <= n,
            out@.len() == start + i,
            out@.subrange(0, start as int) == old(out)@,
            start == old(out)@.len(),
            i < n ==> d as nat == pow256((n - 1 - i) as nat),
            be_value(out@.subrange(start as int, out@.len() as int)) == x as nat / pow256(
                (n - i) as nat,
            ),
        decreases n - i,
    {
        proof {
            lemma_pow256_positive((n - 1 - i) as nat);
        }
        let b = ((x / d) % 256) as u8;
        let ghost prev = out@;
        out.push(b);
        proof {
            let k = (n - 1 - i) as nat;
            let q = x as int / d as int;
            lemma_pow256_positive(k);
            assert(pow256(k + 1) == 256 * pow256(k));
            lemma_div_denominator(x as int, d as int, 256);
            assert(x as int / (d as int * 256) == q / 256);
            lemma_fundamental_div_mod(q, 256);
            let seg = out@.subrange(start as int, out@.len() as int);
            assert(seg.drop_last() =~= prev.subrange(start as int, prev.len() as int));
            assert(seg.last() == b);
            assert(out@.subrange(0, start as int) =~= prev.subrange(0, start as int));
            assert((n - i) as nat == k + 1);
            assert(pow256(k + 1) == d as int * 256);
        }
        if i + 1 < n {
            d = d / 256;
            proof {
                let k = (n - 1 - i) as nat;
                assert(pow256(k) == 256 * pow256((k - 1) as nat));
            }
        }
        i = i + 1;
    }
    proof {
        assert(pow256(0) == 1);
        assert(x as nat / 1 == x);
    }
}

/// A 20-byte Ethereum address, held as the number it denotes in big-endian
/// order: the first sixteen bytes in `hi`, the last four in `lo`.
#[derive(Clone, Copy, PartialEq, Eq, Hash, Debug, Structural)]
pub struct Address {
    pub hi: u128,
    pub lo: u32,
}

impl Address {
    /// The address as a number below `2^160`.
    pub open spec fn value(self) -> nat {
        self.hi as nat * two_32() + self.lo as nat
    }

    /// The zero address.
    pub fn zero() -> (r: Address)
        ensures
            r.value() == 0,
            r == (Address { hi: 0, lo: 0 }),
    {
        Address { hi: 0, lo: 0 }
    }

    /// Whether this is the zero address.
    pub fn is_zero(&self) -> (r: bool)
        ensures
            r == (self.value() == 0),
    {
        self.hi == 0 && self.lo == 0
    }

    /// Byte-wise (equivalently, numeric) order of addresses.
    pub fn less_than(&self, other: &Address) -> (r: bool)
        ensures
            r == (self.value() < other.value()),
    {
        self.hi < other.hi || (self.hi == other.hi && self.lo < other.lo)
    }

    /// The address that 20 big-endian bytes denote.
    pub fn from_bytes(bytes: [u8; 20]) -> (r: Address)
        ensures
            r.value() == be_value(bytes@),
            r == address_from_be(bytes@),
    {
        let s = bytes.as_slice();
        let hi = be_u128(s, 0, 16);
        let lo = be_u128(s, 16, 20);
        proof {
            let b = bytes@;
            assert(b =~= b.subrange(0, 16) + b.subrange(16, 20));
            lemma_be_value_append(b.subrange(0, 16), b.subrange(16, 20));
            lemma_be_value_bound(b.subrange(16, 20));
            lemma_pow256_values();
            lemma_fundamental_div_mod_converse(be_value(b) as int, two_32() as int, hi as int, lo as int);
        }
        Address { hi, lo: lo as u32 }
    }

    /// The 20 big-endian bytes of the address.
    pub fn to_vec(&self) -> (r: Vec<u8>)
        ensures
            r@.len() == 20,
            be_value(r@) == self.value(),
    {
        let mut out: Vec<u8> = Vec::new();
        proof {
            lemma_pow256_values();
        }
        push_be_bytes(&mut out, self.hi, 16);
        let ghost first = out@;
        push_be_bytes(&mut out, self.lo as u128, 4);
        proof {
            assert(first =~= out@.subrange(0, 16));
            assert(out@ =~= out@.subrange(0, 16) + out@.subrange(16, 20));
            lemma_be_value_append(out@.subrange(0, 16), out@.subrange(16, 20));
            assert(first.subrange(0, 0) =~= Seq::<u8>::empty());
            assert(first =~= first.subrange(0, 16));
        }
        out
    }

    /// The address held in the low 20 bytes of a 32-byte word, as an ABI
    /// word or a log topic carries it; the high 12 bytes are ignored.
    pub fn from_word(word: [u8; 32]) -> (r: Address)
        ensures
            r.value() == be_value(word@.subrange(12, 32)),
            r == address_from_be(word@.subrange(12, 32)),
    {
        let s = word.as_slice();
        let hi = be_u128(s, 12, 28);
        let lo = be_u128(s, 28, 32);
        proof {
            let b = word@.subrange(12, 32);
            assert(b.subrange(0, 16) =~= word@.subrange(12, 28));
            assert(b.subrange(16, 20) =~= word@.subrange(28, 32));
            assert(b =~= b.subrange(0, 16) + b.subrange(16, 20));
            lemma_be_value_append(b.subrange(0, 16), b.subrange(16, 20));
            lemma_be_value_bound(b.subrange(16, 20));
            lemma_pow256_values();
            lemma_fundamental_div_mod_converse(be_value(b) as int, two_32() as int, hi as int, lo as int);
        }
        Address { hi, lo: lo as u32 }
    }
}

/// Two addresses that denote the same number are the same address.
pub proof fn lemma_address_value_injective(a: Address, b: Address)
    requires
        a.value() == b.value(),
    ensures
        a == b,
{
    lemma_fundamental_div_mod_converse(a.value() as int, two_32() as int, a.hi as int, a.lo as int);
    lemma_fundamental_div_mod_converse(b.value() as int, two_32() as int, b.hi as int, b.lo as int);
}

/// `2^112`, one past the largest 112-bit value.
pub open spec fn two_112() -> nat {
    0x1_0000_0000_0000_0000_0000_0000_0000
}

/// A 256-bit unsigned number: `hi * 2^128 + lo`.
#[derive(Clone, Copy, PartialEq, Eq, Hash, Debug, Structural)]
pub struct U256 {
    pub hi: u128,
    pub lo: u128,
}

impl U256 {
    /// The number.
    pub open spec fn value(self) -> nat {
        self.hi as nat * two_128() + self.lo as nat
    }

    /// Zero.
    pub fn zero() -> (r: U256)
        ensures
            r.value() == 0,
    {
        U256 { hi: 0, lo: 0 }
    }

    /// The number `x`.
    pub fn from_u128(x: u128) -> (r: U256)
        ensures
            r.value() == x,
    {
        U256 { hi: 0, lo: x }
    }

    /// Whether the number is zero.
    pub fn is_zero(&self) -> (r: bool)
        ensures
            r == (self.value() == 0),
    {
        self.hi == 0 && self.lo == 0
    }

    /// Whether the number is larger than `2^112 - 1`, the largest 112-bit
    /// value.
    pub fn exceeds_112_bits(&self) -> (r: bool)
        ensures
            r == (self.value() >= two_112()),
    {
        self.hi != 0 || self.lo > 0xffff_ffff_ffff_ffff_ffff_ffff_ffff
    }

    /// The number that 32 big-endian bytes denote.
    pub fn from_be_bytes(bytes: [u8; 32]) -> (r: U256)
        ensures
            r.value() == be_value(bytes@),
    {
        let s = bytes.as_slice();
        let hi = be_u128(s, 0, 16);
        let lo = be_u128(s, 16, 32);
        proof {
            let b = bytes@;
            assert(b =~= b.subrange(0, 16) + b.subrange(16, 32));
            lemma_be_value_append(b.subrange(0, 16), b.subrange(16, 32));
            lemma_pow256_values();
        }
        U256 { hi, lo }
    }
}

/// Big-endian strings of one length that denote the same number are equal.
pub proof fn lemma_be_value_injective(a: Seq<u8>, b: Seq<u8>)
    requires
        a.len() == b.len(),
        be_value(a) == be_value(b),
    ensures
        a == b,
    decreases a.len(),
{
    if a.len() == 0 {
        assert(a =~= b);
    } else {
        let x = be_value(a.drop_last()) as int;
        let y = be_value(b.drop_last()) as int;
        let la = a.last() as int;
        let lb = b.last() as int;
        lemma_fundamental_div_mod_converse(x * 256 + la, 256, x, la);
        lemma_fundamental_div_mod_converse(y * 256 + lb, 256, y, lb);
        lemma_be_value_injective(a.drop_last(), b.drop_last());
        assert(a =~= a.drop_last().push(a.last()));
        assert(b =~= b.drop_last().push(b.last()));
    }
}

/// Two 20-byte big-endian strings that denote the same address are equal.
pub proof fn lemma_address_from_be_injective(a: Seq<u8>, b: Seq<u8>)
    requires
        a.len() == 20,
        b.len() == 20,
        address_from_be(a) == address_from_be(b),
    ensures
        a == b,
{
    lemma_be_value_bound(a);
    lemma_be_value_bound(b);
    lemma_pow256_values();
    let va = be_value(a) as int;
    let vb = be_value(b) as int;
    let p = 0x1_0000_0000int;
    lemma_fundamental_div_mod(va, p);
    lemma_fundamental_div_mod(vb, p);
    assert(va / p < 0x1_0000_0000_0000_0000_0000_0000_0000_0000int) by (nonlinear_arith)
        requires
            va == p * (va / p) + va % p,
            0 <= va % p,
            va < 0x1_0000_0000_0000_0000_0000_0000_0000_0000_0000_0000int,
            p == 0x1_0000_0000int,
    ;
    assert(vb / p < 0x1_0000_0000_0000_0000_0000_0000_0000_0000int) by (nonlinear_arith)
        requires
            vb == p * (vb / p) + vb % p,
            0 <= vb % p,
            vb < 0x1_0000_0000_0000_0000_0000_0000_0000_0000_0000_0000int,
            p == 0x1_0000_0000int,
    ;
    assert(va / p == vb / p);
    assert(va % p == vb % p);
    lemma_be_value_injective(a, b);
}

/// Reading back the big-endian bytes of an address gives the address.
pub proof fn lemma_address_from_be_value(a: Address, s: Seq<u8>)
    requires
        be_value(s) == a.value(),
    ensures
        address_from_be(s) == a,
{
    lemma_fundamental_div_mod_converse(a.value() as int, two_32() as int, a.hi as int, a.lo as int);
}

} // verus!

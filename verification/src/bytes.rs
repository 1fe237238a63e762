//! Integers as big-endian bytes.
use vstd::arithmetic::power::*;
use vstd::prelude::*;
use vstd::string::*;
use vstd::utf8::*;

verus! {

/// The `k` bytes of `n`, most significant first.
pub open spec fn be(n: nat, k: nat) -> Seq<u8>
    decreases k,
{
    if k == 0 {
        Seq::empty()
    } else {
        be(n / 256, (k - 1) as nat).push((n % 256) as u8)
    }
}

/// The number that bytes denote, most significant first.
pub open spec fn be_value(s: Seq<u8>) -> nat
    decreases s.len(),
{
    if s.len() == 0 {
        0
    } else {
        be_value(s.drop_last()) * 256 + s.last() as nat
    }
}

/// The bit pattern of a 64-bit integer.
pub open spec fn bits64(v: i64) -> u64 {
    if v < 0 {
        (v + 0x1_0000_0000_0000_0000) as u64
    } else {
        v as u64
    }
}

/// The 64-bit integer of a bit pattern.
pub open spec fn signed64(v: u64) -> i64 {
    if v >= 0x8000_0000_0000_0000 {
        (v - 0x1_0000_0000_0000_0000) as i64
    } else {
        v as i64
    }
}

/// The 32-bit integer of a bit pattern.
pub open spec fn signed32(v: u32) -> i32 {
    if v >= 0x8000_0000 {
        (v - 0x1_0000_0000) as i32
    } else {
        v as i32
    }
}

/// The 16-bit integer of a bit pattern.
pub open spec fn signed16(v: u16) -> i16 {
    if v >= 0x8000 {
        (v - 0x1_0000) as i16
    } else {
        v as i16
    }
}

/// The bit pattern of a 32-bit integer.
pub open spec fn bits32(v: i32) -> u32 {
    if v < 0 {
        (v + 0x1_0000_0000) as u32
    } else {
        v as u32
    }
}

pub proof fn lemma_be_len(n: nat, k: nat)
    ensures
        be(n, k).len() == k,
    decreases k,
{
    if k > 0 {
        lemma_be_len(n / 256, (k - 1) as nat);
    }
}

/// Reading back what was written.
pub proof fn lemma_be_value(n: nat, k: nat)
    requires
        n < pow(256, k),
    ensures
        be_value(be(n, k)) == n,
        be(n, k).len() == k,
    decreases k,
{
    reveal(pow);
    lemma_be_len(n, k);
    if k > 0 {
        let p = pow(256, (k - 1) as nat);
        assert(n / 256 < p) by (nonlinear_arith)
            requires
                n < 256 * p,
        ;
        lemma_be_value(n / 256, (k - 1) as nat);
        assert(be(n, k).drop_last() =~= be(n / 256, (k - 1) as nat));
    }
}

/// Bytes denote less than 256 to the power of their number.
pub proof fn lemma_be_value_bound(s: Seq<u8>)
    ensures
        be_value(s) < pow(256, s.len()),
    decreases s.len(),
{
    reveal(pow);
    if s.len() > 0 {
        lemma_be_value_bound(s.drop_last());
    }
}

pub proof fn lemma_pow256()
    ensures
        pow(256, 0) == 1,
        pow(256, 1) == 0x100,
        pow(256, 2) == 0x1_0000,
        pow(256, 4) == 0x1_0000_0000,
        pow(256, 8) == 0x1_0000_0000_0000_0000,
{
    reveal(pow);
    reveal_with_fuel(pow, 9);
}

/// Appends the `k` bytes of `n`.
pub fn push_be(out: &mut Vec<u8>, n: u64, k: u64)
    ensures
        final(out)@ == old(out)@ + be(n as nat, k as nat),
    decreases k,
{
    if k > 0 {
        push_be(out, n / 256, k - 1);
        out.push((n % 256) as u8);
        proof {
            let a = old(out)@;
            let b = be((n / 256) as nat, (k - 1) as nat);
            assert((a + b).push((n % 256) as u8) =~= a + be(n as nat, k as nat));
        }
    } else {
        proof {
            assert(old(out)@ + be(n as nat, 0) =~= old(out)@);
        }
    }
}

/// The number in the bytes of `b` from `at` on.
pub fn read_be(b: &[u8], at: usize, k: usize) -> (r: u64)
    requires
        at + k <= b@.len(),
        k <= 8,
    ensures
        r == be_value(b@.subrange(at as int, at + k)),
        r < pow(256, k as nat),
{
    let n: usize = b.len();
    let mut v: u64 = 0;
    let mut i: usize = 0;
    proof {
        lemma_be_value_bound(b@.subrange(at as int, at + k));
        assert(b@.subrange(at as int, at as int) =~= Seq::<u8>::empty());
    }
    while i < k
        invariant
            at + k <= n == b@.len(),
            i <= k <= 8,
            v == be_value(b@.subrange(at as int, at + i)),
        decreases k - i,
    {
        proof {
            let t = b@.subrange(at as int, at + i + 1);
            assert(t.drop_last() =~= b@.subrange(at as int, at + i));
            lemma_be_value_bound(t);
            lemma_pow_increases(256, t.len(), 8);
            lemma_pow256();
        }
        v = v * 256 + b[at + i] as u64;
        i += 1;
    }
    v
}

/// The bit pattern of `v`.
pub fn to_bits64(v: i64) -> (r: u64)
    ensures
        r == bits64(v),
{
    if v >= 0 {
        v as u64
    } else {
        0xffff_ffff_ffff_ffffu64 - ((-(v + 1)) as u64)
    }
}

pub fn to_signed64(v: u64) -> (r: i64)
    ensures
        r == signed64(v),
{
    if v >= 0x8000_0000_0000_0000 {
        -((0xffff_ffff_ffff_ffffu64 - v) as i64) - 1
    } else {
        v as i64
    }
}

pub fn to_signed32(v: u32) -> (r: i32)
    ensures
        r == signed32(v),
{
    if v >= 0x8000_0000 {
        -((0xffff_ffffu32 - v) as i32) - 1
    } else {
        v as i32
    }
}

pub fn to_signed16(v: u16) -> (r: i16)
    ensures
        r == signed16(v),
{
    if v >= 0x8000 {
        -((0xffffu16 - v) as i16) - 1
    } else {
        v as i16
    }
}

pub fn to_bits32(v: i32) -> (r: u32)
    ensures
        r == bits32(v),
{
    if v >= 0 {
        v as u32
    } else {
        0xffff_ffffu32 - ((-(v + 1)) as u32)
    }
}

/// A copy of the bytes from `from` up to, not including, `to`.
pub fn copy(b: &[u8], from: usize, to: usize) -> (r: Vec<u8>)
    requires
        from <= to <= b@.len(),
    ensures
        r@ == b@.subrange(from as int, to as int),
{
    let mut out: Vec<u8> = Vec::new();
    let mut i: usize = from;
    while i < to
        invariant
            from <= i <= to <= b@.len(),
            out@ == b@.subrange(from as int, i as int),
        decreases to - i,
    {
        proof {
            assert(b@.subrange(from as int, i + 1) =~= b@.subrange(from as int, i as int).push(
                b@[i as int],
            ));
        }
        out.push(b[i]);
        i += 1;
    }
    out
}

/// Appends bytes.
pub fn push_all(out: &mut Vec<u8>, b: &[u8])
    ensures
        final(out)@ == old(out)@ + b@,
{
    let mut i: usize = 0;
    let ghost start = out@;
    proof {
        assert(start + b@.take(0) =~= start);
    }
    while i < b.len()
        invariant
            i <= b@.len(),
            out@ == start + b@.take(i as int),
        decreases b@.len() - i,
    {
        proof {
            assert((start + b@.take(i as int)).push(b@[i as int]) =~= start + b@.take(i + 1));
        }
        out.push(b[i]);
        i += 1;
    }
    proof {
        assert(b@.take(b@.len() as int) =~= b@);
    }
}

/// Whether the two byte strings are equal.
pub fn same(a: &[u8], b: &[u8]) -> (r: bool)
    ensures
        r == (a@ == b@),
{
    if a.len() != b.len() {
        return false;
    }
    let mut i: usize = 0;
    while i < a.len()
        invariant
            i <= a@.len() == b@.len(),
            forall|k: int| 0 <= k < i ==> a@[k] == b@[k],
        decreases a@.len() - i,
    {
        if a[i] != b[i] {
            return false;
        }
        i += 1;
    }
    proof {
        assert(a@ =~= b@);
    }
    true
}

/// `std::str::from_utf8`: the string that the bytes encode, where they are valid UTF-8.
#[verifier::external_body]
fn str_of_utf8<'a>(b: &'a [u8]) -> (r: Option<&'a str>)
    ensures
        r is Some <==> valid_utf8(b@),
        r is Some ==> r->0.spec_bytes() == b@,
{
    std::str::from_utf8(b).ok()
}

/// The text that bytes encode, where they are valid UTF-8.
pub open spec fn text_of(b: Seq<u8>) -> Option<Seq<char>> {
    if valid_utf8(b) {
        Some(decode_utf8(b))
    } else {
        None
    }
}

/// The string that bytes encode, where they are valid UTF-8.
pub fn utf8_str<'a>(b: &'a [u8]) -> (r: Option<&'a str>)
    ensures
        match r {
            Some(s) => text_of(b@) == Some(s@),
            None => text_of(b@) is None,
        },
{
    match str_of_utf8(b) {
        Some(s) => {
            proof {
                encode_utf8_decode_utf8(s@);
            }
            Some(s)
        },
        None => None,
    }
}

/// The text that bytes encode, where they are valid UTF-8.
pub fn utf8(b: &[u8]) -> (r: Option<String>)
    ensures
        match r {
            Some(s) => text_of(b@) == Some(s@),
            None => text_of(b@) is None,
        },
{
    match utf8_str(b) {
        Some(s) => Some(s.to_owned()),
        None => None,
    }
}

/// Text is what its bytes encode: the bytes of a text read back as it, and bytes that read as
/// a text are its bytes.
pub proof fn law_text_is_its_encoding(s: Seq<char>, b: Seq<u8>)
    ensures
        text_of(encode_utf8(s)) == Some(s),
        text_of(b) == Some(s) ==> b == encode_utf8(s),
{
    encode_utf8_valid_utf8(s);
    encode_utf8_decode_utf8(s);
    if text_of(b) == Some(s) {
        decode_utf8_encode_utf8(b);
    }
}

/// A bit pattern and the integer that it stands for determine each other, and small numbers
/// stand for themselves.
pub proof fn law_signed_patterns_round_trip(v: u64, w: u32, x: u16, i: i64, j: i32)
    ensures
        bits64(signed64(v)) == v,
        signed64(bits64(i)) == i,
        bits32(signed32(w)) == w,
        signed32(bits32(j)) == j,
        v < 0x8000_0000_0000_0000 ==> signed64(v) == v,
        w < 0x8000_0000 ==> signed32(w) == w,
        x < 0x8000 ==> signed16(x) == x,
        v >= 0x8000_0000_0000_0000 ==> signed64(v) == v - 0x1_0000_0000_0000_0000,
        w >= 0x8000_0000 ==> signed32(w) == w - 0x1_0000_0000,
        x >= 0x8000 ==> signed16(x) == x - 0x1_0000,
{
}

/// The first byte counts most: the value of some bytes and one more is 256 times theirs plus
/// the last one, and a number is written the same way.
pub proof fn law_the_first_byte_counts_most(s: Seq<u8>, b: u8, n: nat, k: nat)
    ensures
        be_value(s.push(b)) == 256 * be_value(s) + b,
        be(n, k + 1) == be(n / 256, k).push((n % 256) as u8),
        be_value(Seq::empty()) == 0,
{
    assert(s.push(b).drop_last() =~= s);
}

} // verus!

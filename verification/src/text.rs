//! Text as sequences of characters: comparison, numerals in a given base, trimming and
//! assembly of strings.
use vstd::arithmetic::power::pow;
use vstd::prelude::*;
use vstd::string::*;
use vstd::utf8::*;

verus! {

/// `String::push` appends one character.
pub assume_specification[ String::push ](s: &mut String, c: char)
    ensures
        final(s)@ == old(s)@.push(c),
;

/// The characters of `s`, in order.
pub fn chars(s: &str) -> (r: Vec<char>)
    ensures
        r@ == s@,
{
    let mut out: Vec<char> = Vec::new();
    for c in it: s.chars()
        invariant
            out@ == s@.take(it.index() as int),
            it.seq() == s@,
    {
        proof {
            assert(s@.take(it.index() as int + 1) =~= s@.take(it.index() as int).push(c));
        }
        out.push(c);
    }
    proof {
        assert(s@.take(s@.len() as int) =~= s@);
    }
    out
}

/// The string with exactly the characters of `cs`.
pub fn from_chars(cs: &[char]) -> (r: String)
    ensures
        r@ == cs@,
{
    let mut out: String = String::new();
    let mut i: usize = 0;
    while i < cs.len()
        invariant
            i <= cs@.len(),
            out@ == cs@.take(i as int),
        decreases cs@.len() - i,
    {
        proof {
            assert(cs@.take(i + 1) =~= cs@.take(i as int).push(cs@[i as int]));
        }
        out.push(cs[i]);
        i += 1;
    }
    proof {
        assert(cs@.take(cs@.len() as int) =~= cs@);
    }
    out
}

/// A copy of the part of `cs` from `from` up to, not including, `to`.
pub fn slice_chars(cs: &Vec<char>, from: usize, to: usize) -> (r: Vec<char>)
    requires
        from <= to <= cs@.len(),
    ensures
        r@ == cs@.subrange(from as int, to as int),
{
    let mut out: Vec<char> = Vec::new();
    let mut i: usize = from;
    while i < to
        invariant
            from <= i <= to <= cs@.len(),
            out@ == cs@.subrange(from as int, i as int),
        decreases to - i,
    {
        proof {
            assert(cs@.subrange(from as int, i + 1) =~= cs@.subrange(from as int, i as int).push(
                cs@[i as int],
            ));
        }
        out.push(cs[i]);
        i += 1;
    }
    out
}

/// Whether the two strings hold the same characters.
pub fn same(a: &str, b: &str) -> (r: bool)
    ensures
        r == (a@ == b@),
{
    let x = a.as_bytes();
    let y = b.as_bytes();
    proof {
        broadcast use encode_utf8_decode_utf8;
        assert(decode_utf8(encode_utf8(a@)) == a@);
        assert(decode_utf8(encode_utf8(b@)) == b@);
    }
    if x.len() != y.len() {
        return false;
    }
    let mut i: usize = 0;
    while i < x.len()
        invariant
            i <= x@.len() == y@.len(),
            x@ == a.spec_bytes(),
            y@ == b.spec_bytes(),
            forall|k: int| 0 <= k < i ==> x@[k] == y@[k],
        decreases x@.len() - i,
    {
        if x[i] != y[i] {
            return false;
        }
        i += 1;
    }
    proof {
        assert(x@ =~= y@);
    }
    true
}

/// Whether `a` stands strictly before `b`: at the first character in which they differ
/// it has the smaller one, or it is a proper prefix of `b`. This is the order of `str`.
pub open spec fn before(a: Seq<char>, b: Seq<char>) -> bool
    decreases a.len(),
{
    if b.len() == 0 {
        false
    } else if a.len() == 0 {
        true
    } else if a[0] != b[0] {
        a[0] < b[0]
    } else {
        before(a.drop_first(), b.drop_first())
    }
}

pub proof fn lemma_before_irreflexive(a: Seq<char>)
    ensures
        !before(a, a),
    decreases a.len(),
{
    if a.len() > 0 {
        lemma_before_irreflexive(a.drop_first());
    }
}

pub proof fn lemma_before_transitive(a: Seq<char>, b: Seq<char>, c: Seq<char>)
    requires
        before(a, b),
        before(b, c),
    ensures
        before(a, c),
    decreases a.len(),
{
    if a.len() > 0 && b.len() > 0 && c.len() > 0 && a[0] == b[0] && b[0] == c[0] {
        lemma_before_transitive(a.drop_first(), b.drop_first(), c.drop_first());
    }
}

pub proof fn lemma_before_total(a: Seq<char>, b: Seq<char>)
    ensures
        before(a, b) || before(b, a) || a == b,
    decreases a.len(),
{
    if a.len() > 0 && b.len() > 0 {
        if a[0] == b[0] {
            lemma_before_total(a.drop_first(), b.drop_first());
            if a.drop_first() == b.drop_first() {
                assert(a =~= seq![a[0]] + a.drop_first());
                assert(b =~= seq![b[0]] + b.drop_first());
                assert(a == b);
            }
        }
    } else {
        if a.len() == 0 && b.len() == 0 {
            assert(a =~= b);
        }
    }
}

/// Whether `a` stands strictly before `b` in the order of `str`.
pub fn is_before(a: &str, b: &str) -> (r: bool)
    ensures
        r == before(a@, b@),
{
    let x = chars(a);
    let y = chars(b);
    let mut i: usize = 0;
    proof {
        assert(x@.skip(0) =~= x@);
        assert(y@.skip(0) =~= y@);
    }
    loop
        invariant
            i <= x@.len(),
            i <= y@.len(),
            before(x@, y@) == before(x@.skip(i as int), y@.skip(i as int)),
            x@ == a@,
            y@ == b@,
        decreases x@.len() - i,
    {
        if i >= y.len() {
            return false;
        }
        if i >= x.len() {
            return true;
        }
        let p = x[i];
        let q = y[i];
        if p != q {
            return p < q;
        }
        proof {
            assert(x@.skip(i as int).drop_first() =~= x@.skip(i + 1));
            assert(y@.skip(i as int).drop_first() =~= y@.skip(i + 1));
        }
        i += 1;
    }
}

// ---------------------------------------------------------------------------------------
// Numerals.
// ---------------------------------------------------------------------------------------

/// The value of `c` as a digit of a base up to 36 (case is ignored), or 36 where it is none.
pub open spec fn digit_value(c: char) -> nat {
    if '0' <= c && c <= '9' {
        (c as u32 - 48) as nat
    } else if 'a' <= c && c <= 'z' {
        (c as u32 - 87) as nat
    } else if 'A' <= c && c <= 'Z' {
        (c as u32 - 55) as nat
    } else {
        36
    }
}

pub fn digit(c: char) -> (r: u64)
    ensures
        r == digit_value(c),
        r <= 36,
{
    if '0' <= c && c <= '9' {
        (c as u32 - 48) as u64
    } else if 'a' <= c && c <= 'z' {
        (c as u32 - 87) as u64
    } else if 'A' <= c && c <= 'Z' {
        (c as u32 - 55) as u64
    } else {
        36
    }
}

/// The lower-case digit of value `v`.
pub open spec fn digit_char(v: nat) -> char {
    if v < 10 {
        (48 + v) as char
    } else {
        (87 + v) as char
    }
}

fn char_of_digit(v: u64) -> (r: char)
    requires
        v < 36,
    ensures
        r == digit_char(v as nat),
{
    if v < 10 {
        (48u8 + v as u8) as char
    } else {
        (87u8 + v as u8) as char
    }
}

/// Whether every character is a digit of the base.
pub open spec fn all_digits(s: Seq<char>, base: nat) -> bool {
    forall|i: int| 0 <= i < s.len() ==> #[trigger] digit_value(s[i]) < base
}

/// The number that a sequence of digits denotes, most significant first.
pub open spec fn numeral_value(s: Seq<char>, base: nat) -> nat
    decreases s.len(),
{
    if s.len() == 0 {
        0
    } else {
        numeral_value(s.drop_last(), base) * base + digit_value(s.last())
    }
}

/// The shortest lower-case numeral of `n`.
pub open spec fn numeral(n: nat, base: nat) -> Seq<char>
    decreases n,
{
    if base < 2 || n < base {
        seq![digit_char(n)]
    } else {
        proof {
            assert(n / base < n) by (nonlinear_arith)
                requires
                    base >= 2,
                    n >= base,
            ;
        }
        numeral(n / base, base).push(digit_char(n % base))
    }
}

/// The decimal numeral of an integer, with a minus sign where it is negative.
pub open spec fn decimal(n: int) -> Seq<char> {
    if n < 0 {
        seq!['-'] + numeral((-n) as nat, 10)
    } else {
        numeral(n as nat, 10)
    }
}

/// A numeral consists of digits and denotes the number that it was made from.
pub proof fn lemma_numeral_value(n: nat, base: nat)
    requires
        2 <= base <= 36,
    ensures
        all_digits(numeral(n, base), base),
        numeral_value(numeral(n, base), base) == n,
        numeral(n, base).len() >= 1,
    decreases n,
{
    if n < base {
        let s = seq![digit_char(n)];
        assert(s.drop_last() =~= Seq::<char>::empty());
        assert(numeral_value(Seq::<char>::empty(), base) == 0);
        assert(digit_value(digit_char(n)) == n);
        assert(0 * base == 0);
    } else {
        assert(n / base < n) by (nonlinear_arith)
            requires
                2 <= base,
                n >= base,
        ;
        lemma_numeral_value(n / base, base);
        let p = numeral(n / base, base);
        let d = digit_char(n % base);
        assert(n % base < base) by (nonlinear_arith)
            requires
                2 <= base,
        ;
        assert(digit_value(d) == n % base);
        let s = p.push(d);
        assert(s.drop_last() =~= p);
        assert forall|i: int| 0 <= i < s.len() implies #[trigger] digit_value(s[i]) < base by {
            if i < p.len() {
                assert(s[i] == p[i]);
            }
        }
        assert((n / base) * base + n % base == n) by (nonlinear_arith)
            requires
                2 <= base,
        ;
    }
}

/// A numeral in two parts.
pub proof fn lemma_numeral_concat(a: Seq<char>, b: Seq<char>, base: nat)
    ensures
        numeral_value(a + b, base) == numeral_value(a, base) * pow(base as int, b.len())
            + numeral_value(b, base),
    decreases b.len(),
{
    reveal(pow);
    if b.len() == 0 {
        assert(a + b =~= a);
        assert(numeral_value(a, base) * 1 == numeral_value(a, base));
    } else {
        let t = b.drop_last();
        lemma_numeral_concat(a, t, base);
        assert((a + b).drop_last() =~= a + t);
        assert((a + b).last() == b.last());
        let x = numeral_value(a, base) as int;
        let y = numeral_value(t, base) as int;
        let p = pow(base as int, t.len());
        let n = base as int;
        assert((x * p + y) * n == x * (n * p) + y * n) by (nonlinear_arith);
        assert(pow(base as int, b.len()) == n * p);
    }
}

/// A numeral of `n` digits denotes less than the base to the power `n`.
pub proof fn lemma_numeral_bound(s: Seq<char>, base: nat)
    requires
        base >= 1,
        all_digits(s, base),
    ensures
        numeral_value(s, base) < pow(base as int, s.len()),
    decreases s.len(),
{
    reveal(pow);
    if s.len() > 0 {
        let t = s.drop_last();
        assert forall|i: int| 0 <= i < t.len() implies #[trigger] digit_value(t[i]) < base by {
            assert(t[i] == s[i]);
        }
        lemma_numeral_bound(t, base);
        let v = numeral_value(t, base) as int;
        let n = base as int;
        let p = pow(n, t.len());
        assert(digit_value(s[s.len() - 1]) < base);
        assert(v * n + (n - 1) < n * p) by (nonlinear_arith)
            requires
                v + 1 <= p,
                n >= 1,
        ;
    }
}

/// Reads `s` as an unsigned numeral: at least one digit, nothing but digits, and a value
/// that fits.
pub open spec fn parse_digits(s: Seq<char>, base: nat) -> Option<u64> {
    if s.len() > 0 && all_digits(s, base) && numeral_value(s, base) <= u64::MAX {
        Some(numeral_value(s, base) as u64)
    } else {
        None
    }
}

pub fn read_digits(s: &[char], base: u64) -> (r: Option<u64>)
    requires
        2 <= base <= 36,
    ensures
        r == parse_digits(s@, base as nat),
{
    if s.len() == 0 {
        return None;
    }
    let mut v: u64 = 0;
    let mut overflow: bool = false;
    let mut i: usize = 0;
    proof {
        assert(s@.take(0) =~= Seq::<char>::empty());
    }
    while i < s.len()
        invariant
            2 <= base <= 36,
            i <= s@.len(),
            forall|k: int| 0 <= k < i ==> #[trigger] digit_value(s@[k]) < base,
            !overflow ==> v == numeral_value(s@.take(i as int), base as nat),
            overflow ==> numeral_value(s@.take(i as int), base as nat) > u64::MAX,
        decreases s@.len() - i,
    {
        let d: u64 = digit(s[i]);
        if d >= base {
            assert(digit_value(s@[i as int]) >= base);
            return None;
        }
        proof {
            assert(s@.take(i + 1).drop_last() =~= s@.take(i as int));
            assert(s@.take(i + 1).last() == s@[i as int]);
            let w = numeral_value(s@.take(i as int), base as nat);
            assert(w * base >= w) by (nonlinear_arith)
                requires
                    base >= 2,
            ;
        }
        if !overflow {
            match v.checked_mul(base) {
                Some(m) => {
                    match m.checked_add(d) {
                        Some(n) => {
                            v = n;
                        },
                        None => {
                            overflow = true;
                        },
                    }
                },
                None => {
                    overflow = true;
                },
            }
        }
        i += 1;
    }
    proof {
        assert(s@.take(s@.len() as int) =~= s@);
    }
    if overflow {
        None
    } else {
        Some(v)
    }
}

/// Reads an unsigned numeral that a plus sign may precede.
pub open spec fn parse_unsigned(s: Seq<char>, base: nat) -> Option<u64> {
    if s.len() > 0 && s[0] == '+' {
        parse_digits(s.drop_first(), base)
    } else {
        parse_digits(s, base)
    }
}

pub fn read_unsigned(s: &Vec<char>, base: u64) -> (r: Option<u64>)
    requires
        2 <= base <= 36,
    ensures
        r == parse_unsigned(s@, base as nat),
{
    if s.len() > 0 && s[0] == '+' {
        let rest = slice_chars(s, 1, s.len());
        proof {
            assert(rest@ =~= s@.drop_first());
        }
        read_digits(rest.as_slice(), base)
    } else {
        read_digits(s.as_slice(), base)
    }
}

/// Reads a decimal integer of 64 bits: an optional sign, then digits.
pub open spec fn parse_i64(s: Seq<char>) -> Option<i64> {
    if s.len() > 0 && s[0] == '-' {
        let t = s.drop_first();
        if t.len() > 0 && all_digits(t, 10) && numeral_value(t, 10) <= 0x8000_0000_0000_0000 {
            Some((-(numeral_value(t, 10) as int)) as i64)
        } else {
            None
        }
    } else {
        let t = if s.len() > 0 && s[0] == '+' {
            s.drop_first()
        } else {
            s
        };
        if t.len() > 0 && all_digits(t, 10) && numeral_value(t, 10) <= 0x7fff_ffff_ffff_ffff {
            Some(numeral_value(t, 10) as i64)
        } else {
            None
        }
    }
}

pub fn read_i64(s: &Vec<char>) -> (r: Option<i64>)
    ensures
        r == parse_i64(s@),
{
    if s.len() > 0 && s[0] == '-' {
        let rest = slice_chars(s, 1, s.len());
        proof {
            assert(rest@ =~= s@.drop_first());
        }
        match read_digits(rest.as_slice(), 10) {
            Some(v) => {
                if v <= 0x7fff_ffff_ffff_ffff {
                    Some(-(v as i64))
                } else if v == 0x8000_0000_0000_0000 {
                    Some(i64::MIN)
                } else {
                    None
                }
            },
            None => None,
        }
    } else {
        match read_unsigned(s, 10) {
            Some(v) => {
                if v <= 0x7fff_ffff_ffff_ffff {
                    Some(v as i64)
                } else {
                    None
                }
            },
            None => None,
        }
    }
}

fn push_numeral(n: u64, base: u64, out: &mut Vec<char>)
    requires
        2 <= base <= 36,
    ensures
        final(out)@ == old(out)@ + numeral(n as nat, base as nat),
    decreases n,
{
    if n < base {
        out.push(char_of_digit(n));
        proof {
            assert(numeral(n as nat, base as nat) == seq![digit_char(n as nat)]);
        }
    } else {
        proof {
            assert(n / base < n) by (nonlinear_arith)
                requires
                    2 <= base,
                    n >= base,
            ;
            assert(n % base < base) by (nonlinear_arith)
                requires
                    2 <= base,
            ;
        }
        let q: u64 = n / base;
        let d: u64 = n % base;
        push_numeral(q, base, out);
        out.push(char_of_digit(d));
        proof {
            assert((old(out)@ + numeral(q as nat, base as nat)).push(digit_char(d as nat)) =~= old(
                out,
            )@ + numeral(n as nat, base as nat));
        }
    }
}

/// The shortest numeral of `n`, lower case.
pub fn numeral_string(n: u64, base: u64) -> (r: String)
    requires
        2 <= base <= 36,
    ensures
        r@ == numeral(n as nat, base as nat),
{
    let mut cs: Vec<char> = Vec::new();
    push_numeral(n, base, &mut cs);
    proof {
        assert(cs@ =~= numeral(n as nat, base as nat));
    }
    from_chars(cs.as_slice())
}

/// The decimal numeral of an unsigned number.
pub fn decimal_u64(n: u64) -> (r: String)
    ensures
        r@ == decimal(n as int),
{
    numeral_string(n, 10)
}

/// The decimal numeral of a signed number.
pub fn decimal_i64(n: i64) -> (r: String)
    ensures
        r@ == decimal(n as int),
{
    if n >= 0 {
        return numeral_string(n as u64, 10);
    }
    let mut cs: Vec<char> = Vec::new();
    cs.push('-');
    let magnitude: u64 = if n == i64::MIN {
        0x8000_0000_0000_0000
    } else {
        (-n) as u64
    };
    push_numeral(magnitude, 10, &mut cs);
    proof {
        assert(cs@ =~= decimal(n as int));
    }
    from_chars(cs.as_slice())
}

/// The upper-case form of the ASCII letters; other characters stay as they are.
pub open spec fn upper(c: char) -> char {
    if 'a' <= c && c <= 'z' {
        (c as u32 - 32) as char
    } else {
        c
    }
}

pub fn to_upper(c: char) -> (r: char)
    ensures
        r == upper(c),
{
    if 'a' <= c && c <= 'z' {
        (c as u8 - 32) as char
    } else {
        c
    }
}

// ---------------------------------------------------------------------------------------
// White space and searching.
// ---------------------------------------------------------------------------------------

/// The characters with the Unicode property White_Space.
pub open spec fn whitespace(c: char) -> bool {
    let v = c as u32;
    ||| 0x9 <= v <= 0xd
    ||| v == 0x20
    ||| v == 0x85
    ||| v == 0xa0
    ||| v == 0x1680
    ||| 0x2000 <= v <= 0x200a
    ||| v == 0x2028
    ||| v == 0x2029
    ||| v == 0x202f
    ||| v == 0x205f
    ||| v == 0x3000
}

pub fn is_whitespace(c: char) -> (r: bool)
    ensures
        r == whitespace(c),
{
    let v: u32 = c as u32;
    (0x9 <= v && v <= 0xd) || v == 0x20 || v == 0x85 || v == 0xa0 || v == 0x1680 || (0x2000 <= v
        && v <= 0x200a) || v == 0x2028 || v == 0x2029 || v == 0x202f || v == 0x205f || v == 0x3000
}

/// `s` without the white space at its start.
pub open spec fn trim_start(s: Seq<char>) -> Seq<char>
    decreases s.len(),
{
    if s.len() > 0 && whitespace(s[0]) {
        trim_start(s.drop_first())
    } else {
        s
    }
}

/// `s` without the white space at its end.
pub open spec fn trim_end(s: Seq<char>) -> Seq<char>
    decreases s.len(),
{
    if s.len() > 0 && whitespace(s.last()) {
        trim_end(s.drop_last())
    } else {
        s
    }
}

/// `s` without the white space at both ends.
pub open spec fn trim(s: Seq<char>) -> Seq<char> {
    trim_end(trim_start(s))
}

/// The characters of `s` without the white space at both ends.
pub fn trimmed(s: &str) -> (r: Vec<char>)
    ensures
        r@ == trim(s@),
{
    let cs = chars(s);
    let mut from: usize = 0;
    proof {
        assert(cs@.skip(0) =~= cs@);
    }
    while from < cs.len() && is_whitespace(cs[from])
        invariant
            from <= cs@.len(),
            trim_start(cs@) == trim_start(cs@.skip(from as int)),
        decreases cs@.len() - from,
    {
        proof {
            assert(cs@.skip(from as int).drop_first() =~= cs@.skip(from + 1));
        }
        from += 1;
    }
    let ghost t = cs@.skip(from as int);
    assert(trim_start(cs@) == t);
    let mut to: usize = cs.len();
    proof {
        assert(cs@.subrange(from as int, to as int) =~= t);
    }
    while to > from && is_whitespace(cs[to - 1])
        invariant
            from <= to <= cs@.len(),
            trim_end(t) == trim_end(cs@.subrange(from as int, to as int)),
        decreases to,
    {
        proof {
            assert(cs@.subrange(from as int, to as int).drop_last() =~= cs@.subrange(
                from as int,
                to - 1,
            ));
        }
        to -= 1;
    }
    slice_chars(&cs, from, to)
}

/// The position of the first `c` in `s`, or the length of `s` where there is none.
pub open spec fn position(s: Seq<char>, c: char) -> int
    decreases s.len(),
{
    if s.len() == 0 || s[0] == c {
        0
    } else {
        1 + position(s.drop_first(), c)
    }
}

pub proof fn lemma_position(s: Seq<char>, c: char)
    ensures
        0 <= position(s, c) <= s.len(),
        position(s, c) < s.len() ==> s[position(s, c)] == c,
        forall|i: int| 0 <= i < position(s, c) ==> s[i] != c,
    decreases s.len(),
{
    if s.len() > 0 && s[0] != c {
        let t = s.drop_first();
        lemma_position(t, c);
        assert forall|i: int| 0 <= i < position(s, c) implies s[i] != c by {
            if i > 0 {
                assert(s[i] == t[i - 1]);
            }
        }
        if position(s, c) < s.len() {
            assert(t[position(t, c)] == s[position(t, c) + 1]);
        }
    }
}

/// What determines the position of the first `c`.
pub proof fn lemma_position_is(s: Seq<char>, c: char, p: int)
    requires
        0 <= p <= s.len(),
        p < s.len() ==> s[p] == c,
        forall|i: int| 0 <= i < p ==> s[i] != c,
    ensures
        position(s, c) == p,
{
    lemma_position(s, c);
}

pub fn find(s: &Vec<char>, c: char) -> (r: usize)
    ensures
        r == position(s@, c),
        r <= s@.len(),
{
    let mut i: usize = 0;
    while i < s.len() && s[i] != c
        invariant
            i <= s@.len(),
            forall|k: int| 0 <= k < i ==> s@[k] != c,
        decreases s@.len() - i,
    {
        i += 1;
    }
    proof {
        lemma_position_is(s@, c, i as int);
    }
    i
}

// ---------------------------------------------------------------------------------------
// Assembly.
// ---------------------------------------------------------------------------------------

pub fn concat2(a: &str, b: &str) -> (r: String)
    ensures
        r@ == a@ + b@,
{
    let mut out = a.to_owned();
    out.append(b);
    out
}

pub fn concat3(a: &str, b: &str, c: &str) -> (r: String)
    ensures
        r@ == a@ + b@ + c@,
{
    let mut out = a.to_owned();
    out.append(b);
    out.append(c);
    out
}

pub fn concat4(a: &str, b: &str, c: &str, d: &str) -> (r: String)
    ensures
        r@ == a@ + b@ + c@ + d@,
{
    let mut out = a.to_owned();
    out.append(b);
    out.append(c);
    out.append(d);
    out
}

pub fn concat5(a: &str, b: &str, c: &str, d: &str, e: &str) -> (r: String)
    ensures
        r@ == a@ + b@ + c@ + d@ + e@,
{
    let mut out = a.to_owned();
    out.append(b);
    out.append(c);
    out.append(d);
    out.append(e);
    out
}

/// What the `Debug` form of a string is.
pub uninterp spec fn debug_text(s: Seq<char>) -> Seq<char>;

/// `format!` with `{:?}` of a string: the string in double quotes, with escapes. It depends
/// on the string alone.
#[verifier::external_body]
pub(crate) fn debug_string(s: &str) -> (r: String)
    ensures
        r@ == debug_text(s@),
{
    format!("{s:?}")
}

/// The views of a list of strings.
pub open spec fn views(v: Seq<String>) -> Seq<Seq<char>> {
    v.map_values(|s: String| s@)
}

/// The parts, with `sep` between each two of them.
pub open spec fn joined(parts: Seq<Seq<char>>, sep: Seq<char>) -> Seq<char>
    decreases parts.len(),
{
    if parts.len() == 0 {
        Seq::empty()
    } else if parts.len() == 1 {
        parts[0]
    } else {
        joined(parts.drop_last(), sep) + sep + parts.last()
    }
}

pub fn join(parts: &Vec<String>, sep: &str) -> (r: String)
    ensures
        r@ == joined(views(parts@), sep@),
{
    let mut out: String = String::new();
    let mut i: usize = 0;
    while i < parts.len()
        invariant
            i <= parts@.len(),
            out@ == joined(views(parts@).take(i as int), sep@),
        decreases parts@.len() - i,
    {
        proof {
            let t = views(parts@).take(i + 1);
            assert(t.drop_last() =~= views(parts@).take(i as int));
            assert(t.last() == parts@[i as int]@);
            if i == 0 {
                assert(t[0] == parts@[0]@);
                assert(Seq::<char>::empty() + parts@[0]@ =~= parts@[0]@);
            }
        }
        if i > 0 {
            out.append(sep);
        }
        out.append(parts[i].as_str());
        i += 1;
    }
    proof {
        assert(views(parts@).take(parts@.len() as int) =~= views(parts@));
    }
    out
}

/// A number in lower-case hex, with `0x` before it and zeros to fill up `width` digits.
pub open spec fn padded_hex(n: nat, width: nat) -> Seq<char> {
    let digits = numeral(n, 16);
    "0x"@ + (if digits.len() < width {
        Seq::new((width - digits.len()) as nat, |i: int| '0') + digits
    } else {
        digits
    })
}

pub fn padded_hex_string(n: u64, width: usize) -> (r: String)
    ensures
        r@ == padded_hex(n as nat, width as nat),
{
    let digits = numeral_string(n, 16);
    let len: usize = chars(digits.as_str()).len();
    let mut zeros: Vec<char> = Vec::new();
    let mut i: usize = len;
    while i < width
        invariant
            len <= i <= width || i == len,
            zeros@ == Seq::new((i - len) as nat, |k: int| '0'),
        decreases width - i,
    {
        zeros.push('0');
        proof {
            assert(zeros@ =~= Seq::new((i + 1 - len) as nat, |k: int| '0'));
        }
        i += 1;
    }
    let fill = from_chars(zeros.as_slice());
    let r = concat3("0x", fill.as_str(), digits.as_str());
    proof {
        let d = numeral(n as nat, 16);
        assert(d.len() == len);
        if len < width {
            assert(r@ =~= padded_hex(n as nat, width as nat));
        } else {
            assert(fill@ =~= Seq::<char>::empty());
            assert(r@ =~= "0x"@ + d);
        }
    }
    r
}

/// The `Debug` form of a text that may be missing.
pub open spec fn debug_option(s: Option<Seq<char>>) -> Seq<char> {
    match s {
        Some(t) => "Some("@ + debug_text(t) + ")"@,
        None => "None"@,
    }
}

/// A text that may be missing.
pub open spec fn option_view(s: Option<String>) -> Option<Seq<char>> {
    match s {
        Some(t) => Some(t@),
        None => None,
    }
}

pub fn debug_option_string(s: &Option<String>) -> (r: String)
    ensures
        r@ == debug_option(option_view(*s)),
{
    match s {
        Some(t) => concat3("Some(", debug_string(t.as_str()).as_str(), ")"),
        None => "None".to_owned(),
    }
}

/// What the `Debug` form of a character is.
pub uninterp spec fn debug_char_text(c: char) -> Seq<char>;

/// `format!` with `{:?}` of a character: the character in single quotes, with escapes. It
/// depends on the character alone.
#[verifier::external_body]
pub(crate) fn debug_char(c: char) -> (r: String)
    ensures
        r@ == debug_char_text(c),
{
    format!("{c:?}")
}

/// A 64-bit integer reads back from its decimal text, and an unsigned one from its numeral.
pub proof fn law_integers_read_back(v: i64, u: u64)
    ensures
        parse_i64(decimal(v as int)) == Some(v),
        parse_unsigned(decimal(u as int), 10) == Some(u),
{
    let m: nat = if v < 0 {
        (-v) as nat
    } else {
        v as nat
    };
    let s = decimal(v as int);
    let d = numeral(m, 10);
    lemma_numeral_value(m, 10);
    assert(digit_value(d[0]) < 10);
    if v < 0 {
        assert(s.drop_first() =~= d);
    } else {
        assert(s =~= d);
    }
    let e = numeral(u as nat, 10);
    lemma_numeral_value(u as nat, 10);
    assert(digit_value(e[0]) < 10);
    assert(decimal(u as int) =~= e);
}

/// Digits have their values, in either case, and each digit of a numeral counts for its
/// place.
pub proof fn law_digits_have_their_values(c: char, s: Seq<char>, base: nat)
    ensures
        '0' <= c <= '9' ==> digit_value(c) == c as int - '0' as int,
        'a' <= c <= 'z' ==> digit_value(c) == c as int - 'a' as int + 10,
        'A' <= c <= 'Z' ==> digit_value(c) == c as int - 'A' as int + 10,
        !('0' <= c <= '9' || 'a' <= c <= 'z' || 'A' <= c <= 'Z') ==> digit_value(c) >= 36,
        numeral_value(Seq::empty(), base) == 0,
        numeral_value(s.push(c), base) == numeral_value(s, base) * base + digit_value(c),
{
    assert(s.push(c).drop_last() =~= s);
}

/// Trimming takes the white space at both ends and nothing else.
pub proof fn law_trimming_takes_white_space_alone(a: Seq<char>, s: Seq<char>, b: Seq<char>)
    requires
        forall|i: int| 0 <= i < a.len() ==> whitespace(#[trigger] a[i]),
        forall|i: int| 0 <= i < b.len() ==> whitespace(#[trigger] b[i]),
        s.len() > 0 ==> !whitespace(s[0]) && !whitespace(s.last()),
    ensures
        trim(a + s + b) == s,
{
    lemma_trim_start(a, s + b);
    assert(a + s + b =~= a + (s + b));
    if s.len() > 0 {
        assert((s + b)[0] == s[0]);
        assert(trim_start(s + b) == s + b);
        lemma_trim_end(s, b);
        assert(trim_end(s) == s);
    } else {
        assert(s + b =~= b);
        lemma_trim_start(b, Seq::empty());
        assert(b + Seq::<char>::empty() =~= b);
        assert(trim_start(b) =~= Seq::<char>::empty());
        assert(trim_end(Seq::<char>::empty()) =~= s);
    }
}

proof fn lemma_trim_start(a: Seq<char>, t: Seq<char>)
    requires
        forall|i: int| 0 <= i < a.len() ==> whitespace(#[trigger] a[i]),
    ensures
        trim_start(a + t) == trim_start(t),
    decreases a.len(),
{
    if a.len() == 0 {
        assert(a + t =~= t);
    } else {
        let r = a.drop_first();
        assert(whitespace(a[0]));
        assert((a + t)[0] == a[0]);
        assert((a + t).drop_first() =~= r + t);
        assert forall|i: int| 0 <= i < r.len() implies whitespace(#[trigger] r[i]) by {
            assert(r[i] == a[i + 1]);
        }
        lemma_trim_start(r, t);
    }
}

proof fn lemma_trim_end(s: Seq<char>, b: Seq<char>)
    requires
        forall|i: int| 0 <= i < b.len() ==> whitespace(#[trigger] b[i]),
    ensures
        trim_end(s + b) == trim_end(s),
    decreases b.len(),
{
    if b.len() == 0 {
        assert(s + b =~= s);
    } else {
        let r = b.drop_last();
        assert(whitespace(b[b.len() - 1]));
        assert((s + b).last() == b.last());
        assert((s + b).drop_last() =~= s + r);
        assert forall|i: int| 0 <= i < r.len() implies whitespace(#[trigger] r[i]) by {
            assert(r[i] == b[i]);
        }
        lemma_trim_end(s, r);
    }
}

/// Parts are joined in their order, with the separator between each two and nowhere else.
pub proof fn law_parts_are_joined_in_order(parts: Seq<Seq<char>>, p: Seq<char>, sep: Seq<char>)
    ensures
        joined(Seq::empty(), sep) == Seq::<char>::empty(),
        joined(seq![p], sep) == p,
        parts.len() > 0 ==> joined(parts.push(p), sep) == joined(parts, sep) + sep + p,
{
    assert(parts.push(p).drop_last() =~= parts);
}

/// Texts are ordered by the first character in which they differ, and one that another
/// begins with stands before it.
pub proof fn law_texts_are_ordered_by_their_first_difference(
    common: Seq<char>,
    x: char,
    y: char,
    a: Seq<char>,
    b: Seq<char>,
)
    ensures
        x != y ==> (before(common + seq![x] + a, common + seq![y] + b) <==> x < y),
        before(common, common + seq![x] + a),
        !before(common + seq![x] + a, common),
        !before(common, common),
    decreases common.len(),
{
    let l = common + seq![x] + a;
    let r = common + seq![y] + b;
    if common.len() > 0 {
        let rest = common.drop_first();
        law_texts_are_ordered_by_their_first_difference(rest, x, y, a, b);
        assert(l.drop_first() =~= rest + seq![x] + a);
        assert(r.drop_first() =~= rest + seq![y] + b);
    }
}

} // verus!

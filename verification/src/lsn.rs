//! PostgreSQL log sequence numbers.
use crate::text;
use vstd::arithmetic::power::*;
use vstd::prelude::*;
use vstd::string::*;

verus! {

/// PostgreSQL log sequence number. Its text is the native `X/X` form.
#[derive(Debug, Clone, Copy, PartialEq, Eq, PartialOrd, Ord, Hash, Default, Structural)]
pub struct Lsn(pub u64);

/// The text that is no `<hex>/<hex>`.
#[derive(Debug, PartialEq, Eq)]
pub struct InvalidLsn(pub String);

/// The upper-case hex numeral of a number.
pub open spec fn upper_hex(n: nat) -> Seq<char> {
    text::numeral(n, 16).map_values(|c: char| text::upper(c))
}

/// The text of a position: both halves as upper-case hex, with a slash between them.
pub open spec fn lsn_text(v: u64) -> Seq<char> {
    upper_hex((v / 0x1_0000_0000) as nat) + seq!['/'] + upper_hex((v % 0x1_0000_0000) as nat)
}

/// The position that a text denotes: two hex numerals of 32 bits around the first slash.
pub open spec fn parsed_lsn(s: Seq<char>) -> Option<u64> {
    let p = text::position(s, '/');
    if p == s.len() {
        None
    } else {
        match (
            text::parse_unsigned(s.subrange(0, p), 16),
            text::parse_unsigned(s.subrange(p + 1, s.len() as int), 16),
        ) {
            (Some(hi), Some(lo)) => if hi <= u32::MAX && lo <= u32::MAX {
                Some((hi * 0x1_0000_0000 + lo) as u64)
            } else {
                None
            },
            _ => None,
        }
    }
}

fn upper_hex_string(n: u64) -> (r: Vec<char>)
    ensures
        r@ == upper_hex(n as nat),
{
    let cs = text::chars(text::numeral_string(n, 16).as_str());
    let mut out: Vec<char> = Vec::new();
    let mut i: usize = 0;
    while i < cs.len()
        invariant
            i <= cs@.len(),
            out@ == cs@.take(i as int).map_values(|c: char| text::upper(c)),
        decreases cs@.len() - i,
    {
        out.push(text::to_upper(cs[i]));
        proof {
            assert(cs@.take(i + 1).map_values(|c: char| text::upper(c)) =~= cs@.take(
                i as int,
            ).map_values(|c: char| text::upper(c)).push(text::upper(cs@[i as int])));
        }
        i += 1;
    }
    proof {
        assert(cs@.take(cs@.len() as int) =~= cs@);
    }
    out
}

impl Lsn {
    pub fn to_string(&self) -> (r: String)
        ensures
            r@ == lsn_text(self.0),
    {
        let mut cs = upper_hex_string(self.0 / 0x1_0000_0000);
        cs.push('/');
        let mut low = upper_hex_string(self.0 % 0x1_0000_0000);
        cs.append(&mut low);
        text::from_chars(cs.as_slice())
    }

    /// Reads a position in the native `X/X` form.
    pub fn parse(s: &str) -> (r: Result<Lsn, InvalidLsn>)
        ensures
            match parsed_lsn(s@) {
                Some(v) => r == Ok::<Lsn, InvalidLsn>(Lsn(v)),
                None => r is Err && r->Err_0.0@ == s@,
            },
    {
        let cs = text::chars(s);
        let p: usize = text::find(&cs, '/');
        if p == cs.len() {
            return Err(InvalidLsn(s.to_owned()));
        }
        let head = text::slice_chars(&cs, 0, p);
        let tail = text::slice_chars(&cs, p + 1, cs.len());
        match (text::read_unsigned(&head, 16), text::read_unsigned(&tail, 16)) {
            (Some(hi), Some(lo)) => {
                if hi > 0xffff_ffff || lo > 0xffff_ffff {
                    return Err(InvalidLsn(s.to_owned()));
                }
                Ok(Lsn(hi * 0x1_0000_0000 + lo))
            },
            _ => Err(InvalidLsn(s.to_owned())),
        }
    }
}

impl std::str::FromStr for Lsn {
    type Err = InvalidLsn;

    fn from_str(s: &str) -> (r: Result<Self, InvalidLsn>)
        ensures
            match parsed_lsn(s@) {
                Some(v) => r == Ok::<Lsn, InvalidLsn>(Lsn(v)),
                None => r is Err && r->Err_0.0@ == s@,
            },
    {
        Lsn::parse(s)
    }
}

proof fn lemma_upper_value(s: Seq<char>)
    requires
        text::all_digits(s, 16),
    ensures
        text::all_digits(s.map_values(|c: char| text::upper(c)), 16),
        text::numeral_value(s.map_values(|c: char| text::upper(c)), 16) == text::numeral_value(
            s,
            16,
        ),
    decreases s.len(),
{
    let u = s.map_values(|c: char| text::upper(c));
    assert forall|i: int| 0 <= i < u.len() implies #[trigger] text::digit_value(u[i]) < 16
        && text::digit_value(u[i]) == text::digit_value(s[i]) by {
        assert(text::digit_value(s[i]) < 16);
    }
    if s.len() > 0 {
        let t = s.drop_last();
        assert forall|i: int| 0 <= i < t.len() implies #[trigger] text::digit_value(t[i]) < 16 by {
            assert(t[i] == s[i]);
        }
        lemma_upper_value(t);
        assert(u.drop_last() =~= t.map_values(|c: char| text::upper(c)));
        assert(text::digit_value(u[s.len() - 1]) == text::digit_value(s[s.len() - 1]));
    }
}

proof fn lemma_upper_hex(n: nat)
    requires
        n <= u64::MAX,
    ensures
        text::parse_unsigned(upper_hex(n), 16) == Some(n as u64),
        forall|i: int| 0 <= i < upper_hex(n).len() ==> upper_hex(n)[i] != '/',
{
    text::lemma_numeral_value(n, 16);
    lemma_upper_value(text::numeral(n, 16));
    let u = upper_hex(n);
    assert forall|i: int| 0 <= i < u.len() implies u[i] != '/' && u[i] != '+' by {
        assert(text::digit_value(u[i]) < 16);
    }
}

/// Reading a position gives back the position that was written.
pub proof fn law_lsn_round_trips(v: u64)
    ensures
        parsed_lsn(lsn_text(v)) == Some(v),
{
    let hi = (v / 0x1_0000_0000) as nat;
    let lo = (v % 0x1_0000_0000) as nat;
    lemma_upper_hex(hi);
    lemma_upper_hex(lo);
    let a = upper_hex(hi);
    let b = upper_hex(lo);
    let s = lsn_text(v);
    assert forall|i: int| 0 <= i < a.len() implies s[i] != '/' by {
        assert(s[i] == a[i]);
    }
    text::lemma_position_is(s, '/', a.len() as int);
    assert(s.subrange(0, a.len() as int) =~= a);
    assert(s.subrange(a.len() as int + 1, s.len() as int) =~= b);
}

impl InvalidLsn {
    pub fn to_string(&self) -> (r: String)
        ensures
            r@ == "invalid LSN "@ + text::debug_text(self.0@) + ": expected <hex>/<hex>"@,
    {
        text::concat3(
            "invalid LSN ",
            text::debug_string(self.0.as_str()).as_str(),
            ": expected <hex>/<hex>",
        )
    }
}

/// A position is two hexadecimal halves of 32 bits with a slash between them, the higher one
/// first.
pub proof fn law_positions_are_two_halves(a: Seq<char>, b: Seq<char>)
    requires
        forall|i: int| 0 <= i < a.len() ==> a[i] != '/',
    ensures
        ({
            let hi = text::parse_unsigned(a, 16);
            let lo = text::parse_unsigned(b, 16);
            let s = a + seq!['/'] + b;
            &&& parsed_lsn(s) is Some <==> hi is Some && lo is Some && hi->0 < 0x1_0000_0000
                && lo->0 < 0x1_0000_0000
            &&& parsed_lsn(s) is Some ==> parsed_lsn(s)->0 == hi->0 * 0x1_0000_0000 + lo->0
        }),
        parsed_lsn(a) is None,
{
    let s = a + seq!['/'] + b;
    text::lemma_position_is(s, '/', a.len() as int);
    text::lemma_position_is(a, '/', a.len() as int);
    assert(s.subrange(0, a.len() as int) =~= a);
    assert(s.subrange(a.len() as int + 1, s.len() as int) =~= b);
}

} // verus!

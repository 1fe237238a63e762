//! Quoting of SQL identifiers and string literals.
use crate::text;
use vstd::prelude::*;
use vstd::string::*;

verus! {

/// `s` with every `q` doubled.
pub open spec fn doubled(s: Seq<char>, q: char) -> Seq<char>
    decreases s.len(),
{
    if s.len() == 0 {
        Seq::empty()
    } else if s.last() == q {
        doubled(s.drop_last(), q).push(q).push(q)
    } else {
        doubled(s.drop_last(), q).push(s.last())
    }
}

/// `s` between two `q`, with every `q` inside doubled.
pub open spec fn quoted(s: Seq<char>, q: char) -> Seq<char> {
    seq![q] + doubled(s, q) + seq![q]
}

/// A quoted identifier.
pub open spec fn ident(s: Seq<char>) -> Seq<char> {
    quoted(s, '"')
}

/// A quoted string literal.
pub open spec fn literal(s: Seq<char>) -> Seq<char> {
    quoted(s, '\'')
}

/// `schema.table`, both quoted.
pub open spec fn qualified(schema: Seq<char>, table: Seq<char>) -> Seq<char> {
    ident(schema) + seq!['.'] + ident(table)
}

fn quote(s: &str, q: char) -> (r: String)
    ensures
        r@ == quoted(s@, q),
{
    let cs = text::chars(s);
    let mut out: String = String::new();
    out.push(q);
    let mut i: usize = 0;
    proof {
        assert(cs@.take(0) =~= Seq::<char>::empty());
        assert(out@ =~= seq![q] + doubled(cs@.take(0), q));
    }
    while i < cs.len()
        invariant
            i <= cs@.len(),
            out@ == seq![q] + doubled(cs@.take(i as int), q),
        decreases cs@.len() - i,
    {
        let ghost before = out@;
        let c = cs[i];
        proof {
            assert(cs@.take(i + 1).drop_last() =~= cs@.take(i as int));
            assert(cs@.take(i + 1).last() == c);
        }
        out.push(c);
        if c == q {
            out.push(c);
        }
        proof {
            assert(out@ =~= seq![q] + doubled(cs@.take(i + 1), q));
        }
        i += 1;
    }
    proof {
        assert(cs@.take(cs@.len() as int) =~= cs@);
    }
    out.push(q);
    proof {
        assert(out@ =~= quoted(s@, q));
    }
    out
}

/// Quote an identifier: wrap in double quotes and double any embedded ones.
pub fn quote_ident(name: &str) -> (r: String)
    ensures
        r@ == ident(name@),
{
    quote(name, '"')
}

/// Quote a string literal. With `standard_conforming_strings` on, only the single quote
/// needs doubling.
pub fn quote_literal(value: &str) -> (r: String)
    ensures
        r@ == literal(value@),
{
    quote(value, '\'')
}

/// `schema.table`, both quoted.
pub fn quote_qualified(schema: &str, table: &str) -> (r: String)
    ensures
        r@ == qualified(schema@, table@),
{
    let mut out = quote_ident(schema);
    out.push('.');
    let t = quote_ident(table);
    out.append(t.as_str());
    proof {
        assert(out@ =~= qualified(schema@, table@));
    }
    out
}

/// What a lexer reads between quotes, starting after the opening one: a doubled quote stands
/// for one, a single quote ends the token. Gives the value and what follows the token.
pub open spec fn token_after(t: Seq<char>, q: char) -> Option<(Seq<char>, Seq<char>)>
    decreases t.len(),
{
    if t.len() == 0 {
        None
    } else if t[0] != q {
        match token_after(t.drop_first(), q) {
            Some((v, rest)) => Some((seq![t[0]] + v, rest)),
            None => None,
        }
    } else if t.len() >= 2 && t[1] == q {
        match token_after(t.skip(2), q) {
            Some((v, rest)) => Some((seq![q] + v, rest)),
            None => None,
        }
    } else {
        Some((Seq::empty(), t.drop_first()))
    }
}

proof fn lemma_token(s: Seq<char>, i: int, q: char, rest: Seq<char>)
    requires
        0 <= i <= s.len(),
        rest.len() > 0 ==> rest[0] != q,
    ensures
        token_after(doubled(s, q).skip(doubled(s.take(i), q).len() as int) + seq![q] + rest, q)
            == Some((s.skip(i), rest)),
        doubled(s.take(i), q).len() <= doubled(s, q).len(),
        doubled(s, q).take(doubled(s.take(i), q).len() as int) == doubled(s.take(i), q),
    decreases s.len() - i,
{
    let d = doubled(s, q);
    let n = doubled(s.take(i), q).len() as int;
    if i == s.len() {
        assert(s.take(i) =~= s);
        assert(d.skip(n) + seq![q] + rest =~= seq![q] + rest);
        assert((seq![q] + rest).drop_first() =~= rest);
        assert(s.skip(i) =~= Seq::<char>::empty());
        assert(d.take(n) =~= d);
    } else {
        lemma_token(s, i + 1, q, rest);
        assert(s.take(i + 1).drop_last() =~= s.take(i));
        assert(s.take(i + 1).last() == s[i]);
        let m = doubled(s.take(i + 1), q).len() as int;
        let t = d.skip(n) + seq![q] + rest;
        let u = d.skip(m) + seq![q] + rest;
        assert(d.take(m) == doubled(s.take(i + 1), q));
        assert(d.take(n) =~= d.take(m).take(n));
        assert(doubled(s.take(i + 1), q).take(n) =~= doubled(s.take(i), q));
        assert(d[n] == d.take(m)[n]);
        if s[i] == q {
            assert(d[n + 1] == d.take(m)[n + 1]);
            assert(t.skip(2) =~= u);
        } else {
            assert(t.drop_first() =~= u);
        }
        assert(s.skip(i) =~= seq![s[i]] + s.skip(i + 1));
    }
}

/// A quoted text is one token whatever it holds: read back, it gives the text, and what
/// follows it is what was put there. No content ends the token early.
pub proof fn law_quoting_neutralizes_content(s: Seq<char>, q: char, rest: Seq<char>)
    requires
        rest.len() > 0 ==> rest[0] != q,
    ensures
        (quoted(s, q) + rest)[0] == q,
        token_after((quoted(s, q) + rest).drop_first(), q) == Some((s, rest)),
{
    lemma_token(s, 0, q, rest);
    assert(s.take(0) =~= Seq::<char>::empty());
    assert(doubled(s, q).skip(0) =~= doubled(s, q));
    assert((quoted(s, q) + rest).drop_first() =~= doubled(s, q) + seq![q] + rest);
    assert(s.skip(0) =~= s);
}

// ---------------------------------------------------------------------------------------
// Reading what was written.
// ---------------------------------------------------------------------------------------

/// What follows `head` in a text that begins with it.
pub open spec fn after(t: Seq<char>, head: Seq<char>) -> Option<Seq<char>> {
    if t.len() >= head.len() && t.take(head.len() as int) == head {
        Some(t.skip(head.len() as int))
    } else {
        None
    }
}

/// A quoted identifier at the start of a text, and what follows it.
pub open spec fn ident_after(t: Seq<char>) -> Option<(Seq<char>, Seq<char>)> {
    if t.len() > 0 && t[0] == '"' {
        token_after(t.drop_first(), '"')
    } else {
        None
    }
}

/// A qualified name at the start of a text, and what follows it.
pub open spec fn qualified_after(t: Seq<char>) -> Option<((Seq<char>, Seq<char>), Seq<char>)> {
    match ident_after(t) {
        Some((schema, u)) => if u.len() > 0 && u[0] == '.' {
            match ident_after(u.drop_first()) {
                Some((table, rest)) => Some(((schema, table), rest)),
                None => None,
            }
        } else {
            None
        },
        None => None,
    }
}

/// A value at the start of a text, and what follows it: a quoted literal, or the keyword
/// NULL, which is no text.
pub open spec fn value_after(t: Seq<char>) -> Option<(Option<Seq<char>>, Seq<char>)> {
    if t.len() > 0 && t[0] == '\'' {
        match token_after(t.drop_first(), '\'') {
            Some((v, rest)) => Some((Some(v), rest)),
            None => None,
        }
    } else {
        match after(t, "NULL"@) {
            Some(rest) => Some((None, rest)),
            None => None,
        }
    }
}

/// `name = value` at the start of a text, and what follows it.
pub open spec fn pair_after(t: Seq<char>) -> Option<
    ((Seq<char>, Option<Seq<char>>), Seq<char>),
> {
    match ident_after(t) {
        Some((name, u)) => match after(u, " = "@) {
            Some(w) => match value_after(w) {
                Some((value, rest)) => Some(((name, value), rest)),
                None => None,
            },
            None => None,
        },
        None => None,
    }
}

/// `n` items with `sep` between them at the start of a text, and what follows them.
pub open spec fn items_after<T>(
    t: Seq<char>,
    n: nat,
    sep: Seq<char>,
    read: spec_fn(Seq<char>) -> Option<(T, Seq<char>)>,
) -> Option<(Seq<T>, Seq<char>)>
    decreases n,
{
    if n == 0 {
        Some((Seq::empty(), t))
    } else {
        match read(t) {
            None => None,
            Some((v, u)) => if n == 1 {
                Some((seq![v], u))
            } else {
                match after(u, sep) {
                    None => None,
                    Some(w) => match items_after(w, (n - 1) as nat, sep, read) {
                        None => None,
                        Some((vs, rest)) => Some((seq![v] + vs, rest)),
                    },
                }
            },
        }
    }
}

/// Whether a text does not begin with a quote.
pub open spec fn plain_start(t: Seq<char>) -> bool {
    t.len() > 0 ==> t[0] != '"' && t[0] != '\''
}

pub proof fn lemma_after(head: Seq<char>, rest: Seq<char>)
    ensures
        after(head + rest, head) == Some(rest),
{
    assert((head + rest).take(head.len() as int) =~= head);
    assert((head + rest).skip(head.len() as int) =~= rest);
}

/// Names are quoted with double quotes and literals with single ones: each reads back as what
/// it was made of, whatever that holds, and nothing of what follows is taken for it.
pub proof fn law_names_and_literals_read_back(
    schema: Seq<char>,
    table: Seq<char>,
    value: Seq<char>,
    rest: Seq<char>,
)
    requires
        plain_start(rest),
    ensures
        ident_after(ident(table) + rest) == Some((table, rest)),
        value_after(literal(value) + rest) == Some((Some(value), rest)),
        value_after("NULL"@ + rest) == Some((None::<Seq<char>>, rest)),
        qualified_after(qualified(schema, table) + rest) == Some(((schema, table), rest)),
{
    law_quoting_neutralizes_content(table, '"', rest);
    law_quoting_neutralizes_content(value, '\'', rest);
    reveal_strlit("NULL");
    lemma_after("NULL"@, rest);
    assert(("NULL"@ + rest)[0] == 'N');
    let tail = seq!['.'] + (ident(table) + rest);
    law_quoting_neutralizes_content(schema, '"', tail);
    assert(qualified(schema, table) + rest =~= ident(schema) + tail);
    assert(tail.drop_first() =~= ident(table) + rest);
}

/// The keyword NULL is no literal: no text is written as it.
pub proof fn law_null_is_no_literal(s: Seq<char>, t: Seq<char>)
    ensures
        literal(s) != "NULL"@,
        literal(s) == literal(t) ==> s == t,
        ident(s) == ident(t) ==> s == t,
{
    reveal_strlit("NULL");
    let none = Seq::<char>::empty();
    law_names_and_literals_read_back(s, s, s, none);
    law_names_and_literals_read_back(t, t, t, none);
    assert(literal(s) + none =~= literal(s));
    assert(literal(t) + none =~= literal(t));
    assert(ident(s) + none =~= ident(s));
    assert(ident(t) + none =~= ident(t));
    assert(literal(s)[0] == '\'');
    assert("NULL"@[0] == 'N');
}

pub proof fn lemma_pair(name: Seq<char>, written: Seq<char>, value: Option<Seq<char>>, rest: Seq<char>)
    requires
        plain_start(rest),
        match value {
            Some(v) => written == literal(v),
            None => written == "NULL"@,
        },
    ensures
        pair_after(ident(name) + " = "@ + written + rest) == Some(((name, value), rest)),
{
    reveal_strlit(" = ");
    let tail = " = "@ + (written + rest);
    assert(tail[0] == ' ');
    law_names_and_literals_read_back(name, name, name, tail);
    lemma_after(" = "@, written + rest);
    match value {
        Some(v) => law_names_and_literals_read_back(name, name, v, rest),
        None => law_names_and_literals_read_back(name, name, name, rest),
    }
    assert(ident(name) + " = "@ + written + rest =~= ident(name) + tail);
}

proof fn lemma_joined_front(parts: Seq<Seq<char>>, sep: Seq<char>)
    requires
        parts.len() >= 2,
    ensures
        text::joined(parts, sep) == parts[0] + sep + text::joined(parts.drop_first(), sep),
    decreases parts.len(),
{
    let t = parts.drop_first();
    if parts.len() == 2 {
        assert(parts.drop_last()[0] == parts[0]);
        assert(text::joined(parts.drop_last(), sep) == parts[0]);
        assert(text::joined(t, sep) == parts[1]);
        assert(text::joined(parts, sep) =~= parts[0] + sep + text::joined(t, sep));
    } else {
        lemma_joined_front(parts.drop_last(), sep);
        assert(parts.drop_last().drop_first() =~= t.drop_last());
        assert(parts.drop_last()[0] == parts[0]);
        assert(t.last() == parts.last());
        assert(text::joined(t, sep) == text::joined(t.drop_last(), sep) + sep + t.last());
        assert(text::joined(parts, sep) =~= parts[0] + sep + text::joined(t, sep));
    }
}

/// A list reads back: where every item reads back in front of anything that begins with no
/// quote, the items with a separator between them read back as the items.
pub proof fn lemma_items<T>(
    parts: Seq<Seq<char>>,
    vals: Seq<T>,
    sep: Seq<char>,
    read: spec_fn(Seq<char>) -> Option<(T, Seq<char>)>,
    rest: Seq<char>,
)
    requires
        parts.len() == vals.len(),
        plain_start(rest),
        plain_start(sep),
        sep.len() > 0,
        forall|i: int, u: Seq<char>|
            0 <= i < parts.len() && plain_start(u) ==> #[trigger] read(parts[i] + u) == Some(
                (vals[i], u),
            ),
    ensures
        items_after(text::joined(parts, sep) + rest, parts.len(), sep, read) == Some((vals, rest)),
    decreases parts.len(),
{
    let n = parts.len();
    if n == 0 {
        assert(text::joined(parts, sep) + rest =~= rest);
        assert(vals =~= Seq::<T>::empty());
    } else if n == 1 {
        assert(read(parts[0] + rest) == Some((vals[0], rest)));
        assert(seq![vals[0]] =~= vals);
    } else {
        let t = parts.drop_first();
        let w = vals.drop_first();
        let more = text::joined(t, sep) + rest;
        lemma_joined_front(parts, sep);
        assert(text::joined(parts, sep) + rest =~= parts[0] + (sep + more));
        assert((sep + more)[0] == sep[0]);
        assert(read(parts[0] + (sep + more)) == Some((vals[0], sep + more)));
        lemma_after(sep, more);
        assert forall|i: int, u: Seq<char>| 0 <= i < t.len() && plain_start(u) implies #[trigger]
            read(t[i] + u) == Some((w[i], u)) by {
            assert(t[i] == parts[i + 1] && w[i] == vals[i + 1]);
            assert(read(parts[i + 1] + u) == Some((vals[i + 1], u)));
        }
        lemma_items(t, w, sep, read, rest);
        assert(seq![vals[0]] + w =~= vals);
    }
}

} // verus!

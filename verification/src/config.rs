//! The configuration codec.
//!
//! The widget configuration is a JSON document of the shape
//! `{"connections":[{"from_station":...,"to_station":...,"num_connections":...},...]}`.
//! The codec here defines that grammar as the library's own: `encode_config`
//! writes the canonical compact form (keys in the order above, strings with
//! the standard JSON escapes, numbers in plain decimal), and `parse_config`
//! reads that form back.  Decoding what encoding wrote is proved to yield
//! the original value.

use vstd::prelude::*;

use crate::digits::dec_digits;
use crate::digits::dec_of;
use crate::digits::digit_char;
use crate::digits::push_dec;
use crate::model::StationPairConfig;
use crate::model::StationPairView;
use crate::model::WidgetConfig;
use crate::model::WidgetConfigView;
use crate::text::push_char;

verus! {

// ---------------------------------------------------------------------
// The encoded form.
// ---------------------------------------------------------------------
/// The character for one hexadecimal digit value, lower case.
pub open spec fn hex_char(d: int) -> char {
    if d == 0 {
        '0'
    } else if d == 1 {
        '1'
    } else if d == 2 {
        '2'
    } else if d == 3 {
        '3'
    } else if d == 4 {
        '4'
    } else if d == 5 {
        '5'
    } else if d == 6 {
        '6'
    } else if d == 7 {
        '7'
    } else if d == 8 {
        '8'
    } else if d == 9 {
        '9'
    } else if d == 10 {
        'a'
    } else if d == 11 {
        'b'
    } else if d == 12 {
        'c'
    } else if d == 13 {
        'd'
    } else if d == 14 {
        'e'
    } else {
        'f'
    }
}

/// The value of one hexadecimal digit character, `-1` for any other.
pub open spec fn hex_val(c: char) -> int {
    if c == 'a' || c == 'A' {
        10
    } else if c == 'b' || c == 'B' {
        11
    } else if c == 'c' || c == 'C' {
        12
    } else if c == 'd' || c == 'D' {
        13
    } else if c == 'e' || c == 'E' {
        14
    } else if c == 'f' || c == 'F' {
        15
    } else {
        digit_val(c)
    }
}

/// What a single-character string escape stands for, if it is one.
pub open spec fn unescaped_of(e: char) -> Option<char> {
    if e == '"' {
        Some('"')
    } else if e == '\\' {
        Some('\\')
    } else if e == '/' {
        Some('/')
    } else if e == 'b' {
        Some('\u{8}')
    } else if e == 'f' {
        Some('\u{c}')
    } else if e == 'n' {
        Some('\n')
    } else if e == 'r' {
        Some('\r')
    } else if e == 't' {
        Some('\t')
    } else {
        None
    }
}

/// The escaped form of one string character: `"` and `\` get a backslash,
/// the named control characters their short escapes, any other control
/// character a `\u00XX` escape, and every other character stands for
/// itself.
pub open spec fn esc_char(c: char) -> Seq<char> {
    if c == '"' {
        seq!['\\', '"']
    } else if c == '\\' {
        seq!['\\', '\\']
    } else if c == '\u{8}' {
        seq!['\\', 'b']
    } else if c == '\u{c}' {
        seq!['\\', 'f']
    } else if c == '\n' {
        seq!['\\', 'n']
    } else if c == '\r' {
        seq!['\\', 'r']
    } else if c == '\t' {
        seq!['\\', 't']
    } else if (c as u32) < 32 {
        seq!['\\', 'u', '0', '0', hex_char((c as u32) as int / 16), hex_char((c as u32) as int % 16)]
    } else {
        seq![c]
    }
}

/// The escaped form of a string.
pub open spec fn esc(s: Seq<char>) -> Seq<char>
    decreases s.len(),
{
    if s.len() == 0 {
        Seq::empty()
    } else {
        esc_char(s[0]) + esc(s.drop_first())
    }
}

/// The encoded form of one station pair.
pub open spec fn spec_enc_pair(p: StationPairView) -> Seq<char> {
    "{\"from_station\":\""@ + esc(p.from_station) + seq!['"'] + ",\"to_station\":\""@ + esc(
        p.to_station,
    ) + seq!['"'] + ",\"num_connections\":"@ + dec_of(p.num_connections as int) + seq!['}']
}

/// The encoded form of the pair list from its second element on: each
/// further pair after a comma, then the closing bracket.
pub open spec fn spec_enc_pairs_rest(ps: Seq<StationPairView>) -> Seq<char>
    decreases ps.len(),
{
    if ps.len() == 0 {
        seq![']']
    } else {
        seq![','] + spec_enc_pair(ps[0]) + spec_enc_pairs_rest(ps.drop_first())
    }
}

/// The encoded form of the bracketed pair list.
pub open spec fn spec_enc_items(ps: Seq<StationPairView>) -> Seq<char> {
    if ps.len() == 0 {
        seq![']']
    } else {
        spec_enc_pair(ps[0]) + spec_enc_pairs_rest(ps.drop_first())
    }
}

/// The encoded form of a whole configuration.
pub open spec fn spec_enc_config(c: WidgetConfigView) -> Seq<char> {
    "{\"connections\":["@ + spec_enc_items(c.connections) + seq!['}']
}

// ---------------------------------------------------------------------
// The parsed form.  Each spec parser takes the remaining text and yields
// the parsed value and the text after it, or nothing on a mismatch.
// ---------------------------------------------------------------------
/// Consumes a fixed literal.
pub open spec fn spec_expect(s: Seq<char>, lit: Seq<char>) -> Option<Seq<char>> {
    if lit.len() <= s.len() && s.take(lit.len() as int) == lit {
        Some(s.skip(lit.len() as int))
    } else {
        None
    }
}

/// Consumes a string body up to and including its closing quote, undoing
/// the standard escapes (`\"`, `\\`, `\/`, `\b`, `\f`, `\n`, `\r`,
/// `\t`, `\u00XX`); a raw control character is refused.
pub open spec fn spec_parse_string_body(s: Seq<char>) -> Option<(Seq<char>, Seq<char>)>
    decreases s.len(),
{
    if s.len() == 0 {
        None
    } else if s[0] == '"' {
        Some((Seq::empty(), s.drop_first()))
    } else if s[0] == '\\' {
        if s.len() >= 2 && unescaped_of(s[1]) is Some {
            match spec_parse_string_body(s.skip(2)) {
                Some((t, r)) => Some((seq![unescaped_of(s[1])->0] + t, r)),
                None => None,
            }
        } else if s.len() >= 6 && s[1] == 'u' && s[2] == '0' && s[3] == '0' && hex_val(s[4]) >= 0
            && hex_val(s[5]) >= 0 {
            match spec_parse_string_body(s.skip(6)) {
                Some((t, r)) => Some(
                    (seq![(((16 * hex_val(s[4]) + hex_val(s[5])) as u32) as char)] + t, r),
                ),
                None => None,
            }
        } else {
            None
        }
    } else if (s[0] as u32) < 32 {
        None
    } else {
        match spec_parse_string_body(s.drop_first()) {
            Some((t, r)) => Some((seq![s[0]] + t, r)),
            None => None,
        }
    }
}

/// The decimal value of one digit character, `-1` for any other character.
pub open spec fn digit_val(c: char) -> int {
    if c == '0' {
        0
    } else if c == '1' {
        1
    } else if c == '2' {
        2
    } else if c == '3' {
        3
    } else if c == '4' {
        4
    } else if c == '5' {
        5
    } else if c == '6' {
        6
    } else if c == '7' {
        7
    } else if c == '8' {
        8
    } else if c == '9' {
        9
    } else {
        -1
    }
}

/// How many digit characters the text begins with.
pub open spec fn spec_digit_span(s: Seq<char>) -> int
    decreases s.len(),
{
    if s.len() == 0 || digit_val(s[0]) < 0 {
        0
    } else {
        1 + spec_digit_span(s.drop_first())
    }
}

/// The value of a digit sequence read as a decimal number.
pub open spec fn dec_val(ds: Seq<char>) -> int
    decreases ds.len(),
{
    if ds.len() == 0 {
        0
    } else {
        dec_val(ds.drop_last()) * 10 + digit_val(ds.last())
    }
}

/// Consumes a canonical decimal number that fits a `u8`: one to three
/// digits, no leading zero, value at most 255.
pub open spec fn spec_parse_u8(s: Seq<char>) -> Option<(u8, Seq<char>)> {
    let n = spec_digit_span(s);
    if 1 <= n <= 3 && (n == 1 || s[0] != '0') {
        let v = dec_val(s.take(n));
        if v <= 255 {
            Some((v as u8, s.skip(n)))
        } else {
            None
        }
    } else {
        None
    }
}

/// Consumes one encoded station pair.
pub open spec fn spec_parse_pair(s: Seq<char>) -> Option<(StationPairView, Seq<char>)> {
    match spec_expect(s, "{\"from_station\":\""@) {
        None => None,
        Some(s1) => match spec_parse_string_body(s1) {
            None => None,
            Some((from, s2)) => match spec_expect(s2, ",\"to_station\":\""@) {
                None => None,
                Some(s3) => match spec_parse_string_body(s3) {
                    None => None,
                    Some((to, s4)) => match spec_expect(s4, ",\"num_connections\":"@) {
                        None => None,
                        Some(s5) => match spec_parse_u8(s5) {
                            None => None,
                            Some((n, s6)) => match spec_expect(s6, seq!['}']) {
                                None => None,
                                Some(s7) => Some(
                                    (
                                        StationPairView {
                                            from_station: from,
                                            to_station: to,
                                            num_connections: n,
                                        },
                                        s7,
                                    ),
                                ),
                            },
                        },
                    },
                },
            },
        },
    }
}

/// Consumes the pair list from its second element on: further pairs after
/// commas, then the closing bracket.
pub open spec fn spec_parse_pairs_rest(s: Seq<char>) -> Option<(Seq<StationPairView>, Seq<char>)>
    decreases s.len(),
{
    if s.len() == 0 {
        None
    } else if s[0] == ']' {
        Some((Seq::empty(), s.drop_first()))
    } else if s[0] == ',' {
        match spec_parse_pair(s.drop_first()) {
            None => None,
            Some((p, r)) => if r.len() < s.len() {
                match spec_parse_pairs_rest(r) {
                    None => None,
                    Some((ps, r2)) => Some((seq![p] + ps, r2)),
                }
            } else {
                None
            },
        }
    } else {
        None
    }
}

/// Parses a whole configuration document.
pub open spec fn spec_parse_config(s: Seq<char>) -> Option<Seq<StationPairView>> {
    match spec_expect(s, "{\"connections\":["@) {
        None => None,
        Some(s1) => if s1.len() > 0 && s1[0] == ']' {
            if s1.skip(1) == seq!['}'] {
                Some(Seq::empty())
            } else {
                None
            }
        } else {
            match spec_parse_pair(s1) {
                None => None,
                Some((p, r)) => match spec_parse_pairs_rest(r) {
                    None => None,
                    Some((ps, r2)) => if r2 == seq!['}'] {
                        Some(seq![p] + ps)
                    } else {
                        None
                    },
                },
            }
        },
    }
}

// ---------------------------------------------------------------------
// Round trip: parsing recovers what encoding wrote.
// ---------------------------------------------------------------------
/// Escaping distributes over appending one character.
proof fn lemma_esc_snoc(s: Seq<char>, c: char)
    ensures
        esc(s.push(c)) == esc(s) + esc_char(c),
    decreases s.len(),
{
    if s.len() == 0 {
        assert(s.push(c)[0] == c);
        assert(s.push(c).drop_first() =~= Seq::<char>::empty());
        assert(esc(Seq::<char>::empty()) == Seq::<char>::empty());
        assert(esc(s.push(c)) =~= esc(s) + esc_char(c));
    } else {
        assert(s.push(c)[0] == s[0]);
        assert(s.push(c).drop_first() =~= s.drop_first().push(c));
        lemma_esc_snoc(s.drop_first(), c);
        assert(esc(s.push(c)) == esc_char(s[0]) + esc(s.drop_first().push(c)));
        assert(esc(s.push(c)) =~= esc(s) + esc_char(c));
    }
}

/// A fixed literal at the head of the text is consumed exactly.
proof fn lemma_expect_inverts(lit: Seq<char>, rest: Seq<char>)
    ensures
        spec_expect(lit + rest, lit) == Some(rest),
{
    assert((lit + rest).take(lit.len() as int) =~= lit);
    assert((lit + rest).skip(lit.len() as int) =~= rest);
}

/// Parsing a string body undoes escaping, through the closing quote.
proof fn lemma_parse_string_inverts(name: Seq<char>, rest: Seq<char>)
    ensures
        spec_parse_string_body(esc(name) + seq!['"'] + rest) == Some((name, rest)),
    decreases name.len(),
{
    let s = esc(name) + seq!['"'] + rest;
    if name.len() == 0 {
        assert(s[0] == '"');
        assert(s.drop_first() =~= rest);
    } else {
        let c = name[0];
        lemma_parse_string_inverts(name.drop_first(), rest);
        assert(seq![c] + name.drop_first() =~= name);
        if c == '"' || c == '\\' {
            assert(s[0] == '\\');
            assert(s[1] == c);
            assert(unescaped_of(s[1]) == Some(c));
            assert(s.skip(2) =~= esc(name.drop_first()) + seq!['"'] + rest);
        } else if c == '\u{8}' || c == '\u{c}' || c == '\n' || c == '\r' || c == '\t' {
            assert(s[0] == '\\');
            assert(unescaped_of(s[1]) == Some(c));
            assert(s.skip(2) =~= esc(name.drop_first()) + seq!['"'] + rest);
        } else if (c as u32) < 32 {
            let v = (c as u32) as int;
            assert(0 <= v < 32);
            assert(s[0] == '\\');
            assert(s[1] == 'u');
            assert(s[2] == '0');
            assert(s[3] == '0');
            assert(s[4] == hex_char(v / 16));
            assert(s[5] == hex_char(v % 16));
            assert(unescaped_of('u') is None);
            assert(hex_val(hex_char(v / 16)) == v / 16);
            assert(hex_val(hex_char(v % 16)) == v % 16);
            assert(16 * (v / 16) + v % 16 == v);
            assert((16 * hex_val(s[4]) + hex_val(s[5])) as u32 == c as u32);
            vstd::utf8::char_u32_cast(c, c as u32);
            assert((((16 * hex_val(s[4]) + hex_val(s[5])) as u32) as char) == c);
            assert(s.skip(6) =~= esc(name.drop_first()) + seq!['"'] + rest);
        } else {
            assert(s[0] == c);
            assert(!((s[0] as u32) < 32));
            assert(s.drop_first() =~= esc(name.drop_first()) + seq!['"'] + rest);
        }
    }
}

/// The digits of a positive number are digit characters, carry its value,
/// and do not start with a zero.
proof fn lemma_dec_digits_props(n: int)
    requires
        n > 0,
    ensures
        dec_digits(n).len() >= 1,
        forall|i: int| 0 <= i < dec_digits(n).len() ==> digit_val(#[trigger] dec_digits(n)[i]) >= 0,
        dec_val(dec_digits(n)) == n,
        digit_val(dec_digits(n)[0]) > 0 || dec_digits(n)[0] == '0' && dec_digits(n).len() == 1,
        n < 10 ==> dec_digits(n).len() == 1,
        n < 100 ==> dec_digits(n).len() <= 2,
        n < 1000 ==> dec_digits(n).len() <= 3,
        dec_digits(n)[0] != '0',
    decreases n,
{
    assert(dec_val(Seq::<char>::empty()) == 0);
    if n < 10 {
        assert(dec_digits(n / 10) =~= Seq::<char>::empty());
        assert(dec_digits(n) =~= seq![digit_char(n)]);
        assert(dec_digits(n).drop_last() =~= Seq::<char>::empty());
        assert(digit_val(digit_char(n)) == n);
        assert(dec_val(dec_digits(n)) == dec_val(dec_digits(n).drop_last()) * 10 + digit_val(
            dec_digits(n).last(),
        ));
    } else {
        lemma_dec_digits_props(n / 10);
        assert(dec_digits(n) == dec_digits(n / 10).push(digit_char(n % 10)));
        assert(dec_digits(n)[0] == dec_digits(n / 10)[0]);
        assert(dec_digits(n).drop_last() =~= dec_digits(n / 10));
        assert(digit_val(digit_char(n % 10)) == n % 10);
        assert(dec_val(dec_digits(n)) == dec_val(dec_digits(n / 10)) * 10 + (n % 10));
    }
}

/// A digit run followed by a non-digit spans exactly the run.
proof fn lemma_digit_span_exact(ds: Seq<char>, rest: Seq<char>)
    requires
        forall|i: int| 0 <= i < ds.len() ==> digit_val(#[trigger] ds[i]) >= 0,
        rest.len() == 0 || digit_val(rest[0]) < 0,
    ensures
        spec_digit_span(ds + rest) == ds.len(),
    decreases ds.len(),
{
    if ds.len() == 0 {
        assert(ds + rest =~= rest);
        if rest.len() > 0 {
            assert(spec_digit_span(rest) == 0);
        }
    } else {
        assert((ds + rest)[0] == ds[0]);
        assert((ds + rest).drop_first() =~= ds.drop_first() + rest);
        lemma_digit_span_exact(ds.drop_first(), rest);
    }
}

/// Parsing a canonical decimal recovers the value, when what follows does
/// not begin with a digit.
proof fn lemma_parse_u8_inverts(v: u8, rest: Seq<char>)
    requires
        rest.len() == 0 || digit_val(rest[0]) < 0,
    ensures
        spec_parse_u8(dec_of(v as int) + rest) == Some((v, rest)),
{
    let ds = dec_of(v as int);
    let s = ds + rest;
    if v == 0 {
        assert(ds =~= seq!['0']);
        assert(forall|i: int| 0 <= i < ds.len() ==> digit_val(#[trigger] ds[i]) >= 0);
        lemma_digit_span_exact(ds, rest);
        assert(s.take(1) =~= ds);
        assert(ds.drop_last() =~= Seq::<char>::empty());
        assert(dec_val(Seq::<char>::empty()) == 0);
        assert(dec_val(ds) == dec_val(ds.drop_last()) * 10 + digit_val(ds.last()));
        assert(dec_val(ds) == 0);
        assert(s.skip(1) =~= rest);
    } else {
        lemma_dec_digits_props(v as int);
        lemma_digit_span_exact(ds, rest);
        let n = ds.len() as int;
        assert(s.take(n) =~= ds);
        assert(s.skip(n) =~= rest);
        assert(s[0] == ds[0]);
    }
}

/// Parsing one encoded pair recovers it, whatever follows.
#[verifier::rlimit(50)]
proof fn lemma_parse_pair_inverts(p: StationPairView, rest: Seq<char>)
    ensures
        spec_parse_pair(spec_enc_pair(p) + rest) == Some((p, rest)),
{
    let lit1 = "{\"from_station\":\""@;
    let lit2 = ",\"to_station\":\""@;
    let lit3 = ",\"num_connections\":"@;
    let tail1 = esc(p.from_station) + seq!['"'] + (lit2 + esc(p.to_station) + seq!['"'] + lit3
        + dec_of(p.num_connections as int) + seq!['}'] + rest);
    assert(spec_enc_pair(p) + rest =~= lit1 + tail1);
    lemma_expect_inverts(lit1, tail1);
    let tail2 = lit2 + esc(p.to_station) + seq!['"'] + lit3 + dec_of(p.num_connections as int)
        + seq!['}'] + rest;
    assert(tail1 =~= esc(p.from_station) + seq!['"'] + tail2);
    lemma_parse_string_inverts(p.from_station, tail2);
    let tail3 = esc(p.to_station) + seq!['"'] + (lit3 + dec_of(p.num_connections as int)
        + seq!['}'] + rest);
    assert(tail2 =~= lit2 + tail3);
    lemma_expect_inverts(lit2, tail3);
    let tail4 = lit3 + dec_of(p.num_connections as int) + seq!['}'] + rest;
    assert(tail3 =~= esc(p.to_station) + seq!['"'] + tail4);
    lemma_parse_string_inverts(p.to_station, tail4);
    let tail5 = dec_of(p.num_connections as int) + (seq!['}'] + rest);
    assert(tail4 =~= lit3 + tail5);
    lemma_expect_inverts(lit3, tail5);
    reveal_strlit("}");
    assert(digit_val('}') < 0);
    assert((seq!['}'] + rest)[0] == '}');
    lemma_parse_u8_inverts(p.num_connections, seq!['}'] + rest);
    lemma_expect_inverts(seq!['}'], rest);
    assert(seq!['}'] + rest =~= seq!['}'] + rest);
    assert(StationPairView {
        from_station: p.from_station,
        to_station: p.to_station,
        num_connections: p.num_connections,
    } == p);
}

/// A digit span never exceeds the text.
proof fn lemma_digit_span_bounds(s: Seq<char>)
    ensures
        0 <= spec_digit_span(s) <= s.len(),
    decreases s.len(),
{
    if s.len() > 0 && digit_val(s[0]) >= 0 {
        lemma_digit_span_bounds(s.drop_first());
    }
}

/// A successfully parsed string body leaves strictly less text behind.
proof fn lemma_parse_string_shrinks(s: Seq<char>)
    ensures
        spec_parse_string_body(s) matches Some((t, r)) ==> r.len() < s.len(),
    decreases s.len(),
{
    if s.len() > 0 && s[0] == '\\' {
        if s.len() >= 2 && unescaped_of(s[1]) is Some {
            lemma_parse_string_shrinks(s.skip(2));
        } else if s.len() >= 6 && s[1] == 'u' && s[2] == '0' && s[3] == '0' && hex_val(s[4]) >= 0
            && hex_val(s[5]) >= 0 {
            lemma_parse_string_shrinks(s.skip(6));
        }
    } else if s.len() > 0 && s[0] != '"' && !((s[0] as u32) < 32) {
        lemma_parse_string_shrinks(s.drop_first());
    }
}

/// A successfully parsed pair leaves strictly less text behind.
proof fn lemma_parse_pair_shrinks(s: Seq<char>)
    ensures
        spec_parse_pair(s) matches Some((p, r)) ==> r.len() < s.len(),
{
    let lit1 = "{\"from_station\":\""@;
    let lit2 = ",\"to_station\":\""@;
    let lit3 = ",\"num_connections\":"@;
    if spec_expect(s, lit1) is Some {
        let s1 = spec_expect(s, lit1)->0;
        assert(s1.len() <= s.len());
        lemma_parse_string_shrinks(s1);
        if spec_parse_string_body(s1) is Some {
            let s2 = (spec_parse_string_body(s1)->0).1;
            assert(s2.len() < s1.len());
            if spec_expect(s2, lit2) is Some {
                let s3 = spec_expect(s2, lit2)->0;
                assert(s3.len() <= s2.len());
                lemma_parse_string_shrinks(s3);
                if spec_parse_string_body(s3) is Some {
                    let s4 = (spec_parse_string_body(s3)->0).1;
                    assert(s4.len() < s3.len());
                    if spec_expect(s4, lit3) is Some {
                        let s5 = spec_expect(s4, lit3)->0;
                        assert(s5.len() <= s4.len());
                        lemma_digit_span_bounds(s5);
                        if spec_parse_u8(s5) is Some {
                            let s6 = (spec_parse_u8(s5)->0).1;
                            assert(s6.len() < s5.len());
                            if spec_expect(s6, seq!['}']) is Some {
                                let s7 = spec_expect(s6, seq!['}'])->0;
                                assert(s7.len() <= s6.len());
                            }
                        }
                    }
                }
            }
        }
    }
}

/// Parsing the encoded list tail recovers it, whatever follows.
proof fn lemma_parse_pairs_rest_inverts(ps: Seq<StationPairView>, rest: Seq<char>)
    ensures
        spec_parse_pairs_rest(spec_enc_pairs_rest(ps) + rest) == Some((ps, rest)),
    decreases ps.len(),
{
    let s = spec_enc_pairs_rest(ps) + rest;
    if ps.len() == 0 {
        assert(s[0] == ']');
        assert(s.drop_first() =~= rest);
        assert(Some((Seq::<StationPairView>::empty(), rest)) == spec_parse_pairs_rest(s));
        assert(spec_enc_pairs_rest(ps) + rest =~= s);
    } else {
        assert(s[0] == ',');
        let tail = spec_enc_pair(ps[0]) + (spec_enc_pairs_rest(ps.drop_first()) + rest);
        assert(s.drop_first() =~= tail);
        lemma_parse_pair_inverts(ps[0], spec_enc_pairs_rest(ps.drop_first()) + rest);
        lemma_parse_pair_shrinks(s.drop_first());
        lemma_parse_pairs_rest_inverts(ps.drop_first(), rest);
        assert(seq![ps[0]] + ps.drop_first() =~= ps);
    }
}

/// Law: decoding what encoding wrote yields the original configuration.
pub proof fn lemma_config_round_trip(c: WidgetConfigView)
    ensures
        spec_parse_config(spec_enc_config(c)) == Some(c.connections),
{
    let lit = "{\"connections\":["@;
    let s = spec_enc_config(c);
    let tail = spec_enc_items(c.connections) + seq!['}'];
    assert(s =~= lit + tail);
    lemma_expect_inverts(lit, tail);
    if c.connections.len() == 0 {
        assert(tail =~= seq![']'] + seq!['}']);
        assert(tail[0] == ']');
        assert(tail.skip(1) =~= seq!['}']);
    } else {
        let p0 = c.connections[0];
        let after = spec_enc_pairs_rest(c.connections.drop_first()) + seq!['}'];
        assert(tail =~= spec_enc_pair(p0) + after);
        lemma_parse_pair_inverts(p0, after);
        lemma_parse_pairs_rest_inverts(c.connections.drop_first(), seq!['}']);
        reveal_strlit("{\"from_station\":\"");
        assert(spec_enc_pair(p0).len() > 0);
        assert(tail[0] == spec_enc_pair(p0)[0]);
        assert(spec_enc_pair(p0)[0] == '{') by {
            reveal_strlit("{\"from_station\":\"");
            assert("{\"from_station\":\""@[0] == '{');
        }
        assert(!(tail.len() > 0 && tail[0] == ']'));
        assert(seq![p0] + c.connections.drop_first() =~= c.connections);
    }
}

// ---------------------------------------------------------------------
// The executable encoder.
// ---------------------------------------------------------------------
/// The pairs joined with commas, from the second one on.
spec fn spec_comma_join(ps: Seq<StationPairView>) -> Seq<char>
    decreases ps.len(),
{
    if ps.len() == 0 {
        Seq::empty()
    } else {
        seq![','] + spec_enc_pair(ps[0]) + spec_comma_join(ps.drop_first())
    }
}

/// All the pairs joined with commas.
spec fn spec_join_pairs(ps: Seq<StationPairView>) -> Seq<char> {
    if ps.len() == 0 {
        Seq::empty()
    } else {
        spec_enc_pair(ps[0]) + spec_comma_join(ps.drop_first())
    }
}

/// Comma-joining distributes over appending one pair.
proof fn lemma_comma_join_snoc(ps: Seq<StationPairView>, p: StationPairView)
    ensures
        spec_comma_join(ps.push(p)) == spec_comma_join(ps) + seq![','] + spec_enc_pair(p),
    decreases ps.len(),
{
    if ps.len() == 0 {
        assert(ps.push(p)[0] == p);
        assert(ps.push(p).drop_first() =~= Seq::<StationPairView>::empty());
        assert(spec_comma_join(Seq::<StationPairView>::empty()) == Seq::<char>::empty());
        assert(spec_comma_join(ps.push(p)) =~= spec_comma_join(ps) + seq![','] + spec_enc_pair(p));
    } else {
        assert(ps.push(p)[0] == ps[0]);
        assert(ps.push(p).drop_first() =~= ps.drop_first().push(p));
        lemma_comma_join_snoc(ps.drop_first(), p);
        assert(spec_comma_join(ps.push(p)) == seq![','] + spec_enc_pair(ps[0]) + spec_comma_join(
            ps.drop_first().push(p),
        ));
        assert(spec_comma_join(ps.push(p)) =~= spec_comma_join(ps) + seq![','] + spec_enc_pair(p));
    }
}

/// Joining distributes over appending one pair.
proof fn lemma_join_pairs_snoc(ps: Seq<StationPairView>, p: StationPairView)
    ensures
        ps.len() == 0 ==> spec_join_pairs(ps.push(p)) == spec_enc_pair(p),
        ps.len() > 0 ==> spec_join_pairs(ps.push(p)) == spec_join_pairs(ps) + seq![',']
            + spec_enc_pair(p),
{
    if ps.len() == 0 {
        assert(ps.push(p)[0] == p);
        assert(ps.push(p).drop_first() =~= Seq::<StationPairView>::empty());
        assert(spec_comma_join(Seq::<StationPairView>::empty()) == Seq::<char>::empty());
        assert(spec_join_pairs(ps.push(p)) =~= spec_enc_pair(p));
    } else {
        assert(ps.push(p)[0] == ps[0]);
        assert(ps.push(p).drop_first() =~= ps.drop_first().push(p));
        lemma_comma_join_snoc(ps.drop_first(), p);
        assert(spec_join_pairs(ps.push(p)) =~= spec_join_pairs(ps) + seq![','] + spec_enc_pair(p));
    }
}

/// The encoded list tail is the comma-joined pairs plus the bracket.
proof fn lemma_enc_pairs_rest_is_join(ps: Seq<StationPairView>)
    ensures
        spec_enc_pairs_rest(ps) == spec_comma_join(ps) + seq![']'],
    decreases ps.len(),
{
    if ps.len() == 0 {
        assert(spec_enc_pairs_rest(ps) =~= spec_comma_join(ps) + seq![']']);
    } else {
        lemma_enc_pairs_rest_is_join(ps.drop_first());
        assert(spec_enc_pairs_rest(ps) =~= spec_comma_join(ps) + seq![']']);
    }
}

/// The encoded bracketed list is the joined pairs plus the bracket.
proof fn lemma_enc_items_is_join(ps: Seq<StationPairView>)
    ensures
        spec_enc_items(ps) == spec_join_pairs(ps) + seq![']'],
{
    if ps.len() == 0 {
        assert(spec_enc_items(ps) =~= spec_join_pairs(ps) + seq![']']);
    } else {
        lemma_enc_pairs_rest_is_join(ps.drop_first());
        assert(spec_enc_items(ps) =~= spec_join_pairs(ps) + seq![']']);
    }
}

/// Appends the character for one hexadecimal digit value, lower case.
fn push_hex_digit(s: &mut String, d: u8)
    requires
        d < 16,
    ensures
        final(s)@ == old(s)@.push(hex_char(d as int)),
{
    let c: char = if d == 0 {
        '0'
    } else if d == 1 {
        '1'
    } else if d == 2 {
        '2'
    } else if d == 3 {
        '3'
    } else if d == 4 {
        '4'
    } else if d == 5 {
        '5'
    } else if d == 6 {
        '6'
    } else if d == 7 {
        '7'
    } else if d == 8 {
        '8'
    } else if d == 9 {
        '9'
    } else if d == 10 {
        'a'
    } else if d == 11 {
        'b'
    } else if d == 12 {
        'c'
    } else if d == 13 {
        'd'
    } else if d == 14 {
        'e'
    } else {
        'f'
    };
    push_char(s, c);
}

/// Appends the escaped form of a string.
fn push_escaped(s: &mut String, text: &str)
    ensures
        final(s)@ == old(s)@ + esc(text@),
{
    let n = text.unicode_len();
    let mut i: usize = 0;
    while i < n
        invariant
            n == text@.len(),
            0 <= i <= n,
            s@ == old(s)@ + esc(text@.take(i as int)),
        decreases n - i,
    {
        let c = text.get_char(i);
        proof {
            lemma_esc_snoc(text@.take(i as int), text@[i as int]);
            assert(text@.take(i as int).push(text@[i as int]) =~= text@.take(i as int + 1));
        }
        if c == '"' {
            push_char(s, '\\');
            push_char(s, '"');
        } else if c == '\\' {
            push_char(s, '\\');
            push_char(s, '\\');
        } else if c == '\u{8}' {
            push_char(s, '\\');
            push_char(s, 'b');
        } else if c == '\u{c}' {
            push_char(s, '\\');
            push_char(s, 'f');
        } else if c == '\n' {
            push_char(s, '\\');
            push_char(s, 'n');
        } else if c == '\r' {
            push_char(s, '\\');
            push_char(s, 'r');
        } else if c == '\t' {
            push_char(s, '\\');
            push_char(s, 't');
        } else if (c as u32) < 32 {
            let v = c as u32;
            push_char(s, '\\');
            push_char(s, 'u');
            push_char(s, '0');
            push_char(s, '0');
            push_hex_digit(s, (v / 16) as u8);
            push_hex_digit(s, (v % 16) as u8);
        } else {
            push_char(s, c);
        }
        proof {
            assert(s@ =~= old(s)@ + esc(text@.take(i as int + 1)));
        }
        i = i + 1;
    }
    proof {
        assert(text@.take(n as int) =~= text@);
    }
}

/// Appends the encoded form of one station pair.
fn push_encoded_pair(s: &mut String, p: &StationPairConfig)
    ensures
        final(s)@ == old(s)@ + spec_enc_pair(p@),
{
    s.append("{\"from_station\":\"");
    push_escaped(s, p.from_station.as_str());
    s.append("\"");
    s.append(",\"to_station\":\"");
    push_escaped(s, p.to_station.as_str());
    s.append("\"");
    s.append(",\"num_connections\":");
    push_dec(s, p.num_connections as u16);
    s.append("}");
    proof {
        reveal_strlit("\"");
        reveal_strlit("}");
        assert("\""@ =~= seq!['"']);
        assert("}"@ =~= seq!['}']);
        assert(s@ =~= old(s)@ + spec_enc_pair(p@));
    }
}

/// Writes a configuration in its canonical encoded form.
pub fn encode_config(c: &WidgetConfig) -> (r: String)
    ensures
        r@ == spec_enc_config(c@),
{
    let ghost cv = c@.connections;
    let mut s = String::new().concat("{\"connections\":[");
    let n = c.connections.len();
    let mut i: usize = 0;
    while i < n
        invariant
            n == cv.len(),
            cv == c@.connections,
            0 <= i <= n,
            s@ == "{\"connections\":["@ + spec_join_pairs(cv.take(i as int)),
        decreases n - i,
    {
        proof {
            assert(cv.take(i as int).push(cv[i as int]) =~= cv.take(i as int + 1));
            lemma_join_pairs_snoc(cv.take(i as int), cv[i as int]);
        }
        if i > 0 {
            s.append(",");
            proof {
                reveal_strlit(",");
                assert(","@ =~= seq![',']);
            }
        }
        push_encoded_pair(&mut s, &c.connections[i]);
        proof {
            assert(cv[i as int] == c.connections[i as int]@);
            assert(s@ =~= "{\"connections\":["@ + spec_join_pairs(cv.take(i as int + 1)));
        }
        i = i + 1;
    }
    s.append("]");
    s.append("}");
    proof {
        reveal_strlit("]");
        reveal_strlit("}");
        assert("]"@ =~= seq![']']);
        assert("}"@ =~= seq!['}']);
        assert(cv.take(n as int) =~= cv);
        lemma_enc_items_is_join(cv);
        assert(s@ =~= spec_enc_config(c@));
    }
    s
}


// ---------------------------------------------------------------------
// The executable parser.
// ---------------------------------------------------------------------
/// Consumes a fixed literal at a position.
fn expect_lit(s: &str, i: usize, lit: &str) -> (r: Option<usize>)
    requires
        i <= s@.len(),
    ensures
        match spec_expect(s@.skip(i as int), lit@) {
            Some(rest) => {
                &&& r is Some
                &&& r->0 as int == i + lit@.len()
                &&& i <= r->0 <= s@.len()
                &&& s@.skip(r->0 as int) == rest
            },
            None => r is None,
        },
{
    let m = s.unicode_len();
    let n = lit.unicode_len();
    if n > m - i {
        return None;
    }
    let mut j: usize = 0;
    while j < n
        invariant
            m == s@.len(),
            n == lit@.len(),
            i + n <= m,
            0 <= j <= n,
            forall|k: int| 0 <= k < j ==> s@[i + k] == lit@[k],
        decreases n - j,
    {
        let a = s.get_char(i + j);
        let b = lit.get_char(j);
        if a != b {
            proof {
                assert(s@.skip(i as int).take(n as int)[j as int] == s@[i + j as int]);
                assert(s@.skip(i as int).take(n as int) != lit@);
            }
            return None;
        }
        j = j + 1;
    }
    proof {
        assert(s@.skip(i as int).take(n as int) =~= lit@);
        assert(s@.skip(i as int).skip(n as int) =~= s@.skip(i + n as int));
    }
    Some(i + n)
}

/// What a single-character string escape stands for, if it is one.
fn unescape_char(e: char) -> (r: Option<char>)
    ensures
        r == unescaped_of(e),
{
    if e == '"' {
        Some('"')
    } else if e == '\\' {
        Some('\\')
    } else if e == '/' {
        Some('/')
    } else if e == 'b' {
        Some('\u{8}')
    } else if e == 'f' {
        Some('\u{c}')
    } else if e == 'n' {
        Some('\n')
    } else if e == 'r' {
        Some('\r')
    } else if e == 't' {
        Some('\t')
    } else {
        None
    }
}

/// The value of one hexadecimal digit character.
fn hex_digit_of(c: char) -> (r: Option<u8>)
    ensures
        r is Some <==> hex_val(c) >= 0,
        r is Some ==> r->0 as int == hex_val(c) && r->0 < 16,
{
    if c == 'a' || c == 'A' {
        Some(10)
    } else if c == 'b' || c == 'B' {
        Some(11)
    } else if c == 'c' || c == 'C' {
        Some(12)
    } else if c == 'd' || c == 'D' {
        Some(13)
    } else if c == 'e' || c == 'E' {
        Some(14)
    } else if c == 'f' || c == 'F' {
        Some(15)
    } else {
        digit_of(c)
    }
}

/// Consumes a string body at a position, undoing the escapes.
fn parse_string_body_at(s: &str, i: usize) -> (r: Option<(String, usize)>)
    requires
        i <= s@.len(),
    ensures
        match spec_parse_string_body(s@.skip(i as int)) {
            Some((t, rest)) => {
                &&& r is Some
                &&& (r->0).0@ == t
                &&& i <= (r->0).1 <= s@.len()
                &&& s@.skip((r->0).1 as int) == rest
            },
            None => r is None,
        },
{
    let m = s.unicode_len();
    let mut acc = String::new();
    let mut j: usize = i;
    while j < m
        invariant
            m == s@.len(),
            i <= j <= m,
            spec_parse_string_body(s@.skip(i as int)) == (match spec_parse_string_body(
                s@.skip(j as int),
            ) {
                Some((t, rest)) => Some((acc@ + t, rest)),
                None => None::<(Seq<char>, Seq<char>)>,
            }),
        decreases m - j,
    {
        let c = s.get_char(j);
        proof {
            assert(s@.skip(j as int)[0] == s@[j as int]);
            assert(s@.skip(j as int).drop_first() =~= s@.skip(j as int + 1));
        }
        if c == '"' {
            proof {
                assert(acc@ + Seq::<char>::empty() =~= acc@);
            }
            return Some((acc, j + 1));
        } else if c == '\\' {
            if j + 1 < m {
                let c2 = s.get_char(j + 1);
                proof {
                    assert(s@.skip(j as int)[1] == s@[j as int + 1]);
                    assert(s@.skip(j as int).skip(2) =~= s@.skip(j as int + 2));
                }
                match unescape_char(c2) {
                    Some(u) => {
                        let ghost acc_old = acc@;
                        push_char(&mut acc, u);
                        proof {
                            if spec_parse_string_body(s@.skip(j as int + 2)) is Some {
                                let t = (spec_parse_string_body(s@.skip(j as int + 2))->0).0;
                                assert(acc_old + (seq![u] + t) =~= acc@ + t);
                            }
                        }
                        j = j + 2;
                    },
                    None => {
                        if c2 != 'u' {
                            return None;
                        }
                        if m - j < 6 {
                            proof {
                                assert(s@.skip(j as int).len() < 6);
                            }
                            return None;
                        }
                        let d2 = s.get_char(j + 2);
                        let d3 = s.get_char(j + 3);
                        let h1 = s.get_char(j + 4);
                        let h2 = s.get_char(j + 5);
                        proof {
                            assert(s@.skip(j as int)[2] == s@[j as int + 2]);
                            assert(s@.skip(j as int)[3] == s@[j as int + 3]);
                            assert(s@.skip(j as int)[4] == s@[j as int + 4]);
                            assert(s@.skip(j as int)[5] == s@[j as int + 5]);
                            assert(s@.skip(j as int).skip(6) =~= s@.skip(j as int + 6));
                        }
                        if d2 != '0' || d3 != '0' {
                            return None;
                        }
                        let a = match hex_digit_of(h1) {
                            Some(x) => x,
                            None => {
                                return None;
                            },
                        };
                        let b = match hex_digit_of(h2) {
                            Some(x) => x,
                            None => {
                                return None;
                            },
                        };
                        let u: char = (16 * a + b) as char;
                        let ghost acc_old = acc@;
                        push_char(&mut acc, u);
                        proof {
                            if spec_parse_string_body(s@.skip(j as int + 6)) is Some {
                                let t = (spec_parse_string_body(s@.skip(j as int + 6))->0).0;
                                assert(acc_old + (seq![u] + t) =~= acc@ + t);
                            }
                        }
                        j = j + 6;
                    },
                }
            } else {
                proof {
                    assert(s@.skip(j as int).len() < 2);
                }
                return None;
            }
        } else if (c as u32) < 32 {
            return None;
        } else {
            let ghost acc_old = acc@;
            push_char(&mut acc, c);
            proof {
                if spec_parse_string_body(s@.skip(j as int + 1)) is Some {
                    let t = (spec_parse_string_body(s@.skip(j as int + 1))->0).0;
                    assert(acc_old + (seq![c] + t) =~= acc@ + t);
                }
            }
            j = j + 1;
        }
    }
    proof {
        assert(s@.skip(j as int).len() == 0);
    }
    None
}

/// The decimal value of one digit character.
fn digit_of(c: char) -> (r: Option<u8>)
    ensures
        r is Some <==> digit_val(c) >= 0,
        r is Some ==> r->0 as int == digit_val(c),
{
    if c == '0' {
        Some(0)
    } else if c == '1' {
        Some(1)
    } else if c == '2' {
        Some(2)
    } else if c == '3' {
        Some(3)
    } else if c == '4' {
        Some(4)
    } else if c == '5' {
        Some(5)
    } else if c == '6' {
        Some(6)
    } else if c == '7' {
        Some(7)
    } else if c == '8' {
        Some(8)
    } else if c == '9' {
        Some(9)
    } else {
        None
    }
}

/// Consumes a canonical decimal `u8` at a position.
fn parse_u8_at(s: &str, i: usize) -> (r: Option<(u8, usize)>)
    requires
        i <= s@.len(),
    ensures
        match spec_parse_u8(s@.skip(i as int)) {
            Some((v, rest)) => {
                &&& r is Some
                &&& (r->0).0 == v
                &&& i <= (r->0).1 <= s@.len()
                &&& s@.skip((r->0).1 as int) == rest
            },
            None => r is None,
        },
{
    let m = s.unicode_len();
    let mut j: usize = i;
    let mut val: u32 = 0;
    let mut going = true;
    while going && j < m && j - i < 4
        invariant
            m == s@.len(),
            i <= j <= m,
            j - i <= 4,
            going ==> spec_digit_span(s@.skip(i as int)) == (j - i) + spec_digit_span(
                s@.skip(j as int),
            ),
            !going ==> spec_digit_span(s@.skip(i as int)) == j - i,
            val as int == dec_val(s@.skip(i as int).take(j - i)),
            forall|k: int| 0 <= k < j - i ==> digit_val(#[trigger] s@[i + k]) >= 0,
            j - i == 0 ==> val == 0,
            j - i == 1 ==> val <= 9,
            j - i == 2 ==> val <= 99,
            j - i == 3 ==> val <= 999,
            j - i == 4 ==> val <= 9999,
        decreases m - j, (if going { 1int } else { 0int }),
    {
        let c = s.get_char(j);
        proof {
            assert(s@.skip(j as int)[0] == s@[j as int]);
            assert(s@.skip(j as int).drop_first() =~= s@.skip(j as int + 1));
        }
        match digit_of(c) {
            Some(d) => {
                proof {
                    let pre = s@.skip(i as int).take(j - i);
                    let ext = s@.skip(i as int).take(j + 1 - i);
                    assert(ext.drop_last() =~= pre);
                    assert(ext.last() == s@[j as int]);
                    assert(dec_val(ext) == dec_val(pre) * 10 + digit_val(s@[j as int]));
                }
                val = val * 10 + d as u32;
                j = j + 1;
            },
            None => {
                going = false;
            },
        }
    }
    let n = j - i;
    proof {
        if going && j == m {
            assert(s@.skip(j as int).len() == 0);
            assert(spec_digit_span(s@.skip(j as int)) == 0);
        }
        lemma_digit_span_bounds(s@.skip(j as int));
    }
    if n == 0 {
        return None;
    }
    if n == 4 {
        proof {
            assert(spec_digit_span(s@.skip(i as int)) >= 4);
        }
        return None;
    }
    proof {
        assert(spec_digit_span(s@.skip(i as int)) == n);
    }
    if n > 1 {
        let c0 = s.get_char(i);
        proof {
            assert(s@.skip(i as int)[0] == s@[i as int]);
        }
        if c0 == '0' {
            return None;
        }
    }
    if val > 255 {
        return None;
    }
    Some((val as u8, j))
}

/// Consumes one encoded station pair at a position.
fn parse_pair_at(s: &str, i: usize) -> (r: Option<(StationPairConfig, usize)>)
    requires
        i <= s@.len(),
    ensures
        match spec_parse_pair(s@.skip(i as int)) {
            Some((pv, rest)) => {
                &&& r is Some
                &&& (r->0).0@ == pv
                &&& i <= (r->0).1 <= s@.len()
                &&& s@.skip((r->0).1 as int) == rest
            },
            None => r is None,
        },
{
    let i1 = match expect_lit(s, i, "{\"from_station\":\"") {
        Some(x) => x,
        None => {
            return None;
        },
    };
    let (from_station, i2) = match parse_string_body_at(s, i1) {
        Some(x) => x,
        None => {
            return None;
        },
    };
    let i3 = match expect_lit(s, i2, ",\"to_station\":\"") {
        Some(x) => x,
        None => {
            return None;
        },
    };
    let (to_station, i4) = match parse_string_body_at(s, i3) {
        Some(x) => x,
        None => {
            return None;
        },
    };
    let i5 = match expect_lit(s, i4, ",\"num_connections\":") {
        Some(x) => x,
        None => {
            return None;
        },
    };
    let (num_connections, i6) = match parse_u8_at(s, i5) {
        Some(x) => x,
        None => {
            return None;
        },
    };
    let i7 = match expect_lit(s, i6, "}") {
        Some(x) => x,
        None => {
            proof {
                reveal_strlit("}");
                assert("}"@ =~= seq!['}']);
            }
            return None;
        },
    };
    proof {
        reveal_strlit("}");
        assert("}"@ =~= seq!['}']);
    }
    let p = StationPairConfig { from_station, to_station, num_connections };
    proof {
        let pv = (spec_parse_pair(s@.skip(i as int))->0).0;
        assert(p@ == pv);
    }
    Some((p, i7))
}

/// The views of the pairs collected so far.
spec fn views_of(ps: Seq<StationPairConfig>) -> Seq<StationPairView> {
    Seq::new(ps.len(), |k: int| ps[k]@)
}

/// Reads a configuration document in the codec's compact shape, with the
/// keys in their canonical order and any of the standard string escapes;
/// other text yields nothing.
pub fn parse_config(s: &str) -> (r: Option<WidgetConfig>)
    ensures
        r is Some <==> spec_parse_config(s@) is Some,
        r is Some ==> r->0@.connections == spec_parse_config(s@)->0,
{
    let m = s.unicode_len();
    let i0 = match expect_lit(s, 0, "{\"connections\":[") {
        Some(x) => x,
        None => {
            proof {
                assert(s@.skip(0) =~= s@);
            }
            return None;
        },
    };
    proof {
        assert(s@.skip(0) =~= s@);
    }
    if i0 < m && s.get_char(i0) == ']' {
        proof {
            assert(s@.skip(i0 as int)[0] == s@[i0 as int]);
            assert(s@.skip(i0 as int).skip(1) =~= s@.skip(i0 as int + 1));
        }
        if m - i0 == 2 && s.get_char(i0 + 1) == '}' {
            proof {
                assert(s@.skip(i0 as int + 1) =~= seq!['}']);
            }
            return Some(WidgetConfig { connections: Vec::new() });
        } else {
            proof {
                if s@.skip(i0 as int + 1) == seq!['}'] {
                    assert(s@.skip(i0 as int + 1).len() == 1);
                    assert(s@.skip(i0 as int + 1)[0] == '}');
                    assert(s@[i0 as int + 1] == '}');
                }
            }
            return None;
        }
    }
    proof {
        if i0 < m {
            assert(s@.skip(i0 as int)[0] == s@[i0 as int]);
        } else {
            assert(s@.skip(i0 as int).len() == 0);
        }
    }
    let (p0, j0) = match parse_pair_at(s, i0) {
        Some(x) => x,
        None => {
            return None;
        },
    };
    let mut pairs: Vec<StationPairConfig> = Vec::new();
    pairs.push(p0);
    let mut j = j0;
    proof {
        assert(views_of(pairs@) =~= seq![p0@]);
    }
    while j < m
        invariant
            m == s@.len(),
            0 <= j <= m,
            spec_parse_config(s@) == (match spec_parse_pairs_rest(s@.skip(j as int)) {
                Some((ps, r2)) => if r2 == seq!['}'] {
                    Some(views_of(pairs@) + ps)
                } else {
                    None::<Seq<StationPairView>>
                },
                None => None::<Seq<StationPairView>>,
            }),
        decreases m - j,
    {
        let c = s.get_char(j);
        proof {
            assert(s@.skip(j as int)[0] == s@[j as int]);
            assert(s@.skip(j as int).drop_first() =~= s@.skip(j as int + 1));
        }
        if c == ']' {
            if m - j == 2 && s.get_char(j + 1) == '}' {
                proof {
                    assert(s@.skip(j as int + 1) =~= seq!['}']);
                    assert(views_of(pairs@) + Seq::<StationPairView>::empty() =~= views_of(
                        pairs@,
                    ));
                }
                return Some(WidgetConfig { connections: pairs });
            } else {
                proof {
                    if s@.skip(j as int + 1) == seq!['}'] {
                        assert(s@.skip(j as int + 1).len() == 1);
                        assert(s@.skip(j as int + 1)[0] == '}');
                    }
                }
                return None;
            }
        } else if c == ',' {
            let (p, j2) = match parse_pair_at(s, j + 1) {
                Some(x) => x,
                None => {
                    return None;
                },
            };
            proof {
                lemma_parse_pair_shrinks(s@.skip(j as int + 1));
            }
            let ghost old_views = views_of(pairs@);
            pairs.push(p);
            proof {
                assert(views_of(pairs@) =~= old_views.push(p@));
                if spec_parse_pairs_rest(s@.skip(j2 as int)) is Some {
                    let ps = (spec_parse_pairs_rest(s@.skip(j2 as int))->0).0;
                    assert(old_views + (seq![p@] + ps) =~= views_of(pairs@) + ps);
                }
            }
            j = j2;
        } else {
            return None;
        }
    }
    proof {
        assert(s@.skip(j as int).len() == 0);
    }
    None
}

} // verus!

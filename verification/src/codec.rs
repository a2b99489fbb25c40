//! The persisted record shape: a text-encoded object holding the payload
//! mapping and the long-term flag, and nothing else. All other record fields
//! are recomputed from configuration and runtime context on load.
//!
//! The encoder writes `{"data":{"k":"v",...},"longterm":bool}` with `"`, `\`
//! and control characters escaped; the decoder reads that shape back,
//! accepting the usual short escapes as well. Decoding inverts encoding; see
//! [`lemma_record_round_trip`].

use vstd::prelude::*;

use crate::strmap::StrMap;

verus! {

/// The lowercase hex digit for a value below sixteen.
pub open spec fn hex_char_spec(d: int) -> char {
    if d == 0 {
        '0'
    } else if d == 1 {
        '1'
    } else if d == 2 {
        '2'
    } else if d == 3 {
        '3'
    } else if d == 4 {
        '4'
    } else if d == 5 {
        '5'
    } else if d == 6 {
        '6'
    } else if d == 7 {
        '7'
    } else if d == 8 {
        '8'
    } else if d == 9 {
        '9'
    } else if d == 10 {
        'a'
    } else if d == 11 {
        'b'
    } else if d == 12 {
        'c'
    } else if d == 13 {
        'd'
    } else if d == 14 {
        'e'
    } else {
        'f'
    }
}

fn hex_char(d: u8) -> (r: char)
    requires
        d < 16,
    ensures
        r == hex_char_spec(d as int),
{
    match d {
        0 => '0',
        1 => '1',
        2 => '2',
        3 => '3',
        4 => '4',
        5 => '5',
        6 => '6',
        7 => '7',
        8 => '8',
        9 => '9',
        10 => 'a',
        11 => 'b',
        12 => 'c',
        13 => 'd',
        14 => 'e',
        _ => 'f',
    }
}

/// How one payload character is written: quote and backslash get a backslash
/// escape, control characters a four-digit hex escape, everything else
/// stands as itself.
pub open spec fn esc_char(c: char) -> Seq<char> {
    if c == '"' {
        seq!['\\', '"']
    } else if c == '\\' {
        seq!['\\', '\\']
    } else if (c as u32) < 32 {
        seq!['\\', 'u', '0', '0', hex_char_spec(c as u32 as int / 16), hex_char_spec(
            c as u32 as int % 16,
        )]
    } else {
        seq![c]
    }
}

/// The escaped form of a whole string.
pub open spec fn esc(s: Seq<char>) -> Seq<char>
    decreases s.len(),
{
    if s.len() == 0 {
        Seq::empty()
    } else {
        esc_char(s[0]) + esc(s.skip(1))
    }
}

proof fn lemma_esc_snoc(s: Seq<char>, c: char)
    ensures
        esc(s.push(c)) == esc(s) + esc_char(c),
    decreases s.len(),
{
    if s.len() == 0 {
        assert(s.push(c)[0] == c);
        assert(s.push(c).skip(1) =~= Seq::<char>::empty());
        assert(esc(s.push(c)) == esc_char(c) + esc(s.push(c).skip(1)));
        assert(esc(s.push(c).skip(1)) == Seq::<char>::empty());
        assert(esc(s) == Seq::<char>::empty());
        assert(esc(s.push(c)) =~= esc(s) + esc_char(c));
    } else {
        assert(s.push(c).skip(1) =~= s.skip(1).push(c));
        lemma_esc_snoc(s.skip(1), c);
        assert(esc(s.push(c)) =~= esc(s) + esc_char(c));
    }
}

/// One written entry: `"k":"v"` with both sides escaped.
pub open spec fn enc_entry(k: Seq<char>, v: Seq<char>) -> Seq<char> {
    seq!['"'] + esc(k) + seq!['"', ':', '"'] + esc(v) + seq!['"']
}

/// The written entry list, comma-separated.
pub open spec fn enc_entries(es: Seq<(Seq<char>, Seq<char>)>) -> Seq<char>
    decreases es.len(),
{
    if es.len() == 0 {
        Seq::empty()
    } else if es.len() == 1 {
        enc_entry(es[0].0, es[0].1)
    } else {
        enc_entry(es[0].0, es[0].1) + seq![','] + enc_entries(es.skip(1))
    }
}

proof fn lemma_enc_entries_snoc(es: Seq<(Seq<char>, Seq<char>)>, e: (Seq<char>, Seq<char>))
    requires
        es.len() >= 1,
    ensures
        enc_entries(es.push(e)) == enc_entries(es) + seq![','] + enc_entry(e.0, e.1),
    decreases es.len(),
{
    if es.len() == 1 {
        assert(es.push(e).skip(1) =~= seq![e]);
        assert(es.push(e)[0] == es[0]);
        assert(enc_entries(es.push(e)) == enc_entry(es[0].0, es[0].1) + seq![','] + enc_entries(
            seq![e],
        ));
        assert(enc_entries(seq![e]) == enc_entry(e.0, e.1));
        assert(enc_entries(es) == enc_entry(es[0].0, es[0].1));
        assert(enc_entries(es.push(e)) =~= enc_entries(es) + seq![','] + enc_entry(e.0, e.1));
    } else {
        assert(es.push(e).skip(1) =~= es.skip(1).push(e));
        lemma_enc_entries_snoc(es.skip(1), e);
        assert(enc_entries(es.push(e)) =~= enc_entries(es) + seq![','] + enc_entry(e.0, e.1));
    }
}

/// The opening of the record object up to and including the payload brace.
pub open spec fn rec_prefix() -> Seq<char> {
    seq!['{', '"', 'd', 'a', 't', 'a', '"', ':', '{']
}

/// The text between the payload object and the long-term value.
pub open spec fn rec_mid() -> Seq<char> {
    seq!['}', ',', '"', 'l', 'o', 'n', 'g', 't', 'e', 'r', 'm', '"', ':']
}

pub open spec fn bool_text(b: bool) -> Seq<char> {
    if b {
        seq!['t', 'r', 'u', 'e']
    } else {
        seq!['f', 'a', 'l', 's', 'e']
    }
}

/// The full written record for a given entry list and long-term flag.
pub open spec fn enc_record(es: Seq<(Seq<char>, Seq<char>)>, longterm: bool) -> Seq<char> {
    rec_prefix() + enc_entries(es) + rec_mid() + bool_text(longterm) + seq!['}']
}

/// Relies on `String::from_iter` over `core::iter::Iterator::cloned`: the
/// string made of exactly the given characters.
#[verifier::external_body]
pub(crate) fn chars_to_string(v: &Vec<char>) -> (r: String)
    ensures
        r@ == v@,
{
    v.iter().cloned().collect()
}

/// Appends the escape of one character.
fn push_escaped(out: &mut Vec<char>, c: char)
    ensures
        final(out)@ == old(out)@ + esc_char(c),
{
    if c == '"' {
        out.push('\\');
        out.push('"');
    } else if c == '\\' {
        out.push('\\');
        out.push('\\');
    } else {
        let v = c as u32;
        if v < 32 {
            out.push('\\');
            out.push('u');
            out.push('0');
            out.push('0');
            out.push(hex_char((v / 16) as u8));
            out.push(hex_char((v % 16) as u8));
        } else {
            out.push(c);
        }
    }
    proof {
        assert(out@ =~= old(out)@ + esc_char(c));
    }
}

/// Appends the escape of a whole string.
fn push_escaped_str(out: &mut Vec<char>, s: &str)
    ensures
        final(out)@ == old(out)@ + esc(s@),
{
    let n = s.unicode_len();
    let mut i: usize = 0;
    proof {
        assert(out@ =~= old(out)@ + esc(s@.take(0)));
    }
    while i < n
        invariant
            0 <= i <= n,
            n == s@.len(),
            out@ == old(out)@ + esc(s@.take(i as int)),
        decreases n - i,
    {
        let c = s.get_char(i);
        push_escaped(out, c);
        proof {
            assert(s@.take(i + 1) =~= s@.take(i as int).push(s@[i as int]));
            lemma_esc_snoc(s@.take(i as int), s@[i as int]);
        }
        i += 1;
    }
    proof {
        assert(s@.take(n as int) =~= s@);
    }
}

/// Writes the persisted form of a payload and long-term flag.
#[verifier::rlimit(50)]
#[verifier::spinoff_prover]
pub fn encode_record(data: &StrMap, longterm: bool) -> (r: String)
    requires
        data.wf(),
    ensures
        r@ == enc_record(data.entry_seq(), longterm),
{
    let ghost es = data.entry_seq();
    let mut out: Vec<char> = Vec::new();
    out.push('{');
    out.push('"');
    out.push('d');
    out.push('a');
    out.push('t');
    out.push('a');
    out.push('"');
    out.push(':');
    out.push('{');
    proof {
        assert(out@ =~= rec_prefix() + enc_entries(es.take(0)));
    }
    let n = data.len();
    let mut i: usize = 0;
    while i < n
        invariant
            0 <= i <= n,
            n == es.len(),
            data.wf(),
            es == data.entry_seq(),
            out@ == rec_prefix() + enc_entries(es.take(i as int)),
        decreases n - i,
    {
        if i > 0 {
            out.push(',');
        }
        let (k, v) = data.entry_at(i);
        out.push('"');
        push_escaped_str(&mut out, k.as_str());
        out.push('"');
        out.push(':');
        out.push('"');
        push_escaped_str(&mut out, v.as_str());
        out.push('"');
        proof {
            assert(es.take(i + 1) =~= es.take(i as int).push(es[i as int]));
            if i > 0 {
                lemma_enc_entries_snoc(es.take(i as int), es[i as int]);
            } else {
                assert(es.take(1).len() == 1);
            }
            assert(out@ =~= rec_prefix() + enc_entries(es.take(i + 1)));
        }
        i += 1;
    }
    proof {
        assert(es.take(n as int) =~= es);
    }
    out.push('}');
    out.push(',');
    out.push('"');
    out.push('l');
    out.push('o');
    out.push('n');
    out.push('g');
    out.push('t');
    out.push('e');
    out.push('r');
    out.push('m');
    out.push('"');
    out.push(':');
    if longterm {
        out.push('t');
        out.push('r');
        out.push('u');
        out.push('e');
    } else {
        out.push('f');
        out.push('a');
        out.push('l');
        out.push('s');
        out.push('e');
    }
    out.push('}');
    proof {
        assert(out@ =~= enc_record(es, longterm));
    }
    chars_to_string(&out)
}

} // verus!

verus! {

/// The numeric value of a hex digit, or minus one.
pub open spec fn hex_val(c: char) -> int {
    if c == '0' {
        0
    } else if c == '1' {
        1
    } else if c == '2' {
        2
    } else if c == '3' {
        3
    } else if c == '4' {
        4
    } else if c == '5' {
        5
    } else if c == '6' {
        6
    } else if c == '7' {
        7
    } else if c == '8' {
        8
    } else if c == '9' {
        9
    } else if c == 'a' || c == 'A' {
        10
    } else if c == 'b' || c == 'B' {
        11
    } else if c == 'c' || c == 'C' {
        12
    } else if c == 'd' || c == 'D' {
        13
    } else if c == 'e' || c == 'E' {
        14
    } else if c == 'f' || c == 'F' {
        15
    } else {
        -1
    }
}

fn hex_digit_val(c: char) -> (r: Option<u8>)
    ensures
        match r {
            Some(d) => hex_val(c) == d as int,
            None => hex_val(c) == -1,
        },
{
    match c {
        '0' => Some(0),
        '1' => Some(1),
        '2' => Some(2),
        '3' => Some(3),
        '4' => Some(4),
        '5' => Some(5),
        '6' => Some(6),
        '7' => Some(7),
        '8' => Some(8),
        '9' => Some(9),
        'a' | 'A' => Some(10),
        'b' | 'B' => Some(11),
        'c' | 'C' => Some(12),
        'd' | 'D' => Some(13),
        'e' | 'E' => Some(14),
        'f' | 'F' => Some(15),
        _ => None,
    }
}

/// The character named by a one-letter escape, if the letter is one.
pub open spec fn short_escape(e: char) -> Option<char> {
    if e == '"' {
        Some('"')
    } else if e == '\\' {
        Some('\\')
    } else if e == '/' {
        Some('/')
    } else if e == 'b' {
        Some('\u{0008}')
    } else if e == 'f' {
        Some('\u{000c}')
    } else if e == 'n' {
        Some('\n')
    } else if e == 'r' {
        Some('\r')
    } else if e == 't' {
        Some('\t')
    } else {
        None
    }
}

fn short_escape_char(e: char) -> (r: Option<char>)
    ensures
        r == short_escape(e),
{
    match e {
        '"' => Some('"'),
        '\\' => Some('\\'),
        '/' => Some('/'),
        'b' => Some('\u{0008}'),
        'f' => Some('\u{000c}'),
        'n' => Some('\n'),
        'r' => Some('\r'),
        't' => Some('\t'),
        _ => None,
    }
}

/// Reads string content from position `i` (just after an opening quote) up
/// to its closing quote; yields the unescaped content and the position after
/// the quote.
pub open spec fn dec_str(s: Seq<char>, i: int) -> Option<(Seq<char>, int)>
    decreases s.len() - i,
{
    if 0 <= i < s.len() {
        let c = s[i];
        if c == '"' {
            Some((Seq::empty(), i + 1))
        } else if c == '\\' {
            if i + 1 < s.len() {
                let e = s[i + 1];
                match short_escape(e) {
                    Some(d) => match dec_str(s, i + 2) {
                        Some((t, j)) => Some((seq![d] + t, j)),
                        None => None,
                    },
                    None => if e == 'u' && i + 6 <= s.len() {
                        let h1 = hex_val(s[i + 2]);
                        let h2 = hex_val(s[i + 3]);
                        let h3 = hex_val(s[i + 4]);
                        let h4 = hex_val(s[i + 5]);
                        if h1 == 0 && h2 == 0 && 0 <= h3 < 8 && 0 <= h4 {
                            match dec_str(s, i + 6) {
                                Some((t, j)) => Some(
                                    (seq![(((16 * h3 + h4) as u8) as char)] + t, j),
                                ),
                                None => None,
                            }
                        } else {
                            None
                        }
                    } else {
                        None
                    },
                }
            } else {
                None
            }
        } else {
            match dec_str(s, i + 1) {
                Some((t, j)) => Some((seq![c] + t, j)),
                None => None,
            }
        }
    } else {
        None
    }
}

/// A successful string read always advances and stays in bounds.
pub proof fn lemma_dec_str_bounds(s: Seq<char>, i: int)
    requires
        dec_str(s, i).is_some(),
    ensures
        i < dec_str(s, i).unwrap().1 <= s.len(),
    decreases s.len() - i,
{
    let c = s[i];
    if c == '"' {
    } else if c == '\\' {
        match short_escape(s[i + 1]) {
            Some(d) => lemma_dec_str_bounds(s, i + 2),
            None => lemma_dec_str_bounds(s, i + 6),
        }
    } else {
        lemma_dec_str_bounds(s, i + 1);
    }
}

} // verus!

verus! {

/// Collects the characters of a string slice.
fn str_chars(s: &str) -> (r: Vec<char>)
    ensures
        r@ == s@,
{
    let n = s.unicode_len();
    let mut r: Vec<char> = Vec::new();
    let mut i: usize = 0;
    while i < n
        invariant
            0 <= i <= n,
            n == s@.len(),
            r@ == s@.take(i as int),
        decreases n - i,
    {
        r.push(s.get_char(i));
        proof {
            assert(s@.take(i + 1) =~= s@.take(i as int).push(s@[i as int]));
        }
        i += 1;
    }
    proof {
        assert(s@.take(n as int) =~= s@);
    }
    r
}

/// Reads string content from `start` (just after an opening quote), exactly
/// as [`dec_str`] describes.
fn parse_string(v: &Vec<char>, start: usize) -> (r: Option<(Vec<char>, usize)>)
    ensures
        match r {
            Some((t, j)) => {
                &&& dec_str(v@, start as int) == Some((t@, j as int))
                &&& start < j <= v@.len()
            },
            None => dec_str(v@, start as int).is_none(),
        },
{
    let n = v.len();
    if start >= n {
        return None;
    }
    let mut acc: Vec<char> = Vec::new();
    let mut cur: usize = start;
    loop
        invariant
            start <= cur <= n,
            n == v@.len(),
            dec_str(v@, start as int) == (match dec_str(v@, cur as int) {
                Some((t, j)) => Some((acc@ + t, j)),
                None => None::<(Seq<char>, int)>,
            }),
        decreases n - cur,
    {
        if cur >= n {
            return None;
        }
        let c = v[cur];
        if c == '"' {
            proof {
                assert(acc@ + Seq::<char>::empty() =~= acc@);
            }
            return Some((acc, cur + 1));
        } else if c == '\\' {
            if cur + 1 >= n {
                return None;
            }
            let e = v[cur + 1];
            match short_escape_char(e) {
                Some(d) => {
                    let ghost pre = acc@;
                    acc.push(d);
                    proof {
                        if dec_str(v@, cur + 2).is_some() {
                            let t = dec_str(v@, cur + 2).unwrap().0;
                            assert(pre + (seq![d] + t) =~= acc@ + t);
                        }
                    }
                    cur = cur + 2;
                },
                None => {
                    if e == 'u' {
                        if n - cur < 6 {
                            return None;
                        }
                        let h1 = hex_digit_val(v[cur + 2]);
                        let h2 = hex_digit_val(v[cur + 3]);
                        let h3 = hex_digit_val(v[cur + 4]);
                        let h4 = hex_digit_val(v[cur + 5]);
                        match (h1, h2, h3, h4) {
                            (Some(d1), Some(d2), Some(d3), Some(d4)) => {
                                if d1 == 0 && d2 == 0 && d3 < 8 {
                                    let b: u8 = 16 * d3 + d4;
                                    let d = b as char;
                                    let ghost pre = acc@;
                                    acc.push(d);
                                    proof {
                                        if dec_str(v@, cur + 6).is_some() {
                                            let t = dec_str(v@, cur + 6).unwrap().0;
                                            assert(pre + (seq![d] + t) =~= acc@ + t);
                                        }
                                    }
                                    cur = cur + 6;
                                } else {
                                    return None;
                                }
                            },
                            _ => {
                                return None;
                            },
                        }
                    } else {
                        return None;
                    }
                },
            }
        } else {
            let ghost pre = acc@;
            acc.push(c);
            proof {
                if dec_str(v@, cur + 1).is_some() {
                    let t = dec_str(v@, cur + 1).unwrap().0;
                    assert(pre + (seq![c] + t) =~= acc@ + t);
                }
            }
            cur = cur + 1;
        }
    }
}

} // verus!

verus! {

/// Reads a comma-separated entry list starting at `i` (which must hold the
/// opening quote of the first key); yields the pairs and the position just
/// after the last value's closing quote. `fuel` only bounds recursion and is
/// irrelevant once it covers the remaining input.
pub open spec fn dec_entries(s: Seq<char>, i: int, fuel: nat) -> Option<
    (Seq<(Seq<char>, Seq<char>)>, int),
>
    decreases fuel,
{
    if 0 <= i < s.len() && s[i] == '"' {
        match dec_str(s, i + 1) {
            Some((k, j)) => {
                if j + 1 < s.len() && s[j] == ':' && s[j + 1] == '"' {
                    match dec_str(s, j + 2) {
                        Some((v, l)) => {
                            if l < s.len() && s[l] == ',' {
                                if fuel > 0 {
                                    match dec_entries(s, l + 1, (fuel - 1) as nat) {
                                        Some((rest, m)) => Some((seq![(k, v)] + rest, m)),
                                        None => None,
                                    }
                                } else {
                                    None
                                }
                            } else {
                                Some((seq![(k, v)], l))
                            }
                        },
                        None => None,
                    }
                } else {
                    None
                }
            },
            None => None,
        }
    } else {
        None
    }
}

/// Once the fuel covers the remaining input, its exact value is irrelevant.
proof fn lemma_dec_entries_fuel(s: Seq<char>, i: int, f1: nat, f2: nat)
    requires
        0 <= i,
        f1 + i >= s.len(),
        f2 + i >= s.len(),
    ensures
        dec_entries(s, i, f1) == dec_entries(s, i, f2),
    decreases f1,
{
    if 0 <= i < s.len() && s[i] == '"' {
        match dec_str(s, i + 1) {
            Some((k, j)) => {
                lemma_dec_str_bounds(s, i + 1);
                if j + 1 < s.len() && s[j] == ':' && s[j + 1] == '"' {
                    match dec_str(s, j + 2) {
                        Some((v, l)) => {
                            lemma_dec_str_bounds(s, j + 2);
                            if l < s.len() && s[l] == ',' {
                                lemma_dec_entries_fuel(
                                    s,
                                    l + 1,
                                    (f1 - 1) as nat,
                                    (f2 - 1) as nat,
                                );
                            }
                        },
                        None => {},
                    }
                }
            },
            None => {},
        }
    }
}

/// The entry list read with fuel that always suffices.
pub open spec fn dec_entries_from(s: Seq<char>, i: int) -> Option<
    (Seq<(Seq<char>, Seq<char>)>, int),
> {
    dec_entries(s, i, s.len() as nat)
}

/// A successful entry read always advances and stays in bounds.
proof fn lemma_dec_entries_bounds(s: Seq<char>, i: int, fuel: nat)
    requires
        0 <= i,
        dec_entries(s, i, fuel).is_some(),
    ensures
        i < dec_entries(s, i, fuel).unwrap().1 <= s.len(),
    decreases fuel,
{
    match dec_str(s, i + 1) {
        Some((k, j)) => {
            lemma_dec_str_bounds(s, i + 1);
            match dec_str(s, j + 2) {
                Some((v, l)) => {
                    lemma_dec_str_bounds(s, j + 2);
                    if l < s.len() && s[l] == ',' {
                        lemma_dec_entries_bounds(s, l + 1, (fuel - 1) as nat);
                    }
                },
                None => {},
            }
        },
        None => {},
    }
}

/// Reads the closing of the record from `i`: the payload's closing brace,
/// the long-term field, and the final brace, exactly to the end.
pub open spec fn dec_tail(s: Seq<char>, i: int) -> Option<bool> {
    if i + 13 <= s.len() && s.subrange(i, i + 13) == rec_mid() {
        let j = i + 13;
        if j + 5 == s.len() && s.subrange(j, j + 4) == bool_text(true) && s[j + 4] == '}' {
            Some(true)
        } else if j + 6 == s.len() && s.subrange(j, j + 5) == bool_text(false) && s[j + 5]
            == '}' {
            Some(false)
        } else {
            None
        }
    } else {
        None
    }
}

/// Reads a whole persisted record: the entry pairs, in order, and the
/// long-term flag. Nothing may follow the final brace.
pub open spec fn dec_record(s: Seq<char>) -> Option<(Seq<(Seq<char>, Seq<char>)>, bool)> {
    if s.len() >= 10 && s.subrange(0, 9) == rec_prefix() {
        if s[9] == '}' {
            match dec_tail(s, 9) {
                Some(b) => Some((Seq::empty(), b)),
                None => None,
            }
        } else {
            match dec_entries_from(s, 9) {
                Some((es, l)) => match dec_tail(s, l) {
                    Some(b) => Some((es, b)),
                    None => None,
                },
                None => None,
            }
        }
    } else {
        None
    }
}

/// Whether the characters of `pat` stand in `v` at `pos`.
fn match_seq(v: &Vec<char>, pos: usize, pat: &Vec<char>) -> (r: bool)
    ensures
        r == (pos + pat@.len() <= v@.len() && v@.subrange(
            pos as int,
            pos as int + pat@.len() as int,
        ) == pat@),
{
    let m = pat.len();
    let n = v.len();
    if pos > n || n - pos < m {
        return false;
    }
    let mut q: usize = 0;
    while q < m
        invariant
            0 <= q <= m,
            m == pat@.len(),
            n == v@.len(),
            pos + m <= n,
            forall|t: int| 0 <= t < q ==> v@[pos + t] == pat@[t],
        decreases m - q,
    {
        if v[pos + q] != pat[q] {
            proof {
                assert(v@.subrange(pos as int, pos as int + m as int)[q as int] != pat@[q as int]);
            }
            return false;
        }
        q += 1;
    }
    proof {
        assert(v@.subrange(pos as int, pos as int + m as int) =~= pat@);
    }
    true
}

} // verus!

verus! {

/// Reads the entry list starting at `start`, exactly as [`dec_entries_from`]
/// describes, building the payload map as it goes (later duplicates win).
fn parse_entries(v: &Vec<char>, start: usize) -> (r: Option<
    (StrMap, Ghost<Seq<(Seq<char>, Seq<char>)>>, usize),
>)
    ensures
        match r {
            Some((m, es, j)) => {
                &&& dec_entries_from(v@, start as int) == Some((es@, j as int))
                &&& m.wf()
                &&& m@ == crate::strmap::pairs_map(es@)
                &&& start < j <= v@.len()
            },
            None => dec_entries_from(v@, start as int).is_none(),
        },
{
    let n = v.len();
    if start >= n {
        return None;
    }
    let mut m = StrMap::new();
    let ghost mut acc: Seq<(Seq<char>, Seq<char>)> = Seq::empty();
    let mut cur: usize = start;
    proof {
        if dec_entries_from(v@, start as int).is_some() {
            let (rest, p) = dec_entries_from(v@, start as int).unwrap();
            assert(Seq::<(Seq<char>, Seq<char>)>::empty() + rest =~= rest);
        }
    }
    loop
        invariant
            start <= cur <= n,
            n == v@.len(),
            m.wf(),
            m@ == crate::strmap::pairs_map(acc),
            dec_entries_from(v@, start as int) == (match dec_entries_from(v@, cur as int) {
                Some((rest, p)) => Some((acc + rest, p)),
                None => None::<(Seq<(Seq<char>, Seq<char>)>, int)>,
            }),
        decreases n - cur,
    {
        if cur >= n || v[cur] != '"' {
            return None;
        }
        let (k, j) = match parse_string(v, cur + 1) {
            Some(x) => x,
            None => {
                return None;
            },
        };
        if j >= n || j + 1 >= n || v[j] != ':' || v[j + 1] != '"' {
            return None;
        }
        let (val, l) = match parse_string(v, j + 2) {
            Some(x) => x,
            None => {
                return None;
            },
        };
        let ghost entry = (k@, val@);
        m.insert(chars_to_string(&k), chars_to_string(&val));
        proof {
            assert(acc.push(entry).drop_last() =~= acc);
            acc = acc.push(entry);
        }
        if l < n && v[l] == ',' {
            proof {
                lemma_dec_entries_fuel(v@, l + 1, (v@.len() - 1) as nat, v@.len() as nat);
                if dec_entries_from(v@, l + 1).is_some() {
                    let (rest, p) = dec_entries_from(v@, l + 1).unwrap();
                    assert(acc.drop_last() + (seq![entry] + rest) =~= acc + rest);
                }
            }
            cur = l + 1;
        } else {
            proof {
                assert(dec_entries_from(v@, cur as int) == Some((seq![entry], l as int)));
                assert(acc.drop_last() + seq![entry] =~= acc);
            }
            return Some((m, Ghost(acc), l));
        }
    }
}

/// Reads a persisted record back: the payload map (later duplicate keys win)
/// and the long-term flag. `None` exactly when the text does not carry the
/// persisted record shape.
pub fn decode_record(s: &str) -> (r: Option<(StrMap, bool)>)
    ensures
        match r {
            Some((m, lt)) => {
                &&& dec_record(s@).is_some()
                &&& m.wf()
                &&& m@ == crate::strmap::pairs_map(dec_record(s@).unwrap().0)
                &&& lt == dec_record(s@).unwrap().1
            },
            None => dec_record(s@).is_none(),
        },
{
    let v = str_chars(s);
    let n = v.len();
    let prefix = vec!['{', '"', 'd', 'a', 't', 'a', '"', ':', '{'];
    proof {
        assert(prefix@ =~= rec_prefix());
    }
    if n < 10 || !match_seq(&v, 0, &prefix) {
        return None;
    }
    let (m, ghost_es, pos): (StrMap, Ghost<Seq<(Seq<char>, Seq<char>)>>, usize) = if v[9] == '}' {
        (StrMap::new(), Ghost(Seq::empty()), 9)
    } else {
        match parse_entries(&v, 9) {
            Some(x) => x,
            None => {
                return None;
            },
        }
    };
    let mid = vec!['}', ',', '"', 'l', 'o', 'n', 'g', 't', 'e', 'r', 'm', '"', ':'];
    proof {
        assert(mid@ =~= rec_mid());
    }
    if !match_seq(&v, pos, &mid) {
        return None;
    }
    let j = pos + 13;
    let word_true = vec!['t', 'r', 'u', 'e'];
    let word_false = vec!['f', 'a', 'l', 's', 'e'];
    proof {
        assert(word_true@ =~= bool_text(true));
        assert(word_false@ =~= bool_text(false));
    }
    if j <= n && n - j == 5 && match_seq(&v, j, &word_true) && v[j + 4] == '}' {
        proof {
            assert(dec_record(s@) == Some((ghost_es@, true)));
        }
        Some((m, true))
    } else if j <= n && n - j == 6 && match_seq(&v, j, &word_false) && v[j + 5] == '}' {
        proof {
            assert(dec_record(s@) == Some((ghost_es@, false)));
        }
        Some((m, false))
    } else {
        proof {
            assert(dec_tail(s@, pos as int).is_none());
        }
        None
    }
}

} // verus!

verus! {

proof fn lemma_hex_roundtrip(d: int)
    requires
        0 <= d < 16,
    ensures
        hex_val(hex_char_spec(d)) == d,
{
}

proof fn lemma_control_char_cast(c: char)
    requires
        (c as u32) < 32,
    ensures
        (((16 * ((c as u32 as int) / 16) + ((c as u32 as int) % 16)) as u8) as char) == c,
{
    let cu = c as u32 as int;
    assert(16 * (cu / 16) + cu % 16 == cu) by {
        vstd::arithmetic::div_mod::lemma_fundamental_div_mod(cu, 16);
    }
    assert((cu as u8) as char == c);
}

} // verus!

verus! {

/// Reading escaped content back yields the original: a string written as
/// `esc(k)` followed by its closing quote parses to `k`, wherever it stands.
proof fn lemma_dec_str_esc(prefix: Seq<char>, k: Seq<char>, tail: Seq<char>)
    ensures
        dec_str(prefix + esc(k) + seq!['"'] + tail, prefix.len() as int) == Some(
            (k, prefix.len() as int + esc(k).len() as int + 1),
        ),
    decreases k.len(),
{
    let s = prefix + esc(k) + seq!['"'] + tail;
    let i = prefix.len() as int;
    if k.len() == 0 {
        assert(esc(k) == Seq::<char>::empty());
        assert(s[i] == '"');
        assert(dec_str(s, i) == Some((Seq::<char>::empty(), i + 1)));
        assert(k =~= Seq::<char>::empty());
    } else {
        let c = k[0];
        let k2 = k.skip(1);
        assert(esc(k) == esc_char(c) + esc(k2));
        let prefix2 = prefix + esc_char(c);
        lemma_dec_str_esc(prefix2, k2, tail);
        assert(prefix2 + esc(k2) + seq!['"'] + tail =~= s);
        let j = prefix2.len() as int + esc(k2).len() as int + 1;
        assert(dec_str(s, prefix2.len() as int) == Some((k2, j)));
        assert(j == i + esc(k).len() as int + 1);
        if c == '"' {
            assert(s[i] == '\\');
            assert(s[i + 1] == '"');
            assert(short_escape(s[i + 1]) == Some('"'));
            assert(prefix2.len() == i + 2);
            assert(dec_str(s, i) == Some((seq!['"'] + k2, j)));
            assert(seq!['"'] + k2 =~= k);
        } else if c == '\\' {
            assert(s[i] == '\\');
            assert(s[i + 1] == '\\');
            assert(short_escape(s[i + 1]) == Some('\\'));
            assert(prefix2.len() == i + 2);
            assert(dec_str(s, i) == Some((seq!['\\'] + k2, j)));
            assert(seq!['\\'] + k2 =~= k);
        } else if (c as u32) < 32 {
            let cu = c as u32 as int;
            assert(s[i] == '\\');
            assert(s[i + 1] == 'u');
            assert(s[i + 2] == '0');
            assert(s[i + 3] == '0');
            assert(s[i + 4] == hex_char_spec(cu / 16));
            assert(s[i + 5] == hex_char_spec(cu % 16));
            assert(short_escape('u') is None);
            assert(prefix2.len() == i + 6);
            assert(i + 6 <= s.len());
            assert(hex_val(s[i + 2]) == 0);
            assert(hex_val(s[i + 3]) == 0);
            assert(0 <= cu / 16 < 2) by {
                vstd::arithmetic::div_mod::lemma_fundamental_div_mod(cu, 16);
            }
            assert(0 <= cu % 16 < 16);
            lemma_hex_roundtrip(cu / 16);
            lemma_hex_roundtrip(cu % 16);
            lemma_control_char_cast(c);
            assert(dec_str(s, i) == Some((seq![c] + k2, j)));
            assert(seq![c] + k2 =~= k);
        } else {
            assert(s[i] == c);
            assert(c != '"' && c != '\\');
            assert(prefix2.len() == i + 1);
            assert(dec_str(s, i) == Some((seq![c] + k2, j)));
            assert(seq![c] + k2 =~= k);
        }
    }
}

} // verus!

verus! {

proof fn lemma_enc_entries_len(es: Seq<(Seq<char>, Seq<char>)>)
    ensures
        enc_entries(es).len() >= es.len(),
    decreases es.len(),
{
    if es.len() > 1 {
        lemma_enc_entries_len(es.skip(1));
    }
}

/// Within any surroundings, one written entry parses step by step: the key,
/// the separator, the value.
#[verifier::rlimit(100)]
#[verifier::spinoff_prover]
proof fn lemma_dec_one_entry(prefix: Seq<char>, k: Seq<char>, v: Seq<char>, tail: Seq<char>)
    ensures
        ({
            let s = prefix + enc_entry(k, v) + tail;
            let i = prefix.len() as int;
            let j = i + 2 + esc(k).len() as int;
            let l = i + enc_entry(k, v).len() as int;
            &&& s[i] == '"'
            &&& dec_str(s, i + 1) == Some((k, j))
            &&& s[j] == ':'
            &&& s[j + 1] == '"'
            &&& dec_str(s, j + 2) == Some((v, l))
        }),
{
    let s = prefix + enc_entry(k, v) + tail;
    let i = prefix.len() as int;
    let j = i + 2 + esc(k).len() as int;
    let l = i + enc_entry(k, v).len() as int;
    assert(s[i] == '"');
    let p1 = prefix + seq!['"'];
    let tail1 = seq![':', '"'] + esc(v) + seq!['"'] + tail;
    lemma_dec_str_esc(p1, k, tail1);
    assert(p1 + esc(k) + seq!['"'] + tail1 =~= s);
    assert(dec_str(s, i + 1) == Some((k, j)));
    assert(s[j] == ':');
    assert(s[j + 1] == '"');
    let p2 = prefix + seq!['"'] + esc(k) + seq!['"', ':', '"'];
    lemma_dec_str_esc(p2, v, tail);
    assert(p2 + esc(v) + seq!['"'] + tail =~= s);
    assert(dec_str(s, j + 2) == Some((v, l)));
}

/// Reading a written entry list back yields the original pairs, provided
/// what follows does not begin with a separator.
#[verifier::rlimit(100)]
#[verifier::spinoff_prover]
proof fn lemma_dec_entries_enc(
    prefix: Seq<char>,
    es: Seq<(Seq<char>, Seq<char>)>,
    tail: Seq<char>,
    fuel: nat,
)
    requires
        es.len() >= 1,
        tail.len() >= 1,
        tail[0] != ',',
        fuel >= es.len(),
    ensures
        dec_entries(prefix + enc_entries(es) + tail, prefix.len() as int, fuel) == Some(
            (es, prefix.len() as int + enc_entries(es).len() as int),
        ),
    decreases es.len(),
{
    let s = prefix + enc_entries(es) + tail;
    let i = prefix.len() as int;
    let k = es[0].0;
    let v = es[0].1;
    if es.len() == 1 {
        assert(enc_entries(es) == enc_entry(k, v));
        lemma_dec_one_entry(prefix, k, v, tail);
        let l = i + enc_entry(k, v).len() as int;
        assert(l < s.len());
        assert(s[l] == tail[0]);
        assert(dec_entries(s, i, fuel) == Some((seq![(k, v)], l)));
        assert(seq![(k, v)] =~= es);
    } else {
        assert(enc_entries(es) == enc_entry(k, v) + seq![','] + enc_entries(es.skip(1)));
        let tail2 = seq![','] + enc_entries(es.skip(1)) + tail;
        lemma_dec_one_entry(prefix, k, v, tail2);
        assert(prefix + enc_entry(k, v) + tail2 =~= s);
        let l = i + enc_entry(k, v).len() as int;
        assert(l < s.len());
        assert(s[l] == ',');
        let p3 = prefix + enc_entry(k, v) + seq![','];
        lemma_dec_entries_enc(p3, es.skip(1), tail, (fuel - 1) as nat);
        assert(p3 + enc_entries(es.skip(1)) + tail =~= s);
        assert(p3.len() == l + 1);
        let m = p3.len() as int + enc_entries(es.skip(1)).len() as int;
        assert(dec_entries(s, l + 1, (fuel - 1) as nat) == Some((es.skip(1), m)));
        assert(dec_entries(s, i, fuel) == Some((seq![(k, v)] + es.skip(1), m)));
        assert(seq![(k, v)] + es.skip(1) =~= es);
        assert(m == i + enc_entries(es).len());
    }
}

/// Decoding inverts encoding: a written record reads back as exactly the
/// entry pairs and the long-term flag it was written from.
pub proof fn lemma_record_round_trip(es: Seq<(Seq<char>, Seq<char>)>, longterm: bool)
    ensures
        dec_record(enc_record(es, longterm)) == Some((es, longterm)),
{
    let s = enc_record(es, longterm);
    assert(s.subrange(0, 9) =~= rec_prefix());
    if es.len() == 0 {
        assert(enc_entries(es) == Seq::<char>::empty());
        assert(s =~= rec_prefix() + rec_mid() + bool_text(longterm) + seq!['}']);
        assert(s[9] == '}');
        assert(s.subrange(9, 22) =~= rec_mid());
        if longterm {
            assert(s.len() == 27);
            assert(s.subrange(22, 26) =~= bool_text(true));
            assert(s[26] == '}');
        } else {
            assert(s.len() == 28);
            assert(s.subrange(22, 27) =~= bool_text(false));
            assert(s[27] == '}');
        }
        assert(dec_tail(s, 9) == Some(longterm));
        assert(dec_record(s) == Some((Seq::<(Seq<char>, Seq<char>)>::empty(), longterm)));
        assert(es =~= Seq::<(Seq<char>, Seq<char>)>::empty());
    } else {
        let tail = rec_mid() + bool_text(longterm) + seq!['}'];
        assert(tail[0] == '}');
        assert(rec_prefix() + enc_entries(es) + tail =~= s);
        lemma_enc_entries_len(es);
        assert(s.len() >= es.len());
        lemma_dec_entries_enc(rec_prefix(), es, tail, s.len() as nat);
        let l = 9 + enc_entries(es).len() as int;
        assert(dec_entries_from(s, 9) == Some((es, l)));
        assert(enc_entries(es) == (if es.len() == 1 {
            enc_entry(es[0].0, es[0].1)
        } else {
            enc_entry(es[0].0, es[0].1) + seq![','] + enc_entries(es.skip(1))
        }));
        assert(enc_entry(es[0].0, es[0].1)[0] == '"');
        assert(s[9] == '"');
        assert(s.subrange(l, l + 13) =~= rec_mid());
        let j = l + 13;
        if longterm {
            assert(s.len() == j + 5);
            assert(s.subrange(j, j + 4) =~= bool_text(true));
            assert(s[j + 4] == '}');
        } else {
            assert(s.len() == j + 6);
            assert(s.subrange(j, j + 5) =~= bool_text(false));
            assert(s[j + 5] == '}');
        }
        assert(dec_tail(s, l) == Some(longterm));
        assert(dec_record(s) == Some((es, longterm)));
    }
}

} // verus!

verus! {

/// Whether a text parses as one JSON document.
pub uninterp spec fn json_valid(s: Seq<char>) -> bool;

/// Relies on `serde_json::from_str` for `serde_json::Value`: whether the
/// text parses as a single JSON document. The verdict depends on the text
/// alone.
#[verifier::external_body]
pub(crate) fn is_valid_json(s: &str) -> (r: bool)
    ensures
        r == json_valid(s@),
{
    serde_json::from_str::<serde_json::Value>(s).is_ok()
}

} // verus!

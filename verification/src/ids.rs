//! Session identifiers and the namespaced key convention used by storage
//! backends.

use vstd::prelude::*;

verus! {

/// An opaque 128-bit session token. It is the identity key for a session's
/// in-memory record and for its persisted copy.
#[derive(Clone, Copy, PartialEq, Eq, Structural, Debug)]
pub struct SessionID(pub u128);

/// The full storage key for a session id under a namespace: `"{table}:{id}"`
/// when the namespace is non-empty, else the raw id.
pub open spec fn key_text(id: Seq<char>, table: Seq<char>) -> Seq<char> {
    if table.len() == 0 {
        id
    } else {
        table + seq![':'] + id
    }
}

/// Builds the namespaced storage key for `id` under `table`.
pub fn key(id: &str, table: &str) -> (r: String)
    ensures
        r@ == key_text(id@, table@),
{
    if table.is_empty() {
        String::from_str(id)
    } else {
        proof {
            reveal_strlit(":");
        }
        let mut r = String::from_str(table);
        r.append(":");
        r.append(id);
        proof {
            assert(r@ =~= key_text(id@, table@));
        }
        r
    }
}

} // verus!

verus! {

/// The low `n` hex digits of a value, most significant first.
pub open spec fn hex_u128(v: int, n: nat) -> Seq<char>
    decreases n,
{
    if n == 0 {
        Seq::empty()
    } else {
        hex_u128(v / 16, (n - 1) as nat) + seq![crate::codec::hex_char_spec(v % 16)]
    }
}

/// The canonical text of a session identifier: thirty-two lowercase hex
/// digits in the usual five hyphen-separated groups.
pub open spec fn id_chars(v: u128) -> Seq<char> {
    hex_u128(v as int, 32).insert(8, '-').insert(13, '-').insert(18, '-').insert(23, '-')
}

fn hex_digit_char(d: u8) -> (r: char)
    requires
        d < 16,
    ensures
        r == crate::codec::hex_char_spec(d as int),
{
    match d {
        0 => '0',
        1 => '1',
        2 => '2',
        3 => '3',
        4 => '4',
        5 => '5',
        6 => '6',
        7 => '7',
        8 => '8',
        9 => '9',
        10 => 'a',
        11 => 'b',
        12 => 'c',
        13 => 'd',
        14 => 'e',
        _ => 'f',
    }
}

/// Writes an identifier in its canonical text form.
pub fn id_text(v: u128) -> (r: String)
    ensures
        r@ == id_chars(v),
{
    let mut out: Vec<char> = Vec::new();
    let mut rest: u128 = v;
    let mut k: usize = 0;
    proof {
        assert(hex_u128(v as int, 32) =~= hex_u128(rest as int, (32 - k) as nat) + out@);
    }
    while k < 32
        invariant
            0 <= k <= 32,
            out@.len() == k,
            hex_u128(v as int, 32) == hex_u128(rest as int, (32 - k) as nat) + out@,
        decreases 32 - k,
    {
        let d: u8 = (rest % 16) as u8;
        let c = hex_digit_char(d);
        let ghost pre = out@;
        out.insert(0, c);
        proof {
            assert(hex_u128(rest as int, (32 - k) as nat) == hex_u128(
                rest as int / 16,
                (32 - k - 1) as nat,
            ) + seq![crate::codec::hex_char_spec(rest as int % 16)]);
            assert(out@ =~= seq![crate::codec::hex_char_spec(rest as int % 16)] + pre);
            assert(hex_u128(rest as int / 16, (32 - k - 1) as nat) + (seq![
                crate::codec::hex_char_spec(rest as int % 16),
            ] + pre) =~= (hex_u128(rest as int / 16, (32 - k - 1) as nat) + seq![
                crate::codec::hex_char_spec(rest as int % 16),
            ]) + pre);
        }
        rest = rest / 16;
        k += 1;
    }
    proof {
        assert(hex_u128(v as int, 32) =~= out@);
    }
    out.insert(8, '-');
    out.insert(13, '-');
    out.insert(18, '-');
    out.insert(23, '-');
    crate::codec::chars_to_string(&out)
}

/// Relies on `uuid::Uuid::new_v4` and `uuid::Uuid::as_u128`: a random
/// 128-bit identifier. Nothing is promised of the value; callers check it
/// against the live state themselves. Panics only if the operating
/// system's random source fails, which no input can cause.
#[verifier::external_body]
pub fn random_u128() -> u128 {
    uuid::Uuid::new_v4().as_u128()
}

/// Relies on `chrono::Utc::now` and `chrono::DateTime::timestamp`: the
/// current time in whole seconds of Unix time. Nothing is promised of the
/// value; all reasoning takes the instant as an argument. Panics only if
/// the system clock reads before the epoch, which no input can cause.
#[verifier::external_body]
pub fn current_timestamp() -> i64 {
    chrono::Utc::now().timestamp()
}

} // verus!

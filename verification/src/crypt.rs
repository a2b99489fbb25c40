//! The optional encryption boundary. With a key configured, a record's
//! encoded text is sealed with authenticated encryption bound to the
//! session's own identifier (so a ciphertext cannot be replayed under
//! another session); without one, the boundary is the identity function.
//! Opening fails closed: a ciphertext that does not authenticate yields
//! nothing.
//!
//! The key is carried as its raw bytes (the 32-byte encryption half of a
//! cookie key; the shell converts). What opening returns is a function of
//! the key, the identifier and the sealed bytes alone; it is given a name,
//! [`sealed_opens`], and sealing promises that its output opens back to the
//! plaintext under the same key and identifier — that holds whatever nonce
//! was drawn. [`lemma_sealed_round_trip`] states that a sealed text opens
//! to at most one plaintext, which lets the store's write and load
//! contracts compose.

use vstd::prelude::*;

use crate::codec::{chars_to_string, hex_char_spec};

verus! {

/// What authenticated opening yields for a key, an identifier and sealed
/// bytes: the plaintext they decrypt and authenticate to, or nothing. A
/// function of its arguments alone.
pub uninterp spec fn sealed_opens(key: Seq<u8>, aad: Seq<char>, sealed: Seq<u8>) -> Option<
    Seq<char>,
>;

/// Whether a sealed hex text opens to the plaintext `p` under a key and
/// identifier: some byte string writes as that hex and opens to `p`.
pub open spec fn opens_to(key: Seq<u8>, aad: Seq<char>, sealed_hex: Seq<char>, p: Seq<char>) -> bool {
    exists|b: Seq<u8>| hex_of_bytes(b) == sealed_hex && sealed_opens(key, aad, b) == Some(p)
}

/// Relies on `aes_gcm::Aes256Gcm` (through `aead::Aead::encrypt` with a
/// freshly generated nonce, keyed by the given bytes): the nonce followed
/// by the ciphertext of the text, authenticated together with the
/// identifier. The nonce is random, so the bytes themselves carry no
/// promise; what is promised — and holds of every nonce outcome, since
/// `aead::Aead::decrypt` inverts `encrypt` under the same key, nonce and
/// associated data — is that the result opens back to the plaintext.
#[verifier::external_body]
fn aead_seal(key: &[u8], aad: &str, plain: &str) -> (r: Option<Vec<u8>>)
    ensures
        r matches Some(ct) ==> sealed_opens(key@, aad@, ct@) == Some(plain@),
{
    let cipher: aes_gcm::Aes256Gcm = aes_gcm::aead::KeyInit::new_from_slice(key).ok()?;
    let nonce = <aes_gcm::aead::Nonce<aes_gcm::Aes256Gcm> as aes_gcm::aead::Generate>::try_generate().ok()?;
    let payload = aes_gcm::aead::Payload { msg: plain.as_bytes(), aad: aad.as_bytes() };
    let ct = aes_gcm::aead::Aead::encrypt(&cipher, &nonce, payload).ok()?;
    let mut out = nonce.to_vec();
    out.extend_from_slice(&ct);
    Some(out)
}

/// Relies on `aes_gcm::Aes256Gcm` (through `aead::Aead::decrypt`, keyed by
/// the given bytes, with the identifier as associated data): exactly the
/// named result — the authenticated plaintext when the bytes authenticate
/// under this key and identifier and decode as text, else nothing. The
/// call is deterministic in its arguments.
#[verifier::external_body]
fn aead_open(key: &[u8], aad: &str, sealed: &[u8]) -> (r: Option<String>)
    ensures
        match r {
            Some(s) => sealed_opens(key@, aad@, sealed@) == Some(s@),
            None => sealed_opens(key@, aad@, sealed@) is None,
        },
{
    if sealed.len() < 12 {
        return None;
    }
    let cipher: aes_gcm::Aes256Gcm = aes_gcm::aead::KeyInit::new_from_slice(key).ok()?;
    let (nonce, ct) = sealed.split_at(12);
    let nonce = aes_gcm::aead::Nonce::<aes_gcm::Aes256Gcm>::try_from(nonce).ok()?;
    let payload = aes_gcm::aead::Payload { msg: ct, aad: aad.as_bytes() };
    let pt = aes_gcm::aead::Aead::decrypt(&cipher, &nonce, payload).ok()?;
    String::from_utf8(pt).ok()
}

/// The lowercase hex text of a byte string.
pub open spec fn hex_of_bytes(b: Seq<u8>) -> Seq<char>
    decreases b.len(),
{
    if b.len() == 0 {
        Seq::empty()
    } else {
        hex_of_bytes(b.drop_last()) + seq![
            hex_char_spec(b.last() as int / 16),
            hex_char_spec(b.last() as int % 16),
        ]
    }
}

/// A character some value below sixteen writes as.
pub open spec fn is_hex_digit(c: char) -> bool {
    exists|d: int| 0 <= d < 16 && hex_char_spec(d) == c
}

/// Hex text is twice as long as its bytes and made of digit characters.
proof fn lemma_hex_shape(b: Seq<u8>)
    ensures
        hex_of_bytes(b).len() == 2 * b.len(),
        forall|i: int| 0 <= i < hex_of_bytes(b).len() ==> is_hex_digit(#[trigger] hex_of_bytes(b)[i]),
    decreases b.len(),
{
    if b.len() > 0 {
        lemma_hex_shape(b.drop_last());
        assert(0 <= b.last() as int / 16 < 16);
        assert(hex_char_spec(b.last() as int / 16) == hex_char_spec(b.last() as int / 16));
        assert(is_hex_digit(hex_of_bytes(b)[hex_of_bytes(b).len() - 2]));
        assert(is_hex_digit(hex_of_bytes(b)[hex_of_bytes(b).len() - 1]));
    }
}

proof fn lemma_hex_digit_value(d1: int, d2: int)
    requires
        0 <= d1 < 16,
        0 <= d2 < 16,
        hex_char_spec(d1) == hex_char_spec(d2),
    ensures
        d1 == d2,
{
}

/// Two byte strings with the same hex text are the same.
proof fn lemma_hex_injective(a: Seq<u8>, b: Seq<u8>)
    requires
        hex_of_bytes(a) == hex_of_bytes(b),
    ensures
        a == b,
    decreases a.len(),
{
    lemma_hex_shape(a);
    lemma_hex_shape(b);
    if a.len() == 0 {
        assert(a =~= b);
    } else {
        let ha = hex_of_bytes(a);
        let hb = hex_of_bytes(b);
        assert(ha[ha.len() - 2] == hex_char_spec(a.last() as int / 16));
        assert(ha[ha.len() - 1] == hex_char_spec(a.last() as int % 16));
        assert(hb[hb.len() - 2] == hex_char_spec(b.last() as int / 16));
        assert(hb[hb.len() - 1] == hex_char_spec(b.last() as int % 16));
        lemma_hex_digit_value(a.last() as int / 16, b.last() as int / 16);
        lemma_hex_digit_value(a.last() as int % 16, b.last() as int % 16);
        assert(a.last() == b.last());
        assert(a.len() == b.len());
        let prefix_len = hex_of_bytes(a.drop_last()).len() as int;
        assert(prefix_len == hex_of_bytes(b.drop_last()).len());
        assert forall|i: int| 0 <= i < prefix_len implies hex_of_bytes(a.drop_last())[i]
            == hex_of_bytes(b.drop_last())[i] by {
            assert(ha[i] == hex_of_bytes(a.drop_last())[i]);
            assert(hb[i] == hex_of_bytes(b.drop_last())[i]);
        }
        assert(hex_of_bytes(a.drop_last()) =~= hex_of_bytes(b.drop_last()));
        lemma_hex_injective(a.drop_last(), b.drop_last());
        assert forall|i: int| 0 <= i < a.len() implies a[i] == b[i] by {
            if i < a.len() - 1 {
                assert(a.drop_last()[i] == a[i]);
                assert(b.drop_last()[i] == b[i]);
            }
        }
        assert(a =~= b);
    }
}

/// A sealed text opens to at most one plaintext under a given key and
/// identifier: the glue between the store's write and load contracts.
pub proof fn lemma_sealed_round_trip(
    key: Seq<u8>,
    aad: Seq<char>,
    sealed_hex: Seq<char>,
    p1: Seq<char>,
    p2: Seq<char>,
)
    requires
        opens_to(key, aad, sealed_hex, p1),
        opens_to(key, aad, sealed_hex, p2),
    ensures
        p1 == p2,
{
    let b1 = choose|b: Seq<u8>|
        hex_of_bytes(b) == sealed_hex && sealed_opens(key, aad, b) == Some(p1);
    let b2 = choose|b: Seq<u8>|
        hex_of_bytes(b) == sealed_hex && sealed_opens(key, aad, b) == Some(p2);
    lemma_hex_injective(b1, b2);
}

fn hex_digit(d: u8) -> (r: char)
    requires
        d < 16,
    ensures
        r == hex_char_spec(d as int),
{
    match d {
        0 => '0',
        1 => '1',
        2 => '2',
        3 => '3',
        4 => '4',
        5 => '5',
        6 => '6',
        7 => '7',
        8 => '8',
        9 => '9',
        10 => 'a',
        11 => 'b',
        12 => 'c',
        13 => 'd',
        14 => 'e',
        _ => 'f',
    }
}

fn bytes_to_hex(v: &Vec<u8>) -> (r: String)
    ensures
        r@ == hex_of_bytes(v@),
{
    let n = v.len();
    let mut out: Vec<char> = Vec::new();
    let mut i: usize = 0;
    while i < n
        invariant
            0 <= i <= n,
            n == v@.len(),
            out@ == hex_of_bytes(v@.take(i as int)),
        decreases n - i,
    {
        let b = v[i];
        out.push(hex_digit(b / 16));
        out.push(hex_digit(b % 16));
        proof {
            assert(v@.take(i + 1).drop_last() =~= v@.take(i as int));
            assert(v@.take(i + 1).last() == v@[i as int]);
            assert(out@ =~= hex_of_bytes(v@.take(i + 1)));
        }
        i += 1;
    }
    proof {
        assert(v@.take(n as int) =~= v@);
    }
    chars_to_string(&out)
}

fn unhex_digit(c: char) -> (r: Option<u8>)
    ensures
        match r {
            Some(d) => d < 16 && hex_char_spec(d as int) == c,
            None => forall|d: int| 0 <= d < 16 ==> hex_char_spec(d) != c,
        },
{
    match c {
        '0' => Some(0),
        '1' => Some(1),
        '2' => Some(2),
        '3' => Some(3),
        '4' => Some(4),
        '5' => Some(5),
        '6' => Some(6),
        '7' => Some(7),
        '8' => Some(8),
        '9' => Some(9),
        'a' => Some(10),
        'b' => Some(11),
        'c' => Some(12),
        'd' => Some(13),
        'e' => Some(14),
        'f' => Some(15),
        _ => None,
    }
}

/// Decodes canonical lowercase hex; fails exactly on text that no byte
/// string writes as.
fn hex_to_bytes(s: &str) -> (r: Option<Vec<u8>>)
    ensures
        match r {
            Some(b) => hex_of_bytes(b@) == s@,
            None => forall|b: Seq<u8>| hex_of_bytes(b) != s@,
        },
{
    let n = s.unicode_len();
    if n % 2 != 0 {
        proof {
            assert forall|b: Seq<u8>| hex_of_bytes(b) != s@ by {
                lemma_hex_shape(b);
            }
        }
        return None;
    }
    let mut out: Vec<u8> = Vec::new();
    let mut i: usize = 0;
    while i < n
        invariant
            0 <= i <= n,
            i % 2 == 0,
            n % 2 == 0,
            n == s@.len(),
            hex_of_bytes(out@) == s@.take(i as int),
        decreases n - i,
    {
        let hi = match unhex_digit(s.get_char(i)) {
            Some(d) => d,
            None => {
                proof {
                    assert forall|b: Seq<u8>| hex_of_bytes(b) != s@ by {
                        lemma_hex_shape(b);
                        if hex_of_bytes(b) == s@ {
                            assert(is_hex_digit(s@[i as int]));
                        }
                    }
                }
                return None;
            },
        };
        let lo = match unhex_digit(s.get_char(i + 1)) {
            Some(d) => d,
            None => {
                proof {
                    assert forall|b: Seq<u8>| hex_of_bytes(b) != s@ by {
                        lemma_hex_shape(b);
                        if hex_of_bytes(b) == s@ {
                            assert(is_hex_digit(s@[i + 1]));
                        }
                    }
                }
                return None;
            },
        };
        let b: u8 = 16 * hi + lo;
        let ghost pre = out@;
        out.push(b);
        proof {
            assert(out@.drop_last() =~= pre);
            assert(out@.last() == b);
            assert(b as int / 16 == hi as int && b as int % 16 == lo as int);
            assert(hex_of_bytes(out@) == hex_of_bytes(pre) + seq![
                hex_char_spec(hi as int),
                hex_char_spec(lo as int),
            ]);
            assert(s@.take(i + 2) =~= s@.take(i as int) + seq![s@[i as int], s@[i + 1]]);
            assert(hex_of_bytes(out@) =~= s@.take(i + 2));
        }
        i += 2;
    }
    proof {
        assert(s@.take(n as int) =~= s@);
    }
    Some(out)
}

/// Seals a record's encoded text for persistence under the given
/// identifier. Without key bytes this is the identity; with them, the
/// authenticated ciphertext in hex, which opens back to the text under the
/// same key and identifier.
pub fn seal(id: &str, plain: &str, k: &Option<Vec<u8>>) -> (r: Option<String>)
    ensures
        k is None ==> (r matches Some(s) && s@ == plain@),
        k matches Some(kb) ==> (r matches Some(s) ==> opens_to(kb@, id@, s@, plain@)),
{
    match k {
        None => Some(plain.to_owned()),
        Some(kb) => match aead_seal(kb.as_slice(), id, plain) {
            Some(bytes) => {
                let out = bytes_to_hex(&bytes);
                proof {
                    assert(hex_of_bytes(bytes@) == out@ && sealed_opens(kb@, id@, bytes@)
                        == Some(plain@));
                }
                Some(out)
            },
            None => None,
        },
    }
}

/// Opens a persisted text under the given identifier. Without key bytes
/// this is the identity; with them, it yields exactly the plaintext the
/// text opens to — and fails closed on anything that opens to none.
pub fn unseal(id: &str, sealed: &str, k: &Option<Vec<u8>>) -> (r: Option<String>)
    ensures
        k is None ==> (r matches Some(s) && s@ == sealed@),
        k matches Some(kb) ==> (r matches Some(s) ==> opens_to(kb@, id@, sealed@, s@)),
        k matches Some(kb) ==> (forall|p: Seq<char>|
            opens_to(kb@, id@, sealed@, p) ==> (r matches Some(s) && s@ == p)),
{
    match k {
        None => Some(sealed.to_owned()),
        Some(kb) => match hex_to_bytes(sealed) {
            Some(bytes) => {
                let r = aead_open(kb.as_slice(), id, bytes.as_slice());
                proof {
                    assert forall|p: Seq<char>| opens_to(kb@, id@, sealed@, p) implies (
                    r matches Some(s) && s@ == p) by {
                        let b0 = choose|b: Seq<u8>|
                            hex_of_bytes(b) == sealed@ && sealed_opens(kb@, id@, b) == Some(p);
                        lemma_hex_injective(b0, bytes@);
                    }
                }
                r
            },
            None => {
                proof {
                    assert forall|p: Seq<char>| opens_to(kb@, id@, sealed@, p) implies false by {
                        let b0 = choose|b: Seq<u8>|
                            hex_of_bytes(b) == sealed@ && sealed_opens(kb@, id@, b) == Some(p);
                    }
                }
                None
            },
        },
    }
}

} // verus!

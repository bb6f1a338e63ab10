//! SHA-256 digests in lowercase hexadecimal (the optimistic lock of design
//! patches and the cache keys).
use vstd::prelude::*;
use sha2::{Digest, Sha256};

verus! {

broadcast use vstd::seq_lib::group_seq_properties;

/// The SHA-256 digest of the UTF-8 encoding of a text.
pub uninterp spec fn sha256_of(text: Seq<char>) -> Seq<u8>;

/// `sha2::Sha256::digest` of the UTF-8 bytes of `text`: the result is the
/// digest named `sha256_of(text)`, which is 32 bytes long (the output size of
/// SHA-256).
#[verifier::external_body]
fn sha256_digest(text: &str) -> (d: Vec<u8>)
    ensures
        d@ == sha256_of(text@),
        d@.len() == 32,
{
    Sha256::digest(text.as_bytes()).to_vec()
}

/// The lowercase hexadecimal digits.
pub open spec fn hex_digits() -> Seq<char> {
    seq!['0', '1', '2', '3', '4', '5', '6', '7', '8', '9', 'a', 'b', 'c', 'd', 'e', 'f']
}

/// Two lowercase hexadecimal digits per byte, most significant first
/// (`format!("{:x}", digest)`).
pub open spec fn spec_hex_lower(bytes: Seq<u8>) -> Seq<char>
    decreases bytes.len(),
{
    if bytes.len() == 0 {
        Seq::empty()
    } else {
        spec_hex_lower(bytes.drop_last()) + seq![
            hex_digits()[(bytes.last() / 16) as int],
            hex_digits()[(bytes.last() % 16) as int],
        ]
    }
}

fn hex_digit(d: u8) -> (c: char)
    requires
        d < 16,
    ensures
        c == hex_digits()[d as int],
{
    match d {
        0 => '0',
        1 => '1',
        2 => '2',
        3 => '3',
        4 => '4',
        5 => '5',
        6 => '6',
        7 => '7',
        8 => '8',
        9 => '9',
        10 => 'a',
        11 => 'b',
        12 => 'c',
        13 => 'd',
        14 => 'e',
        _ => 'f',
    }
}

/// Lowercase hexadecimal text of `bytes`.
pub fn hex_lower(bytes: &[u8]) -> (s: String)
    ensures
        s@ == spec_hex_lower(bytes@),
        s@.len() == 2 * bytes@.len(),
{
    let mut s = String::new();
    let mut i: usize = 0;
    while i < bytes.len()
        invariant
            i <= bytes@.len(),
            s@ == spec_hex_lower(bytes@.take(i as int)),
            s@.len() == 2 * i,
        decreases bytes@.len() - i,
    {
        let b = bytes[i];
        proof {
            assert(bytes@.take(i + 1).drop_last() =~= bytes@.take(i as int));
            assert(bytes@.take(i + 1).last() == b);
        }
        crate::text::push_char(&mut s, hex_digit(b / 16));
        crate::text::push_char(&mut s, hex_digit(b % 16));
        proof {
            assert(s@ =~= spec_hex_lower(bytes@.take(i + 1)));
        }
        i = i + 1;
    }
    proof {
        assert(bytes@.take(i as int) =~= bytes@);
    }
    s
}

/// Lowercase hexadecimal SHA-256 of `text`, 64 characters long.
pub fn sha256_hex(text: &str) -> (h: String)
    ensures
        h@ == spec_hex_lower(sha256_of(text@)),
        h@.len() == 64,
{
    let d = sha256_digest(text);
    hex_lower(d.as_slice())
}


/// Law (lowercase hex): byte `i` becomes characters `2i` and `2i + 1`, its
/// high and low nibble as a digit of `0123456789abcdef`.
pub proof fn law_hex_digits(bytes: Seq<u8>)
    ensures
        spec_hex_lower(bytes).len() == 2 * bytes.len(),
        forall|i: int|
            0 <= i < bytes.len() ==> spec_hex_lower(bytes)[2 * i] == "0123456789abcdef"@[(
            #[trigger] bytes[i] / 16) as int] && spec_hex_lower(bytes)[2 * i + 1]
                == "0123456789abcdef"@[(bytes[i] % 16) as int],
    decreases bytes.len(),
{
    reveal_strlit("0123456789abcdef");
    assert(hex_digits() =~= "0123456789abcdef"@);
    if bytes.len() > 0 {
        let b0 = bytes.drop_last();
        law_hex_digits(b0);
        let h = spec_hex_lower(bytes);
        let h0 = spec_hex_lower(b0);
        assert forall|i: int| 0 <= i < bytes.len() implies h[2 * i] == "0123456789abcdef"@[(
        #[trigger] bytes[i] / 16) as int] && h[2 * i + 1] == "0123456789abcdef"@[(bytes[i] % 16) as int] by {
            if i < b0.len() {
                assert(b0[i] == bytes[i]);
                assert(h[2 * i] == h0[2 * i]);
                assert(h[2 * i + 1] == h0[2 * i + 1]);
            }
        }
    }
}

} // verus!

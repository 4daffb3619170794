//! Digests as text: lowercase hexadecimal, two characters per byte.

use crate::digest;
use vstd::prelude::*;

verus! {

/// The lowercase hexadecimal digit for a value below sixteen.
pub open spec fn hex_digit(n: u8) -> char {
    match n {
        0 => '0',
        1 => '1',
        2 => '2',
        3 => '3',
        4 => '4',
        5 => '5',
        6 => '6',
        7 => '7',
        8 => '8',
        9 => '9',
        10 => 'a',
        11 => 'b',
        12 => 'c',
        13 => 'd',
        14 => 'e',
        _ => 'f',
    }
}

/// Character `i` of the text of `bytes`: the high digit of byte `i / 2`
/// where `i` is even, its low digit where `i` is odd.
pub open spec fn hex_char_at(bytes: Seq<u8>, i: int) -> char {
    if i % 2 == 0 {
        hex_digit(bytes[i / 2] / 16)
    } else {
        hex_digit(bytes[i / 2] % 16)
    }
}

/// The text of `bytes`: for each byte in turn, its high digit and then its
/// low digit.
pub open spec fn hex_text(bytes: Seq<u8>) -> Seq<char> {
    Seq::new(2 * bytes.len(), |i: int| hex_char_at(bytes, i))
}

/// The one-character string of a hexadecimal digit.
fn digit_str(n: u8) -> (s: &'static str)
    requires
        n < 16,
    ensures
        s@ == seq![hex_digit(n)],
{
    proof {
        reveal_strlit("0");
        reveal_strlit("1");
        reveal_strlit("2");
        reveal_strlit("3");
        reveal_strlit("4");
        reveal_strlit("5");
        reveal_strlit("6");
        reveal_strlit("7");
        reveal_strlit("8");
        reveal_strlit("9");
        reveal_strlit("a");
        reveal_strlit("b");
        reveal_strlit("c");
        reveal_strlit("d");
        reveal_strlit("e");
        reveal_strlit("f");
    }
    let s = match n {
        0 => "0",
        1 => "1",
        2 => "2",
        3 => "3",
        4 => "4",
        5 => "5",
        6 => "6",
        7 => "7",
        8 => "8",
        9 => "9",
        10 => "a",
        11 => "b",
        12 => "c",
        13 => "d",
        14 => "e",
        _ => "f",
    };
    assert(s@ =~= seq![hex_digit(n)]);
    s
}

/// Renders a digest as 64 lowercase hexadecimal characters, first byte
/// first.
pub fn hash_to_hex(hash: &digest::Hash) -> (text: String)
    ensures
        text@ == hex_text(hash@),
{
    let mut text = String::new();
    let mut i: usize = 0;
    while i < 32
        invariant
            i <= 32,
            text@.len() == 2 * i,
            forall|j: int| 0 <= j < 2 * i ==> text@[j] == hex_char_at(hash@, j),
        decreases 32 - i,
    {
        let byte = hash[i];
        text.append(digit_str(byte / 16));
        text.append(digit_str(byte % 16));
        i += 1;
    }
    assert(text@ =~= hex_text(hash@));
    text
}

} // verus!

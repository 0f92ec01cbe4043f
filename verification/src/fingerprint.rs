//! The 64-bit query fingerprint and its lowercase-hex rendering.
//!
//! The fingerprint of a query is a non-cryptographic hash of its raw bytes,
//! rendered as exactly sixteen lowercase hexadecimal characters; it keys the
//! query cache and names the analysis on the wire.

use vstd::prelude::*;
use vstd::string::StringExecFns;
use vstd::string::StringSliceAdditionalSpecFns;

verus! {

/// What the outside hash returns for a byte sequence. The hash reads nothing
/// but its input, so this is a function of the bytes alone.
pub uninterp spec fn sp_xxh3(data: Seq<u8>) -> u64;

/// Relies on `xxhash_rust::xxh3::xxh3_64`: the 64-bit hash of the input
/// bytes, a pure function of its argument.
pub assume_specification[ xxhash_rust::xxh3::xxh3_64 ](input: &[u8]) -> (r: u64)
    ensures
        r == sp_xxh3(input@),
;

/// The lowercase hexadecimal digit for a value below sixteen.
pub open spec fn sp_hex_digit(n: u64) -> char {
    if n == 0 {
        '0'
    } else if n == 1 {
        '1'
    } else if n == 2 {
        '2'
    } else if n == 3 {
        '3'
    } else if n == 4 {
        '4'
    } else if n == 5 {
        '5'
    } else if n == 6 {
        '6'
    } else if n == 7 {
        '7'
    } else if n == 8 {
        '8'
    } else if n == 9 {
        '9'
    } else if n == 10 {
        'a'
    } else if n == 11 {
        'b'
    } else if n == 12 {
        'c'
    } else if n == 13 {
        'd'
    } else if n == 14 {
        'e'
    } else {
        'f'
    }
}

/// The sixteen-character lowercase-hex rendering of a 64-bit value, most
/// significant nibble first.
pub open spec fn sp_hex16(v: u64) -> Seq<char> {
    Seq::new(16, |i: int| sp_hex_digit((v >> (((15 - i) * 4) as u64)) & 0xf))
}

/// One lowercase hexadecimal digit as a string slice.
fn hex_digit_str(n: u64) -> (r: &'static str)
    requires
        n < 16,
    ensures
        r@.len() == 1,
        r@[0] == sp_hex_digit(n),
{
    proof {
        reveal_strlit("0");
        reveal_strlit("1");
        reveal_strlit("2");
        reveal_strlit("3");
        reveal_strlit("4");
        reveal_strlit("5");
        reveal_strlit("6");
        reveal_strlit("7");
        reveal_strlit("8");
        reveal_strlit("9");
        reveal_strlit("a");
        reveal_strlit("b");
        reveal_strlit("c");
        reveal_strlit("d");
        reveal_strlit("e");
        reveal_strlit("f");
    }
    if n == 0 {
        "0"
    } else if n == 1 {
        "1"
    } else if n == 2 {
        "2"
    } else if n == 3 {
        "3"
    } else if n == 4 {
        "4"
    } else if n == 5 {
        "5"
    } else if n == 6 {
        "6"
    } else if n == 7 {
        "7"
    } else if n == 8 {
        "8"
    } else if n == 9 {
        "9"
    } else if n == 10 {
        "a"
    } else if n == 11 {
        "b"
    } else if n == 12 {
        "c"
    } else if n == 13 {
        "d"
    } else if n == 14 {
        "e"
    } else {
        "f"
    }
}

/// Renders a 64-bit value as sixteen lowercase hexadecimal characters, most
/// significant nibble first.
pub fn hex16(v: u64) -> (r: String)
    ensures
        r@ == sp_hex16(v),
{
    let mut out = String::new();
    let mut i: usize = 0;
    while i < 16
        invariant
            i <= 16,
            out@.len() == i,
            forall|j: int| 0 <= j < i ==> out@[j] == sp_hex16(v)[j],
        decreases 16 - i,
    {
        let shift: u64 = ((15 - i) as u64) * 4;
        let nib: u64 = (v >> shift) & 0xf;
        proof {
            assert((v >> shift) & 0xf < 16) by (bit_vector);
        }
        out.append(hex_digit_str(nib));
        i = i + 1;
    }
    proof {
        assert(out@ =~= sp_hex16(v));
    }
    out
}

/// The fingerprint of a query text: sixteen lowercase-hex characters of the
/// 64-bit hash of its raw bytes.
pub fn generate_query_id(query: &str) -> (r: String)
    ensures
        r@ == sp_hex16(sp_xxh3(query.spec_bytes())),
{
    let h = xxhash_rust::xxh3::xxh3_64(query.as_bytes());
    hex16(h)
}

} // verus!

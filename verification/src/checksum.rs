//! The checksum of a serialized state: its 64-bit FNV-1a hash, written as
//! sixteen lower-case hexadecimal digits.

use vstd::prelude::*;

verus! {

/// The hash of no bytes.
pub const FNV_OFFSET: u64 = 0xcbf29ce484222325;

/// The factor of each step.
pub const FNV_PRIME: u64 = 0x00000100000001b3;

/// The FNV-1a hash: for each byte in turn, the hash so far is xor-ed with
/// the byte and multiplied by the prime, keeping the low 64 bits.
pub open spec fn fnv1a(bytes: Seq<u8>) -> u64
    decreases bytes.len(),
{
    if bytes.len() == 0 {
        FNV_OFFSET
    } else {
        (fnv1a(bytes.drop_last()) ^ (bytes.last() as u64)).wrapping_mul(FNV_PRIME)
    }
}

/// The digit for a value below sixteen.
pub open spec fn hex_digit(n: u64) -> char {
    if n == 0 {
        '0'
    } else if n == 1 {
        '1'
    } else if n == 2 {
        '2'
    } else if n == 3 {
        '3'
    } else if n == 4 {
        '4'
    } else if n == 5 {
        '5'
    } else if n == 6 {
        '6'
    } else if n == 7 {
        '7'
    } else if n == 8 {
        '8'
    } else if n == 9 {
        '9'
    } else if n == 10 {
        'a'
    } else if n == 11 {
        'b'
    } else if n == 12 {
        'c'
    } else if n == 13 {
        'd'
    } else if n == 14 {
        'e'
    } else {
        'f'
    }
}

/// The four bits of `h` that digit `i` shows, counting from the left.
pub open spec fn nibble(h: u64, i: int) -> u64 {
    (h >> (((15 - i) * 4) as u64)) & 0xf
}

/// The sixteen digits of `h`, most significant first.
pub open spec fn hex16(h: u64) -> Seq<char> {
    Seq::new(16, |i: int| hex_digit(nibble(h, i)))
}

/// The checksum of `bytes`.
pub open spec fn checksum(bytes: Seq<u8>) -> Seq<char> {
    hex16(fnv1a(bytes))
}

/// The FNV-1a hash of `bytes`.
pub fn fnv1a_hash(bytes: &[u8]) -> (h: u64)
    ensures
        h == fnv1a(bytes@),
{
    let mut h: u64 = FNV_OFFSET;
    let mut i: usize = 0;
    proof {
        assert(bytes@.take(0) =~= Seq::<u8>::empty());
    }
    while i < bytes.len()
        invariant
            i <= bytes@.len(),
            h == fnv1a(bytes@.take(i as int)),
        decreases bytes@.len() - i,
    {
        proof {
            let upto = bytes@.take(i + 1);
            assert(upto.drop_last() =~= bytes@.take(i as int));
            assert(upto.last() == bytes@[i as int]);
        }
        h = (h ^ (bytes[i] as u64)).wrapping_mul(FNV_PRIME);
        i = i + 1;
    }
    proof {
        assert(bytes@.take(bytes@.len() as int) =~= bytes@);
    }
    h
}

/// The digit for a value below sixteen, as a text of one character.
pub(crate) fn hex_digit_text(n: u64) -> (s: &'static str)
    requires
        n < 16,
    ensures
        s@ == seq![hex_digit(n)],
{
    proof {
        reveal_strlit("0");
        reveal_strlit("1");
        reveal_strlit("2");
        reveal_strlit("3");
        reveal_strlit("4");
        reveal_strlit("5");
        reveal_strlit("6");
        reveal_strlit("7");
        reveal_strlit("8");
        reveal_strlit("9");
        reveal_strlit("a");
        reveal_strlit("b");
        reveal_strlit("c");
        reveal_strlit("d");
        reveal_strlit("e");
        reveal_strlit("f");
    }
    let s = if n == 0 {
        "0"
    } else if n == 1 {
        "1"
    } else if n == 2 {
        "2"
    } else if n == 3 {
        "3"
    } else if n == 4 {
        "4"
    } else if n == 5 {
        "5"
    } else if n == 6 {
        "6"
    } else if n == 7 {
        "7"
    } else if n == 8 {
        "8"
    } else if n == 9 {
        "9"
    } else if n == 10 {
        "a"
    } else if n == 11 {
        "b"
    } else if n == 12 {
        "c"
    } else if n == 13 {
        "d"
    } else if n == 14 {
        "e"
    } else {
        "f"
    };
    assert(s@ =~= seq![hex_digit(n)]);
    s
}

/// The checksum of `bytes`: sixteen hexadecimal digits.
pub fn checksum_of(bytes: &[u8]) -> (sum: String)
    ensures
        sum@ == checksum(bytes@),
{
    let h = fnv1a_hash(bytes);
    let mut out = String::new();
    let mut i: u64 = 0;
    while i < 16
        invariant
            i <= 16,
            out@ == hex16(h).take(i as int),
        decreases 16 - i,
    {
        let shift: u64 = (15 - i) * 4;
        let n = (h >> shift) & 0xf;
        assert(n < 16) by (bit_vector)
            requires
                n == (h >> shift) & 0xf,
        ;
        assert(n == nibble(h, i as int));
        out.append(hex_digit_text(n));
        assert(out@ =~= hex16(h).take(i + 1));
        i = i + 1;
    }
    assert(hex16(h).take(16) =~= hex16(h));
    out
}

} // verus!

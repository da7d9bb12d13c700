//! Bytes in lowercase hexadecimal ASCII, as a credential writes its
//! signature.

use vstd::prelude::*;

verus! {

/// The digit that writes the value `v` below 16: one of `0`..`9`, `a`..`f`.
pub open spec fn hex_digit(v: int) -> u8 {
    if v < 10 {
        (48 + v) as u8
    } else {
        (87 + v) as u8
    }
}

/// `bytes` in hexadecimal, two digits a byte, high digit first.
pub open spec fn hex(bytes: Seq<u8>) -> Seq<u8> {
    Seq::new(
        2 * bytes.len(),
        |i: int|
            if i % 2 == 0 {
                hex_digit(bytes[i / 2] as int / 16)
            } else {
                hex_digit(bytes[i / 2] as int % 16)
            },
    )
}

/// The digit that writes `v`.
fn digit_of(v: u8) -> (b: u8)
    requires
        v < 16,
    ensures
        b == hex_digit(v as int),
{
    if v < 10 {
        48 + v
    } else {
        87 + v
    }
}

/// Appends `bytes` in hexadecimal to `out`.
pub fn push_hex(out: &mut Vec<u8>, bytes: &[u8])
    ensures
        final(out)@ == old(out)@ + hex(bytes@),
{
    let mut i: usize = 0;
    while i < bytes.len()
        invariant
            0 <= i <= bytes@.len(),
            out@ == old(out)@ + hex(bytes@.take(i as int)),
        decreases bytes@.len() - i,
    {
        let b = bytes[i];
        out.push(digit_of(b / 16));
        out.push(digit_of(b % 16));
        proof {
            let done = bytes@.take(i as int);
            let next = bytes@.take(i + 1);
            assert(hex(next) =~= hex(done).push(hex_digit(b as int / 16)).push(
                hex_digit(b as int % 16),
            )) by {
                assert forall|j: int| 0 <= j < hex(next).len() implies hex(next)[j] == hex(
                    done,
                ).push(hex_digit(b as int / 16)).push(hex_digit(b as int % 16))[j] by {
                    if j < 2 * i {
                        assert(next[j / 2] == done[j / 2]);
                    } else {
                        assert(j / 2 == i);
                        assert(next[j / 2] == b);
                    }
                }
            }
            assert(out@ =~= old(out)@ + hex(next));
        }
        i += 1;
    }
    proof {
        assert(bytes@.take(bytes@.len() as int) =~= bytes@);
    }
}

/// `bytes` in hexadecimal.
pub fn to_hex(bytes: &[u8]) -> (text: Vec<u8>)
    ensures
        text@ == hex(bytes@),
        text@.len() == 2 * bytes@.len(),
{
    let mut text: Vec<u8> = Vec::new();
    push_hex(&mut text, bytes);
    proof {
        assert(Seq::<u8>::empty() + hex(bytes@) =~= hex(bytes@));
    }
    text
}

} // verus!

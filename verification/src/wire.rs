//! The byte format in which frames leave the pipeline: signed 16-bit
//! samples, little-endian, two bytes each.

use vstd::prelude::*;
use std::collections::VecDeque;

verus! {

/// The low byte of a sample in two's complement.
pub open spec fn low_byte(sample: i16) -> u8 {
    ((sample as int) % 256) as u8
}

/// The high byte of a sample in two's complement.
pub open spec fn high_byte(sample: i16) -> u8 {
    (((sample as int) / 256) % 256) as u8
}

/// The bytes of `samples` on the wire.
pub open spec fn le_bytes(samples: Seq<i16>) -> Seq<u8> {
    Seq::new(
        2 * samples.len(),
        |i: int|
            if i % 2 == 0 {
                low_byte(samples[i / 2])
            } else {
                high_byte(samples[i / 2])
            },
    )
}

/// The sample that two bytes on the wire stand for.
pub open spec fn sample_of(low: u8, high: u8) -> int {
    if high < 128 {
        high * 256 + low
    } else {
        high * 256 + low - 65536
    }
}

/// Reading back the two bytes of a sample gives the sample.
pub proof fn lemma_bytes_round_trip(sample: i16)
    ensures
        sample_of(low_byte(sample), high_byte(sample)) == sample,
{
    let v = sample as int;
    assert(v == 256 * (v / 256) + v % 256 && 0 <= v % 256 < 256 && -128 <= v / 256 < 128)
        by (nonlinear_arith)
        requires
            -32768 <= v <= 32767,
    ;
    let h = v / 256;
    assert(h % 256 == if h >= 0 {
        h
    } else {
        h + 256
    }) by (nonlinear_arith)
        requires
            -128 <= h < 128,
    ;
}

/// The two bytes of one sample.
fn split(sample: i16) -> (bytes: (u8, u8))
    ensures
        bytes.0 == low_byte(sample),
        bytes.1 == high_byte(sample),
{
    let value: i32 = sample as i32;
    let bits: u32 = if value < 0 {
        (value + 65536) as u32
    } else {
        value as u32
    };
    let low: u8 = (bits % 256) as u8;
    let high: u8 = (bits / 256) as u8;
    proof {
        let v = sample as int;
        assert(v % 256 == (bits as int) % 256 && (v / 256) % 256 == (bits as int) / 256)
            by (nonlinear_arith)
            requires
                -32768 <= v <= 32767,
                bits as int == if v >= 0 {
                    v
                } else {
                    v + 65536
                },
        ;
    }
    (low, high)
}

/// Encodes a frame for the wire.
pub fn frame_to_le_bytes(frame: &[i16]) -> (bytes: Vec<u8>)
    ensures
        bytes@ == le_bytes(frame@),
{
    let mut bytes: Vec<u8> = Vec::new();
    let mut i: usize = 0;
    while i < frame.len()
        invariant
            i <= frame@.len(),
            bytes@.len() == 2 * i,
            forall|j: int|
                0 <= j < 2 * i ==> bytes@[j] == if j % 2 == 0 {
                    low_byte(frame@[j / 2])
                } else {
                    high_byte(frame@[j / 2])
                },
        decreases frame@.len() - i,
    {
        let pair: (u8, u8) = split(frame[i]);
        bytes.push(pair.0);
        bytes.push(pair.1);
        i += 1;
    }
    bytes
}

/// The 32-bit word that four bytes stand for, the lowest byte first.
pub open spec fn le_word(b0: u8, b1: u8, b2: u8, b3: u8) -> u32 {
    (b0 + 0x100 * b1 + 0x1_0000 * b2 + 0x100_0000 * b3) as u32
}

/// The words that a stream of bytes stands for, four bytes each. Bytes
/// behind the last whole word stand for nothing.
pub open spec fn le_words(bytes: Seq<u8>) -> Seq<u32> {
    Seq::new(
        bytes.len() / 4,
        |i: int| le_word(bytes[4 * i], bytes[4 * i + 1], bytes[4 * i + 2], bytes[4 * i + 3]),
    )
}

/// Takes the whole 32-bit words off the front of a queue of bytes as a
/// source delivers them. Less than four bytes stay behind.
pub fn take_le_words(bytes: &mut VecDeque<u8>) -> (words: Vec<u32>)
    ensures
        words@ == le_words(old(bytes)@),
        final(bytes)@ == old(bytes)@.skip(4 * (old(bytes)@.len() / 4) as int),
{
    let mut words: Vec<u32> = Vec::new();
    assert(bytes@ =~= old(bytes)@.skip(0));
    while bytes.len() >= 4
        invariant
            4 * words@.len() <= old(bytes)@.len(),
            bytes@ == old(bytes)@.skip(4 * words@.len() as int),
            forall|i: int|
                0 <= i < words@.len() ==> words@[i] == le_word(
                    old(bytes)@[4 * i],
                    old(bytes)@[4 * i + 1],
                    old(bytes)@[4 * i + 2],
                    old(bytes)@[4 * i + 3],
                ),
        decreases bytes@.len(),
    {
        let ghost before = bytes@;
        let b0: u32 = bytes[0] as u32;
        let b1: u32 = bytes[1] as u32;
        let b2: u32 = bytes[2] as u32;
        let b3: u32 = bytes[3] as u32;
        let _ = bytes.pop_front();
        let _ = bytes.pop_front();
        let _ = bytes.pop_front();
        let _ = bytes.pop_front();
        assert(bytes@ =~= before.skip(4));
        assert(before.skip(4) =~= old(bytes)@.skip(4 * (words@.len() + 1) as int));
        words.push(b0 + 0x100 * b1 + 0x1_0000 * b2 + 0x100_0000 * b3);
    }
    assert(words@.len() == old(bytes)@.len() / 4);
    words
}

} // verus!

//! Equal-tempered pitch lookup: from a keyboard key number to a frequency in
//! millihertz.
//!
//! Key 69 is A4 at concert pitch, 440 Hz exactly; each of the twelve
//! semitones within an octave scales by the equal-tempered ratio `2^(i/12)`,
//! held to a millionth.  Each pitch class is rounded to whole millihertz
//! once, at the bottom octave, and every higher octave doubles that value —
//! so adding an octave to a key doubles its frequency *exactly*
//! ([`lemma_octave_doubles`]), and A4 and the bottom A (13.75 Hz) come out
//! exact.

use vstd::prelude::*;

verus! {

/// The twelve semitone ratios `2^(i/12)`, scaled by one million.
pub open spec fn semitone_ratio(i: int) -> int {
    if i == 0 {
        1000000
    } else if i == 1 {
        1059463
    } else if i == 2 {
        1122462
    } else if i == 3 {
        1189207
    } else if i == 4 {
        1259921
    } else if i == 5 {
        1334840
    } else if i == 6 {
        1414214
    } else if i == 7 {
        1498307
    } else if i == 8 {
        1587401
    } else if i == 9 {
        1681793
    } else if i == 10 {
        1781797
    } else {
        1887749
    }
}

/// Two to the given power.
pub open spec fn pow2(e: int) -> int
    decreases e,
{
    if e <= 0 {
        1
    } else {
        2 * pow2(e - 1)
    }
}

/// A pitch class's frequency at the bottom octave, in millihertz: 440 Hz
/// sits six octaves up, so the bottom-octave A is `440000 / 64 = 6875` mHz
/// and the other classes scale it by their semitone ratio, floored to whole
/// millihertz once and for all.
pub open spec fn base_freq_spec(note: int) -> int {
    (440000 * semitone_ratio(note)) / 64000000
}

/// The frequency of a key, in millihertz: the key's pitch class at the
/// bottom octave, doubled once per octave.
pub open spec fn key_freq_spec(key: int) -> int {
    let k = key + 3;
    base_freq_spec(k % 12) * pow2(k / 12)
}

/// Adding an octave to a key exactly doubles its frequency.
pub proof fn lemma_octave_doubles(key: int)
    requires
        0 <= key,
    ensures
        key_freq_spec(key + 12) == 2 * key_freq_spec(key),
{
    let k = key + 3;
    vstd::arithmetic::div_mod::lemma_mod_add_multiples_vanish(k, 12);
    assert((k + 12) % 12 == k % 12);
    vstd::arithmetic::div_mod::lemma_fundamental_div_mod(k, 12);
    vstd::arithmetic::div_mod::lemma_fundamental_div_mod(k + 12, 12);
    assert((k + 12) / 12 == k / 12 + 1);
    vstd::arithmetic::div_mod::lemma_div_pos_is_pos(k, 12);
    assert(pow2(k / 12 + 1) == 2 * pow2(k / 12));
    assert(base_freq_spec(k % 12) * (2 * pow2(k / 12)) == 2 * (base_freq_spec(k % 12) * pow2(
        k / 12,
    ))) by (nonlinear_arith);
}

/// Look up the frequency of a key, in millihertz.
pub fn key_to_freq(key: u8) -> (freq: u64)
    ensures
        freq == key_freq_spec(key as int),
{
    let k: u32 = key as u32 + 3;
    let octave: u32 = k / 12;
    let note: u32 = k % 12;
    let ratio: u64 = semitone_ratio_of(note);
    proof {
        assert(ratio <= 1887749);
    }
    let base: u64 = (440000 * ratio) / 64000000;
    let mult: u64 = pow2_of(octave);
    proof {
        vstd::arithmetic::div_mod::lemma_div_is_ordered(
            440000 * ratio as int,
            440000int * 1887749int,
            64000000,
        );
        assert(base <= 12978);
        lemma_pow2_bound(octave as int, 21);
        reveal_with_fuel(pow2, 23);
        assert(pow2(21) == 2097152);
        assert(base * mult <= 12978 * 2097152) by (nonlinear_arith)
            requires
                base <= 12978,
                mult <= 2097152,
        ;
    }
    base * mult
}

/// The tabulated semitone ratio, scaled by one million.
fn semitone_ratio_of(note: u32) -> (r: u64)
    requires
        note < 12,
    ensures
        r == semitone_ratio(note as int),
{
    match note {
        0 => 1000000,
        1 => 1059463,
        2 => 1122462,
        3 => 1189207,
        4 => 1259921,
        5 => 1334840,
        6 => 1414214,
        7 => 1498307,
        8 => 1587401,
        9 => 1681793,
        10 => 1781797,
        _ => 1887749,
    }
}

/// Two to the given small power.
fn pow2_of(e: u32) -> (r: u64)
    requires
        e <= 21,
    ensures
        r == pow2(e as int),
{
    let mut r: u64 = 1;
    let mut i: u32 = 0;
    while i < e
        invariant
            i <= e <= 21,
            r == pow2(i as int),
        decreases e - i,
    {
        proof {
            lemma_pow2_bound(i as int, 20);
            reveal_with_fuel(pow2, 22);
            assert(pow2(20) == 1048576);
        }
        r = r * 2;
        i = i + 1;
    }
    r
}

/// `pow2` grows one doubling per step: up to exponent `cap` it is at most
/// `pow2(cap)`.
proof fn lemma_pow2_bound(e: int, cap: int)
    requires
        e <= cap,
        0 <= cap,
    ensures
        pow2(e) <= pow2(cap),
        pow2(e) >= 1,
    decreases cap,
{
    if cap > 0 {
        if e == cap {
            lemma_pow2_bound(e - 1, cap - 1);
        } else {
            lemma_pow2_bound(e, cap - 1);
        }
    }
}

} // verus!

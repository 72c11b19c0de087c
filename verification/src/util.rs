use vstd::prelude::*;

verus! {

/// `n` rounded up to the next multiple of eight.
pub open spec fn spec_align_8(n: int) -> int {
    (n + 7) / 8 * 8
}

/// Rounds `n` up to the next multiple of eight.
pub fn align_8(n: u64) -> (r: u64)
    requires
        n <= u64::MAX - 7,
    ensures
        r == spec_align_8(n as int),
        r % 8 == 0,
        n <= r < n + 8,
{
    (n + 7) / 8 * 8
}

/// A whole number of blocks of 512 KiB is a multiple of eight.
pub proof fn lemma_blocks_aligned(size: int)
    requires
        size % 524288 == 0,
    ensures
        size % 8 == 0,
{
    let q = size / 524288;
    assert(size == 524288 * q);
    assert(size == 8 * (65536 * q));
    vstd::arithmetic::div_mod::lemma_mod_multiples_basic(65536 * q, 8);
    assert(65536 * q * 8 == size);
}

/// A record that starts on a multiple of eight and ends within a region
/// whose size is a multiple of eight leaves room in the region for the
/// bytes that align the record behind it.
pub proof fn lemma_aligned_fit(start: int, len: int, size: int)
    requires
        0 <= start,
        0 <= len,
        start % 8 == 0,
        size % 8 == 0,
        start + len <= size,
    ensures
        start + spec_align_8(len) <= size,
        (start + spec_align_8(len)) % 8 == 0,
        len <= spec_align_8(len) < len + 8,
{
}

/// The seed that a raw draw `draw` gives once it is shifted left by the
/// shift that `shift_draw` selects (a shift of 0 to 62 bits).
pub open spec fn shifted_seed(draw: u64, shift_draw: u64) -> u64 {
    draw << (shift_draw % 63)
}

/// Whether `(f, s)` can serve as the seed pair of an index: both seeds are
/// non-zero and they differ.
pub open spec fn usable_seeds(f: u64, s: u64) -> bool {
    f != 0 && s != 0 && f != s
}

/// Turns four raw 64-bit draws of a random number generator into a seed pair.
///
/// The first two draws are the seeds, the last two select by how many bits
/// each of them is shifted. The pair is handed out only if it is usable;
/// otherwise the caller draws again.
pub fn seeds_from_draws(f_draw: u64, s_draw: u64, f_shift: u64, s_shift: u64) -> (r: Option<(u64, u64)>)
    ensures
        r == if usable_seeds(shifted_seed(f_draw, f_shift), shifted_seed(s_draw, s_shift)) {
            Some((shifted_seed(f_draw, f_shift), shifted_seed(s_draw, s_shift)))
        } else {
            None
        },
{
    let fseed: u64 = f_draw << (f_shift % 63);
    let sseed: u64 = s_draw << (s_shift % 63);
    if fseed != 0 && sseed != 0 && fseed != sseed {
        Some((fseed, sseed))
    } else {
        None
    }
}

} // verus!

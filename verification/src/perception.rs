//! The afferent senses' change-gate: the expensive cognition model is consulted only on change.
//! Frames are deduplicated by dHash Hamming distance (a static screen costs no inference) and
//! audio is gated by voice activity (silence is never transcribed). Pure, model-free arithmetic.

use vstd::prelude::*;
use vstd::arithmetic::power2::{
    pow2, lemma_pow2_unfold, lemma_pow2_pos, lemma_pow2_strictly_increases, lemma2_to64,
    lemma2_to64_rest,
};

verus! {

/// The dHash Hamming distance above which a frame counts as changed.
pub const FRAME_DHASH_THRESHOLD: u32 = 4;

/// The number of set bits among the low `k` bits of `x`.
pub open spec fn bits_set(x: u64, k: nat) -> nat
    decreases k,
{
    if k == 0 {
        0
    } else {
        bits_set(x, (k - 1) as nat) + (((x >> ((k - 1) as u64)) & 1u64) as nat)
    }
}

/// The Hamming weight of `x`.
pub open spec fn popcount(x: u64) -> nat {
    bits_set(x, 64)
}

/// At most `k` of the low `k` bits are set.
proof fn lemma_bits_set_bounded(x: u64, k: nat)
    ensures
        bits_set(x, k) <= k,
    decreases k,
{
    if k > 0 {
        lemma_bits_set_bounded(x, (k - 1) as nat);
        let j: u64 = (k - 1) as u64;
        let b = (x >> j) & 1u64;
        assert(b <= 1) by (bit_vector)
            requires b == (x >> j) & 1u64;
    }
}

/// When none of the low `k` bits (`k < 64`) is counted, those bits are all clear.
proof fn lemma_no_bits_set_low(x: u64, k: u64)
    requires
        k < 64,
        bits_set(x, k as nat) == 0,
    ensures
        x & (((1u64 << k) - 1u64) as u64) == 0,
    decreases k,
{
    if k == 0 {
        assert(x & (((1u64 << 0u64) - 1u64) as u64) == 0) by (bit_vector);
    } else {
        let j: u64 = (k - 1) as u64;
        lemma_no_bits_set_low(x, j);
        assert(((x >> j) & 1u64) == 0);
        assert(x & (((1u64 << k) - 1u64) as u64) == 0) by (bit_vector)
            requires
                j < 63,
                k == j + 1,
                x & (((1u64 << j) - 1u64) as u64) == 0,
                (x >> j) & 1u64 == 0;
    }
}

/// A word with no bit set is zero, and a word with a bit set counts at least one.
proof fn lemma_popcount_zero(x: u64)
    ensures
        (popcount(x) == 0) == (x == 0),
{
    if x == 0 {
        assert forall|i: u64| i < 64 implies ((0u64 >> i) & 1u64) == 0 by {
            assert(((0u64 >> i) & 1u64) == 0) by (bit_vector);
        }
        lemma_zero_word_counts_nothing(64);
    } else if popcount(x) == 0 {
        assert(bits_set(x, 63) == 0);
        lemma_no_bits_set_low(x, 63);
        assert(((x >> 63u64) & 1u64) == 0);
        assert(x == 0) by (bit_vector)
            requires
                x & (((1u64 << 63u64) - 1u64) as u64) == 0,
                (x >> 63u64) & 1u64 == 0;
    }
}

/// The zero word counts no set bit among its low `k` bits.
proof fn lemma_zero_word_counts_nothing(k: nat)
    requires
        k <= 64,
        forall|i: u64| i < 64 ==> ((0u64 >> i) & 1u64) == 0,
    ensures
        bits_set(0u64, k) == 0,
    decreases k,
{
    if k > 0 {
        lemma_zero_word_counts_nothing((k - 1) as nat);
        assert(((0u64 >> ((k - 1) as u64)) & 1u64) == 0);
    }
}

/// The dHash distance is a Hamming distance: symmetric, at most 64, and zero exactly between
/// equal hashes (a static frame never reads as changed).
pub proof fn lemma_dhash_distance_is_hamming(a: u64, b: u64)
    ensures
        popcount(a ^ b) == popcount(b ^ a),
        popcount(a ^ b) <= 64,
        (popcount(a ^ b) == 0) == (a == b),
{
    assert(a ^ b == b ^ a) by (bit_vector);
    lemma_bits_set_bounded(a ^ b, 64);
    lemma_popcount_zero(a ^ b);
    assert((a ^ b == 0) == (a == b)) by (bit_vector);
}

/// The frame change-gate: a frame or audio sample emits a percept only when it carries new
/// information.
#[derive(Clone, Copy, Debug)]
pub struct ChangeGate {
    /// dHash Hamming-distance threshold for "frame changed".
    pub frame_threshold: u32,
}

// ---- dHash geometry: average-pool the frame to 9x8 cells, compare adjacent columns ----

/// First row of cell row `ty` (of 8) in a frame of height `h`.
pub open spec fn cell_y0(ty: int, h: int) -> int {
    ty * h / 8
}

/// One past the last row of cell row `ty`: at least one row, at most `h`.
pub open spec fn cell_y1(ty: int, h: int) -> int {
    let lo = cell_y0(ty, h) + 1;
    let v = (ty + 1) * h / 8;
    if v < lo { lo } else if v > h { h } else { v }
}

/// First column of cell column `tx` (of 9) in a frame of width `w`.
pub open spec fn cell_x0(tx: int, w: int) -> int {
    tx * w / 9
}

/// One past the last column of cell column `tx`: at least one column, at most `w`.
pub open spec fn cell_x1(tx: int, w: int) -> int {
    let lo = cell_x0(tx, w) + 1;
    let v = (tx + 1) * w / 9;
    if v < lo { lo } else if v > w { w } else { v }
}

/// Sum of `luma[y*w + x]` for `x` in `[x0, x1)`.
pub open spec fn row_sum(luma: Seq<u8>, w: int, y: int, x0: int, x1: int) -> int
    decreases x1 - x0,
{
    if x1 <= x0 {
        0
    } else {
        row_sum(luma, w, y, x0, x1 - 1) + luma[y * w + x1 - 1] as int
    }
}

/// Sum of the pixels in rows `[y0, y1)` and columns `[x0, x1)`.
pub open spec fn region_sum(luma: Seq<u8>, w: int, y0: int, y1: int, x0: int, x1: int) -> int
    decreases y1 - y0,
{
    if y1 <= y0 {
        0
    } else {
        region_sum(luma, w, y0, y1 - 1, x0, x1) + row_sum(luma, w, y1 - 1, x0, x1)
    }
}

/// The average luma of cell (`ty`, `tx`), rounded down.
pub open spec fn cell_avg(luma: Seq<u8>, w: int, h: int, ty: int, tx: int) -> int {
    let y0 = cell_y0(ty, h);
    let y1 = cell_y1(ty, h);
    let x0 = cell_x0(tx, w);
    let x1 = cell_x1(tx, w);
    region_sum(luma, w, y0, y1, x0, x1) / ((y1 - y0) * (x1 - x0))
}

/// Bit `i` of the dHash: in cell row `i / 8`, column `i % 8` is darker than the next column.
pub open spec fn dhash_bit(luma: Seq<u8>, w: int, h: int, i: int) -> bool {
    cell_avg(luma, w, h, i / 8, i % 8) < cell_avg(luma, w, h, i / 8, i % 8 + 1)
}

/// The dHash bits `[0, k)` as a number.
pub open spec fn dhash_acc(luma: Seq<u8>, w: int, h: int, k: nat) -> nat
    decreases k,
{
    if k == 0 {
        0
    } else {
        dhash_acc(luma, w, h, (k - 1) as nat) + if dhash_bit(luma, w, h, k - 1) {
            pow2((k - 1) as nat)
        } else {
            0
        }
    }
}

/// Whether a luma buffer holds a whole `w`x`h` frame.
pub open spec fn frame_ok(len: int, w: int, h: int) -> bool {
    w > 0 && h > 0 && len >= w * h
}

/// The dHash of a `w`x`h` luma frame: 0 for an empty or short buffer.
pub open spec fn spec_dhash(luma: Seq<u8>, w: int, h: int) -> nat {
    if frame_ok(luma.len() as int, w, h) {
        dhash_acc(luma, w, h, 64)
    } else {
        0
    }
}

/// The Rec.601 luma of RGBA pixel `i`.
pub open spec fn luma_of(rgba: Seq<u8>, i: int) -> u8 {
    ((rgba[4 * i] as int * 299 + rgba[4 * i + 1] as int * 587 + rgba[4 * i + 2] as int * 114) / 1000) as u8
}

/// The luma frame of the first `n` RGBA pixels.
pub open spec fn rgba_luma(rgba: Seq<u8>, n: int) -> Seq<u8> {
    Seq::new(n as nat, |i: int| luma_of(rgba, i))
}

/// The dHash of a `w`x`h` RGBA frame: 0 for an empty or short buffer.
pub open spec fn spec_dhash_rgba(rgba: Seq<u8>, w: int, h: int) -> nat {
    if w * h > 0 && rgba.len() >= 4 * (w * h) {
        spec_dhash(rgba_luma(rgba, w * h), w, h)
    } else {
        0
    }
}

proof fn lemma_dhash_acc_bound(luma: Seq<u8>, w: int, h: int, k: nat)
    ensures
        dhash_acc(luma, w, h, k) < pow2(k),
    decreases k,
{
    if k > 0 {
        lemma_dhash_acc_bound(luma, w, h, (k - 1) as nat);
        lemma_pow2_unfold(k);
    } else {
        lemma_pow2_pos(0);
        assert(pow2(0) == 1) by {
            lemma2_to64();
        }
    }
}

/// The pixel sum of one cell, with its pixel count.
fn cell_sum(luma: &[u8], w: usize, y0: usize, y1: usize, x0: usize, x1: usize) -> (r: (u128, u128))
    requires
        y0 < y1,
        x0 < x1 <= w,
        y1 * w <= luma@.len(),
    ensures
        r.0 == region_sum(luma@, w as int, y0 as int, y1 as int, x0 as int, x1 as int),
        r.1 == (y1 - y0) * (x1 - x0),
        r.0 <= 255 * r.1,
{
    let len = luma.len();
    proof {
        assert((y1 - y0) * (x1 - x0) <= y1 * w) by (nonlinear_arith)
            requires y0 < y1, x0 < x1 <= w;
    }
    let mut sum: u128 = 0;
    let mut cnt: u128 = 0;
    let mut y = y0;
    while y < y1
        invariant
            y0 <= y <= y1,
            x0 < x1 <= w,
            y1 * w <= luma@.len(),
            len == luma@.len(),
            (y1 - y0) * (x1 - x0) <= luma@.len(),
            sum == region_sum(luma@, w as int, y0 as int, y as int, x0 as int, x1 as int),
            cnt == (y - y0) * (x1 - x0),
            sum <= 255 * cnt,
            cnt <= (y1 - y0) * (x1 - x0),
        decreases y1 - y,
    {
        proof {
            assert((y + 1) * w <= y1 * w) by (nonlinear_arith)
                requires y + 1 <= y1;
            assert((y - y0) * (x1 - x0) + (x1 - x0) == (y + 1 - y0) * (x1 - x0)) by (nonlinear_arith);
            assert((y + 1 - y0) * (x1 - x0) <= (y1 - y0) * (x1 - x0)) by (nonlinear_arith)
                requires y + 1 <= y1, x0 < x1;
            assert(y * w + w == (y + 1) * w) by (nonlinear_arith);
        }
        let row_start: usize = y * w;
        let ghost base_sum = sum;
        let ghost base_cnt = cnt;
        let mut x = x0;
        while x < x1
            invariant
                y0 <= y < y1,
                x0 <= x <= x1 <= w,
                row_start == y * w,
                row_start + w <= luma@.len(),
                len == luma@.len(),
                (y1 - y0) * (x1 - x0) <= luma@.len(),
                base_sum == region_sum(luma@, w as int, y0 as int, y as int, x0 as int, x1 as int),
                base_cnt == (y - y0) * (x1 - x0),
                sum == base_sum + row_sum(luma@, w as int, y as int, x0 as int, x as int),
                cnt == base_cnt + (x - x0),
                sum <= 255 * cnt,
                base_cnt + (x1 - x0) <= (y1 - y0) * (x1 - x0),
            decreases x1 - x,
        {
            let idx = row_start + x;
            sum = sum + luma[idx] as u128;
            cnt = cnt + 1;
            x = x + 1;
        }
        y = y + 1;
    }
    (sum, cnt)
}

proof fn lemma_pow2_le(a: nat, b: nat)
    requires
        a <= b,
    ensures
        pow2(a) <= pow2(b),
{
    if a < b {
        lemma_pow2_strictly_increases(a, b);
    }
}

impl ChangeGate {
    /// The default gate (threshold [`FRAME_DHASH_THRESHOLD`]).
    pub fn default() -> (r: Self)
        ensures
            r.frame_threshold == FRAME_DHASH_THRESHOLD,
    {
        ChangeGate { frame_threshold: FRAME_DHASH_THRESHOLD }
    }

    /// A gate with an explicit frame threshold.
    pub fn new(frame_threshold: u32) -> (r: Self)
        ensures
            r.frame_threshold == frame_threshold,
    {
        ChangeGate { frame_threshold }
    }

    /// Hamming distance between two dHashes (the count of differing bits).
    pub fn dhash_distance(a: u64, b: u64) -> (r: u32)
        ensures
            r == popcount(a ^ b),
    {
        let x = a ^ b;
        let mut c: u32 = 0;
        let mut i: u64 = 0;
        while i < 64
            invariant
                i <= 64,
                c == bits_set(x, i as nat),
                c <= i,
            decreases 64 - i,
        {
            let bit = (x >> i) & 1u64;
            assert(bit <= 1) by (bit_vector)
                requires bit == (x >> i) & 1u64;
            c = c + bit as u32;
            i = i + 1;
        }
        c
    }

    /// A frame emits a percept only if it changed enough versus the previous one.
    pub fn frame_changed(&self, dhash_distance: u32) -> (r: bool)
        ensures
            r == (dhash_distance > self.frame_threshold),
    {
        dhash_distance > self.frame_threshold
    }

    /// Audio emits a percept only when voiced speech is present.
    pub fn audio_voiced(voiced_ms: u32) -> (r: bool)
        ensures
            r == (voiced_ms > 0),
    {
        voiced_ms > 0
    }

    /// The perceptual dHash of a grayscale `w`x`h` frame: average-pool to 9x8 cells, one bit per
    /// adjacent-column comparison. A short buffer or empty frame hashes to 0.
    pub fn dhash(luma: &[u8], w: usize, h: usize) -> (r: u64)
        ensures
            r == spec_dhash(luma@, w as int, h as int),
    {
        let len = luma.len();
        if w == 0 || h == 0 {
            return 0;
        }
        match w.checked_mul(h) {
            None => {
                assert(luma@.len() < w * h);
                return 0;
            },
            Some(n) => {
                if luma.len() < n {
                    return 0;
                }
            },
        }
        let mut hash: u64 = 0;
        let mut pow: u64 = 1;
        let mut bit: usize = 0;
        proof {
            lemma2_to64();
            lemma2_to64_rest();
        }
        let ghost lumas = luma@;
        let wu = w as u128;
        let hu = h as u128;
        let mut ty: usize = 0;
        while ty < 8
            invariant
                w > 0 && h > 0 && w * h <= luma@.len(),
                wu == w, hu == h,
                ty <= 8,
                bit == ty * 8,
                hash == dhash_acc(luma@, w as int, h as int, bit as nat),
                bit < 64 ==> pow == pow2(bit as nat),
                bit == 64 ==> pow == pow2(63),
                pow2(64) == 0x1_0000_0000_0000_0000,
                pow2(63) == 0x8000_0000_0000_0000,
            decreases 8 - ty,
        {
            proof {
                assert(ty * h / 8 < h) by (nonlinear_arith) requires ty < 8, h > 0;
                assert((ty + 1) * h / 8 <= h) by (nonlinear_arith) requires ty < 8, h > 0;
                assert(ty * h <= 8 * 0xffff_ffff_ffff_ffffu128) by (nonlinear_arith)
                    requires ty < 8, h <= 0xffff_ffff_ffff_ffffu128;
                assert((ty + 1) * h <= 8 * 0xffff_ffff_ffff_ffffu128) by (nonlinear_arith)
                    requires ty < 8, h <= 0xffff_ffff_ffff_ffffu128;
            }
            let y0 = (ty as u128 * hu / 8) as usize;
            let v1 = (ty as u128 + 1) * hu / 8;
            let y1 = if v1 < y0 as u128 + 1 { y0 + 1 } else if v1 > hu { h } else { v1 as usize };
            proof {
                assert(y1 * w <= w * h) by (nonlinear_arith) requires y1 <= h;
            }
            let mut row: Vec<u32> = Vec::new();
            let mut tx: usize = 0;
            while tx < 9
                invariant
                    w > 0 && h > 0 && w * h <= luma@.len(),
                    wu == w, hu == h,
                    ty < 8,
                    y0 == cell_y0(ty as int, h as int),
                    y1 == cell_y1(ty as int, h as int),
                    y0 < y1 <= h,
                    y1 * w <= luma@.len(),
                    tx <= 9,
                    row@.len() == tx,
                    forall|k: int| 0 <= k < tx ==> row@[k] == cell_avg(luma@, w as int, h as int, ty as int, k),
                decreases 9 - tx,
            {
                proof {
                    assert(tx * w / 9 < w) by (nonlinear_arith) requires tx < 9, w > 0;
                    assert((tx + 1) * w / 9 <= w) by (nonlinear_arith) requires tx < 9, w > 0;
                    assert(tx * w <= 9 * 0xffff_ffff_ffff_ffffu128) by (nonlinear_arith)
                        requires tx < 9, w <= 0xffff_ffff_ffff_ffffu128;
                    assert((tx + 1) * w <= 9 * 0xffff_ffff_ffff_ffffu128) by (nonlinear_arith)
                        requires tx < 9, w <= 0xffff_ffff_ffff_ffffu128;
                }
                let x0 = (tx as u128 * wu / 9) as usize;
                let v1 = (tx as u128 + 1) * wu / 9;
                let x1 = if v1 < x0 as u128 + 1 { x0 + 1 } else if v1 > wu { w } else { v1 as usize };
                let (sum, cnt) = cell_sum(luma, w, y0, y1, x0, x1);
                proof {
                    assert(cnt > 0) by (nonlinear_arith) requires cnt == (y1 - y0) * (x1 - x0), y0 < y1, x0 < x1;
                    assert(sum / cnt <= 255) by (nonlinear_arith) requires sum <= 255 * cnt, cnt > 0;
                }
                let avg = (sum / cnt) as u32;
                row.push(avg);
                tx = tx + 1;
            }
            let mut k: usize = 0;
            while k < 8
                invariant
                    w > 0 && h > 0 && w * h <= luma@.len(),
                    ty < 8,
                    k <= 8,
                    bit == ty * 8 + k,
                    row@.len() == 9,
                    forall|j: int| 0 <= j < 9 ==> row@[j] == cell_avg(luma@, w as int, h as int, ty as int, j),
                    hash == dhash_acc(luma@, w as int, h as int, bit as nat),
                    bit < 64 ==> pow == pow2(bit as nat),
                    bit == 64 ==> pow == pow2(63),
                    pow2(64) == 0x1_0000_0000_0000_0000,
                    pow2(63) == 0x8000_0000_0000_0000,
                decreases 8 - k,
            {
                proof {
                    lemma_dhash_acc_bound(luma@, w as int, h as int, bit as nat);
                    lemma_pow2_unfold((bit + 1) as nat);
                    lemma_pow2_le((bit + 1) as nat, 64);
                    if bit < 63 {
                        lemma_pow2_le((bit + 1) as nat, 63);
                    }
                    assert(bit / 8 == ty && bit % 8 == k);
                }
                if row[k] < row[k + 1] {
                    hash = hash + pow;
                }
                if bit < 63 {
                    pow = pow * 2;
                }
                bit = bit + 1;
                k = k + 1;
            }
            ty = ty + 1;
        }
        hash
    }

    /// The dHash of an RGBA frame: converted to Rec.601 luma, then hashed. A short buffer or
    /// empty frame hashes to 0.
    pub fn dhash_rgba(rgba: &[u8], w: usize, h: usize) -> (r: u64)
        ensures
            r == spec_dhash_rgba(rgba@, w as int, h as int),
    {
        let len = rgba.len();
        let n = match w.checked_mul(h) {
            None => {
                assert(w * h > 0 && rgba@.len() < 4 * (w * h)) by (nonlinear_arith)
                    requires w * h > usize::MAX, rgba@.len() <= usize::MAX;
                return 0;
            },
            Some(n) => n,
        };
        if n == 0 {
            return 0;
        }
        let n4 = match n.checked_mul(4) {
            None => {
                assert(rgba@.len() < 4 * (w * h));
                return 0;
            },
            Some(v) => v,
        };
        if rgba.len() < n4 {
            return 0;
        }
        let mut luma: Vec<u8> = Vec::new();
        let mut i: usize = 0;
        while i < n
            invariant
                n == w * h,
                len == rgba@.len(),
                4 * n <= rgba@.len(),
                i <= n,
                luma@ == rgba_luma(rgba@, w * h).take(i as int),
            decreases n - i,
        {
            assert(i * 4 + 3 < 4 * n) by (nonlinear_arith) requires i < n;
            let r = rgba[i * 4] as u32;
            let g = rgba[i * 4 + 1] as u32;
            let b = rgba[i * 4 + 2] as u32;
            let v = ((r * 299 + g * 587 + b * 114) / 1000) as u8;
            luma.push(v);
            i = i + 1;
            assert(luma@ =~= rgba_luma(rgba@, w * h).take(i as int));
        }
        assert(luma@ =~= rgba_luma(rgba@, w * h));
        Self::dhash(luma.as_slice(), w, h)
    }
}

/// A stateful frame change-gate: remembers the last emitted frame's dHash and reports a new
/// frame as changed when it is the first, or its distance exceeds the threshold.
#[derive(Clone, Debug)]
pub struct FrameGate {
    pub gate: ChangeGate,
    pub last: Option<u64>,
}

/// Whether a frame gate reports `dhash` as a new frame.
pub open spec fn frame_is_new(g: FrameGate, dhash: u64) -> bool {
    match g.last {
        None => true,
        Some(prev) => popcount(prev ^ dhash) > g.gate.frame_threshold,
    }
}

impl FrameGate {
    /// A frame gate with the default threshold and no baseline.
    pub fn default() -> (r: Self)
        ensures
            r.gate.frame_threshold == FRAME_DHASH_THRESHOLD,
            r.last is None,
    {
        FrameGate { gate: ChangeGate::default(), last: None }
    }

    /// A frame gate with an explicit dHash threshold and no baseline.
    pub fn new(threshold: u32) -> (r: Self)
        ensures
            r.gate.frame_threshold == threshold,
            r.last is None,
    {
        FrameGate { gate: ChangeGate::new(threshold), last: None }
    }

    /// Whether `dhash` is a new frame, remembering it only when it is.
    pub fn changed(&mut self, dhash: u64) -> (r: bool)
        ensures
            r == frame_is_new(*old(self), dhash),
            final(self).gate == old(self).gate,
            final(self).last == if r { Some(dhash) } else { old(self).last },
    {
        let changed = match self.last {
            None => true,
            Some(prev) => self.gate.frame_changed(ChangeGate::dhash_distance(prev, dhash)),
        };
        if changed {
            self.last = Some(dhash);
        }
        changed
    }
}

} // verus!

verus! {

/// The sample rate the transcription organ expects.
pub const TARGET_RATE: u32 = 16_000;

/// `n / d` rounded to the nearest integer, halves away from zero (`d > 0`).
pub open spec fn round_div(n: int, d: int) -> int {
    if n >= 0 {
        (n + d / 2) / d
    } else {
        -((-n + d / 2) / d)
    }
}

/// The number of samples a `len`-sample clip at `rate` has at 16 kHz.
pub open spec fn resample_len(len: int, rate: int) -> int {
    len * 16000 / rate
}

/// Output sample `i` of the 16 kHz resampling: the linear interpolation, at source position
/// `i * rate / 16000`, between the two nearest source samples, rounded half away from zero.
pub open spec fn resample_at(s: Seq<i16>, rate: int, i: int) -> i16 {
    let num = i * rate;
    let i0 = num / 16000;
    let r = num % 16000;
    let last = s.len() - 1;
    let i1 = if i0 + 1 < last { i0 + 1 } else { last };
    round_div(s[i0] as int * (16000 - r) + s[i1] as int * r, 16000) as i16
}

/// Linear resampling of mono PCM to 16 kHz; already-16 kHz audio passes through unchanged, and an
/// empty clip or a zero rate gives nothing.
pub open spec fn spec_resample(s: Seq<i16>, rate: int) -> Seq<i16> {
    if rate == 0 || s.len() == 0 {
        seq![]
    } else if rate == 16000 {
        s
    } else {
        Seq::new(resample_len(s.len() as int, rate) as nat, |i: int| resample_at(s, rate, i))
    }
}

proof fn lemma_round_div_16000(n: int)
    ensures
        -8000 <= 16000 * round_div(n, 16000) - n <= 8000,
{
    if n >= 0 {
        let q = (n + 8000) / 16000;
        assert(16000 * q <= n + 8000 < 16000 * q + 16000);
    } else {
        let q = (-n + 8000) / 16000;
        assert(16000 * q <= -n + 8000 < 16000 * q + 16000);
    }
}

/// Resampling interpolates between the two source samples around each output position, weighting
/// the nearer one more: output `i` sits at source position `i * rate / 16000` (whole part `i0`,
/// remainder `r` sixteen-thousandths), and lies within `r / 16000` of the gap to the next source
/// sample from `s[i0]` and within `(16000 - r) / 16000` of it from the next sample (up to half a
/// step of rounding). In particular an output that lands exactly on a source sample copies it.
pub proof fn lemma_resample_weights_the_nearer_sample(s: Seq<i16>, rate: int, i: int)
    requires
        rate > 0,
        rate != 16000,
        s.len() > 0,
        0 <= i < resample_len(s.len() as int, rate),
    ensures
        ({
            let out = spec_resample(s, rate);
            let i0 = i * rate / 16000;
            let r = i * rate % 16000;
            let i1 = if i0 + 1 < s.len() { i0 + 1 } else { s.len() - 1 };
            let gap = if s[i1] >= s[i0] { s[i1] - s[i0] } else { s[i0] - s[i1] };
            let off0 = if out[i] >= s[i0] { out[i] - s[i0] } else { s[i0] - out[i] };
            let off1 = if out[i] >= s[i1] { out[i] - s[i1] } else { s[i1] - out[i] };
            &&& 0 <= i0 < s.len()
            &&& 16000 * off0 <= r * gap + 8000
            &&& 16000 * off1 <= (16000 - r) * gap + 8000
            &&& (r == 0 ==> out[i] == s[i0])
        }),
{
    let out = spec_resample(s, rate);
    let num = i * rate;
    let len = s.len() as int;
    assert(num < len * 16000) by (nonlinear_arith)
        requires i < (len * 16000) / rate, rate > 0, i >= 0, num == i * rate;
    assert(num >= 0) by (nonlinear_arith)
        requires i >= 0, rate > 0, num == i * rate;
    let i0 = num / 16000;
    let r = num % 16000;
    assert(0 <= i0 < s.len());
    let last = s.len() - 1;
    let i1 = if i0 + 1 < last { i0 + 1 } else { last };
    assert(i1 == if i0 + 1 < s.len() { i0 + 1 } else { s.len() - 1 });
    let a = s[i0] as int;
    let b = s[i1] as int;
    let n = a * (16000 - r) + b * r;
    assert(n == 16000 * a + r * (b - a)) by (nonlinear_arith)
        requires n == a * (16000 - r) + b * r;
    lemma_round_div_16000(n);
    let q = round_div(n, 16000);
    assert(-32768 * 16000 <= a * (16000 - r) <= 32767 * 16000) by (nonlinear_arith)
        requires -32768 <= a <= 32767, 0 <= r < 16000;
    assert(-32768 * 16000 <= b * r <= 32767 * 16000) by (nonlinear_arith)
        requires -32768 <= b <= 32767, 0 <= r < 16000;
    assert(-32768 * 16000 <= n <= 32767 * 16000) by (nonlinear_arith)
        requires
            n == a * (16000 - r) + b * r,
            -32768 <= a <= 32767,
            -32768 <= b <= 32767,
            0 <= r < 16000;
    assert(-32768 <= q <= 32767);
    assert(out[i] == resample_at(s, rate, i));
    assert(out[i] as int == q);
    let gap = if b >= a { b - a } else { a - b };
    assert(r * (b - a) <= r * gap && -(r * gap) <= r * (b - a)) by (nonlinear_arith)
        requires gap == if b >= a { b - a } else { a - b }, r >= 0;
    assert((16000 - r) * (a - b) <= (16000 - r) * gap && -((16000 - r) * gap) <= (16000 - r) * (a - b))
        by (nonlinear_arith)
        requires gap == if b >= a { b - a } else { a - b }, r < 16000;
    assert(n == 16000 * b + (16000 - r) * (a - b)) by (nonlinear_arith)
        requires n == 16000 * a + r * (b - a);
    if r == 0 {
        assert(n == 16000 * a);
        assert(q == a);
    }
}

/// Linearly resample mono `i16` PCM to 16 kHz (exact integer interpolation).
pub fn resample_to_16k(samples: &[i16], rate: u32) -> (out: Vec<i16>)
    ensures
        out@ == spec_resample(samples@, rate as int),
{
    let len = samples.len();
    if rate == 0 || len == 0 {
        return Vec::new();
    }
    if rate == TARGET_RATE {
        let mut v: Vec<i16> = Vec::new();
        let mut k: usize = 0;
        while k < len
            invariant
                len == samples@.len(),
                k <= len,
                v@ == samples@.take(k as int),
            decreases len - k,
        {
            v.push(samples[k]);
            k = k + 1;
            assert(v@ =~= samples@.take(k as int));
        }
        assert(v@ =~= samples@);
        return v;
    }
    proof {
        assert(len * 16000 <= 0xffff_ffff_ffff_ffffu128 * 16000) by (nonlinear_arith)
            requires len <= 0xffff_ffff_ffff_ffffu128;
        assert(len * 16000 / (rate as int) <= len * 16000) by (nonlinear_arith) requires rate >= 1;
    }
    let out_len_wide: u128 = (len as u128) * 16000 / (rate as u128);
    let mut out: Vec<i16> = Vec::new();
    let mut i: u128 = 0;
    let last = len - 1;
    while i < out_len_wide
        invariant
            len == samples@.len(),
            len > 0,
            last == len - 1,
            rate > 0,
            out_len_wide == resample_len(len as int, rate as int),
            i <= out_len_wide,
            out@ == Seq::new(i as nat, |j: int| resample_at(samples@, rate as int, j)),
        decreases out_len_wide - i,
    {
        proof {
            assert(i * rate < len * 16000) by (nonlinear_arith)
                requires i < len * 16000 / (rate as int), rate > 0;
            assert(i * rate / 16000 < len) by (nonlinear_arith)
                requires i * rate < len * 16000;
            assert(i * rate <= 0xffff_ffff_ffff_ffffu128 * 16000) by (nonlinear_arith)
                requires i * rate < len * 16000, len <= 0xffff_ffff_ffff_ffffu128;
        }
        let num: u128 = i * (rate as u128);
        let i0 = (num / 16000) as usize;
        let r = (num % 16000) as i64;
        let i1 = if i0 + 1 < last { i0 + 1 } else { last };
        let s0 = samples[i0] as i64;
        let s1 = samples[i1] as i64;
        proof {
            assert(-32768 * 16000 <= s0 * (16000 - r) <= 32767 * 16000) by (nonlinear_arith)
                requires -32768 <= s0 <= 32767, 0 <= r < 16000;
            assert(-32768 * 16000 <= s1 * r <= 32767 * 16000) by (nonlinear_arith)
                requires -32768 <= s1 <= 32767, 0 <= r < 16000;
            assert(s0 * (16000 - r) + s1 * r <= 32767 * 16000) by (nonlinear_arith)
                requires s0 <= 32767, s1 <= 32767, 0 <= r < 16000;
            assert(s0 * (16000 - r) + s1 * r >= -32768 * 16000) by (nonlinear_arith)
                requires s0 >= -32768, s1 >= -32768, 0 <= r < 16000;
        }
        let n = s0 * (16000 - r) + s1 * r;
        let v: i64 = if n >= 0 { (n + 8000) / 16000 } else { -((-n + 8000) / 16000) };
        out.push(v as i16);
        proof {
            assert(v as i16 == resample_at(samples@, rate as int, i as int));
            assert(out@ =~= Seq::new((i + 1) as nat, |j: int| resample_at(samples@, rate as int, j)));
        }
        i = i + 1;
    }
    out
}

} // verus!

verus! {

/// The default microphone. Capturing from the device is the wiring layer's; the frame layout of
/// what it delivers is read here.
pub struct Microphone;

/// The number of interleaved frames of `channels` samples in `n` samples (a short last frame
/// counts).
pub open spec fn frame_count(n: nat, channels: nat) -> nat
    recommends
        channels > 0,
{
    n / channels + if n % channels == 0 { 0nat } else { 1nat }
}

/// The first sample of each interleaved frame of `channels` samples.
pub open spec fn first_channel_of(data: Seq<i16>, channels: nat) -> Seq<i16>
    recommends
        channels > 0,
{
    Seq::new(frame_count(data.len(), channels), |k: int| data[k * channels])
}

proof fn lemma_frame_start(n: int, c: int, k: int)
    requires
        c > 0,
        n >= 0,
        0 <= k < n / c + if n % c == 0 { 0int } else { 1int },
    ensures
        0 <= k * c < n,
{
    vstd::arithmetic::div_mod::lemma_fundamental_div_mod(n, c);
    let q = n / c;
    let r = n % c;
    assert(0 <= r < c);
    assert(0 <= k * c) by (nonlinear_arith)
        requires
            k >= 0,
            c > 0,
    ;
    if r == 0 {
        assert(k * c < n) by (nonlinear_arith)
            requires
                n == c * q + r,
                r == 0,
                k < q,
                c > 0,
        ;
    } else {
        assert(k * c < n) by (nonlinear_arith)
            requires
                n == c * q + r,
                r > 0,
                k <= q,
                c > 0,
        ;
    }
}

impl Microphone {
    /// Down-mix interleaved capture frames to mono by keeping each frame's first channel.
    pub fn first_channel(data: &Vec<i16>, channels: usize) -> (r: Vec<i16>)
        requires
            channels > 0,
        ensures
            r@ == first_channel_of(data@, channels as nat),
    {
        let n = data.len();
        let q = n / channels;
        let frames: usize = if n % channels == 0 {
            q
        } else {
            proof {
                if channels == 1 {
                    assert(n % 1 == 0) by (nonlinear_arith);
                }
                assert(q < usize::MAX) by (nonlinear_arith)
                    requires
                        channels >= 2,
                        q == n / channels,
                        n <= usize::MAX,
                ;
            }
            q + 1
        };
        let mut r: Vec<i16> = Vec::new();
        let mut k: usize = 0;
        while k < frames
            invariant
                n == data@.len(),
                channels > 0,
                frames == frame_count(n as nat, channels as nat),
                k <= frames,
                r@.len() == k,
                forall|j: int| 0 <= j < k ==> #[trigger] r@[j] == data@[j * channels],
            decreases frames - k,
        {
            proof {
                lemma_frame_start(n as int, channels as int, k as int);
            }
            let pos = k * channels;
            r.push(data[pos]);
            k = k + 1;
        }
        assert(r@ =~= first_channel_of(data@, channels as nat));
        r
    }
}

} // verus!

verus! {

/// The screen. Enumerating monitors and capturing an image are the wiring layer's; which monitor
/// is captured is decided here.
pub struct ScreenCapture;

/// The first index whose flag is set, at or after `i`.
pub open spec fn first_set_from(flags: Seq<bool>, i: int) -> Option<int>
    decreases flags.len() - i,
{
    if i < 0 || i >= flags.len() {
        None
    } else if flags[i] {
        Some(i)
    } else {
        first_set_from(flags, i + 1)
    }
}

impl ScreenCapture {
    /// The monitor to capture, given which monitors report themselves primary (an unreadable
    /// report counts as not primary): the first primary one, else the first one; none is refused.
    pub fn pick_monitor(primary: &Vec<bool>) -> (r: Result<usize, crate::errors::KeelError>)
        ensures
            match first_set_from(primary@, 0) {
                Some(i) => r == Ok::<usize, crate::errors::KeelError>(i as usize),
                None => if primary@.len() > 0 {
                    r == Ok::<usize, crate::errors::KeelError>(0usize)
                } else {
                    r matches Err(crate::errors::KeelError::Other(m)) && m@ == "screen: no monitor found"@
                },
            },
    {
        let mut i: usize = 0;
        while i < primary.len()
            invariant
                i <= primary@.len(),
                first_set_from(primary@, 0) == first_set_from(primary@, i as int),
            decreases primary@.len() - i,
        {
            if primary[i] {
                return Ok(i);
            }
            i = i + 1;
        }
        if primary.len() > 0 {
            Ok(0)
        } else {
            Err(crate::errors::KeelError::Other(String::from_str("screen: no monitor found")))
        }
    }
}

} // verus!

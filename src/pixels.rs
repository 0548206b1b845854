use vstd::prelude::*;
use vstd::arithmetic::power2::{pow2, lemma2_to64, lemma_pow2_adds, lemma_pow2_pos};
use vstd::arithmetic::div_mod::{lemma_fundamental_div_mod_converse, lemma_div_denominator};
use vstd::bits::{lemma_u32_shr_is_div, lemma_u32_low_bits_mask_is_mod, low_bits_mask};
use crate::constants::GRAYSCALE_THRESHOLD;
use crate::models::{BlueprintError, CombinatorOutput, Signal, SignalRef};

verus! {

/// A decoded frame: `channels` bytes per pixel (1 for luma, 3 for red, green,
/// blue), rows top to bottom, pixels left to right.
#[derive(Debug)]
pub struct Frame {
    pub width: u32,
    pub height: u32,
    pub channels: u32,
    pub pixels: Vec<u8>,
}

impl Frame {
    pub open spec fn wf(&self) -> bool {
        &&& (self.channels == 1 || self.channels == 3)
        &&& self.pixels@.len() == self.width * self.height * self.channels
    }

    /// Number of pixels.
    pub open spec fn area(&self) -> int {
        self.width * self.height
    }
}

/// Three channels packed into one 24-bit value: red high, blue low.
pub open spec fn rgb_value(r: u8, g: u8, b: u8) -> int {
    r * 65536 + g * 256 + b
}

/// Packs a color into one integer, red in bits 16 to 23, green in 8 to 15 and
/// blue in 0 to 7.
pub fn rgb_to_int(r: u8, g: u8, b: u8) -> (v: u32)
    ensures
        v == rgb_value(r, g, b),
{
    let r32 = r as u32;
    let g32 = g as u32;
    let b32 = b as u32;
    let v = (r32 << 16) | (g32 << 8) | b32;
    assert(v == r32 * 65536 + g32 * 256 + b32) by (bit_vector)
        requires
            r32 < 256,
            g32 < 256,
            b32 < 256,
            v == (r32 << 16) | (g32 << 8) | b32,
    ;
    v
}

/// The packed color of pixel `i` of `pixels` with `channels` bytes per pixel;
/// a luma pixel counts as gray.
pub open spec fn color_value(channels: u32, pixels: Seq<u8>, i: int) -> int {
    if channels == 3 {
        rgb_value(pixels[3 * i], pixels[3 * i + 1], pixels[3 * i + 2])
    } else {
        rgb_value(pixels[i], pixels[i], pixels[i])
    }
}

/// The output that carries pixel `i` of a full-color frame.
pub open spec fn color_output(channels: u32, pixels: Seq<u8>, i: int) -> CombinatorOutput {
    CombinatorOutput {
        copy_count_from_input: false,
        constant: Some(color_value(channels, pixels, i) as i32),
        signal: SignalRef::Catalog(i as usize),
    }
}

/// The outputs of a full-color frame of `area` pixels, one per pixel in
/// row-major order.
pub open spec fn color_outputs(channels: u32, pixels: Seq<u8>, area: int) -> Seq<CombinatorOutput> {
    Seq::new(area as nat, |i: int| color_output(channels, pixels, i))
}

/// Index in `f.pixels` of byte `t` of the crop of `width` columns from `left`.
pub open spec fn crop_source(f: Frame, left: int, width: int, t: int) -> int {
    let p = t / (f.channels as int);
    ((p / width) * f.width + left + p % width) * f.channels + t % (f.channels as int)
}

/// The bytes of the crop of `width` columns from column `left`.
pub open spec fn crop_pixels(f: Frame, left: int, width: int) -> Seq<u8> {
    Seq::new(
        (width * f.height * f.channels) as nat,
        |t: int| f.pixels@[crop_source(f, left, width, t)],
    )
}

proof fn lemma_crop_index(f: Frame, left: int, width: int, y: int, x: int, k: int)
    requires
        f.wf(),
        0 < width,
        0 <= left,
        left + width <= f.width,
        0 <= y < f.height,
        0 <= x < width,
        0 <= k < f.channels,
    ensures
        crop_source(f, left, width, (y * width + x) * f.channels + k) == (y * f.width + left + x)
            * f.channels + k,
        0 <= (y * f.width + left + x) * f.channels + k < f.pixels@.len(),
        0 <= (y * width + x) * f.channels + k < width * f.height * f.channels,
        0 <= y * f.width <= y * f.width + left + x <= (y * f.width + left + x) * f.channels,
{
    let c = f.channels as int;
    let p = y * width + x;
    lemma_fundamental_div_mod_converse(p * c + k, c, p, k);
    lemma_fundamental_div_mod_converse(p, width, y, x);
    assert(0 <= y * f.width + left + x < f.width * f.height) by (nonlinear_arith)
        requires
            0 <= y < f.height,
            0 <= left + x < f.width,
    ;
    assert(0 <= (y * f.width + left + x) * c + k < f.width * f.height * c) by (nonlinear_arith)
        requires
            0 <= y * f.width + left + x < f.width * f.height,
            0 <= k < c,
    ;
    assert(0 <= y * f.width <= y * f.width + left + x <= (y * f.width + left + x) * c)
        by (nonlinear_arith)
        requires
            0 <= y,
            0 <= left,
            0 <= x,
            c >= 1,
            f.width >= 0,
    ;
    assert(0 <= p < width * f.height) by (nonlinear_arith)
        requires
            0 <= y < f.height,
            0 <= x < width,
            p == y * width + x,
    ;
    assert(0 <= p * c + k < width * f.height * c) by (nonlinear_arith)
        requires
            0 <= p < width * f.height,
            0 <= k < c,
    ;
}

impl Frame {
    /// The columns `left .. left + width` of the frame, all rows kept.
    pub fn crop(&self, left: u32, width: u32) -> (r: Frame)
        requires
            self.wf(),
            0 < width,
            left + width <= self.width,
        ensures
            r.wf(),
            r.width == width,
            r.height == self.height,
            r.channels == self.channels,
            r.pixels@ == crop_pixels(*self, left as int, width as int),
    {
        let c = self.channels;
        let total = self.pixels.len();
        let mut pixels: Vec<u8> = Vec::new();
        let ghost target = crop_pixels(*self, left as int, width as int);
        let mut y: u32 = 0;
        while y < self.height
            invariant
                self.wf(),
                0 < width,
                left + width <= self.width,
                c == self.channels,
                total == self.pixels@.len(),
                y <= self.height,
                target == crop_pixels(*self, left as int, width as int),
                pixels@.len() == y * width * c,
                pixels@ =~= target.take(pixels@.len() as int),
            decreases self.height - y,
        {
            let mut x: u32 = 0;
            while x < width
                invariant
                    self.wf(),
                    0 < width,
                    left + width <= self.width,
                    c == self.channels,
                    total == self.pixels@.len(),
                    y < self.height,
                    x <= width,
                    target == crop_pixels(*self, left as int, width as int),
                    pixels@.len() == (y * width + x) * c,
                    pixels@ =~= target.take(pixels@.len() as int),
                decreases width - x,
            {
                let mut k: u32 = 0;
                while k < c
                    invariant
                        self.wf(),
                        0 < width,
                        left + width <= self.width,
                        c == self.channels,
                        total == self.pixels@.len(),
                        y < self.height,
                        x < width,
                        k <= c,
                        target == crop_pixels(*self, left as int, width as int),
                        pixels@.len() == (y * width + x) * c + k,
                        pixels@ =~= target.take(pixels@.len() as int),
                    decreases c - k,
                {
                    proof {
                        lemma_crop_index(*self, left as int, width as int, y as int, x as int, k as int);
                    }
                    let idx = ((y as usize) * (self.width as usize) + (left as usize) + (x as usize))
                        * (c as usize) + (k as usize);
                    pixels.push(self.pixels[idx]);
                    assert(pixels@ =~= target.take(pixels@.len() as int));
                    k = k + 1;
                }
                assert((y * width + x) * c + c == (y * width + (x + 1)) * c) by (nonlinear_arith);
                x = x + 1;
            }
            assert((y * width + width) * c == (y + 1) * width * c) by (nonlinear_arith);
            y = y + 1;
        }
        assert(pixels@.len() == width * self.height * c) by (nonlinear_arith)
            requires
                pixels@.len() == y * width * c,
                y == self.height,
        ;
        assert(pixels@ =~= target);
        Frame { width, height: self.height, channels: c, pixels }
    }
}

/// Encodes a full-color frame: one output per pixel, carrying its packed color
/// on the catalog signal of the same index.
pub fn frame_to_outputs(frame: &Frame, signals: &Vec<Signal>) -> (r: Result<
    Vec<CombinatorOutput>,
    BlueprintError,
>)
    requires
        frame.wf(),
    ensures
        r is Err <==> frame.area() > signals@.len(),
        r is Err ==> r == Err::<Vec<CombinatorOutput>, BlueprintError>(
            BlueprintError::InsufficientSignalBudget,
        ),
        r matches Ok(o) ==> o@ == color_outputs(frame.channels, frame.pixels@, frame.area()),
{
    let c = frame.channels as usize;
    let total = frame.pixels.len();
    assert(total == frame.area() * c) by (nonlinear_arith)
        requires
            total == frame.width * frame.height * frame.channels,
            c == frame.channels,
    ;
    let n = total / c;
    assert(n == frame.area()) by (nonlinear_arith)
        requires
            total == frame.area() * c,
            n == total / c,
            c > 0,
    ;
    if n > signals.len() {
        return Err(BlueprintError::InsufficientSignalBudget);
    }
    let mut outputs: Vec<CombinatorOutput> = Vec::new();
    let mut i: usize = 0;
    while i < n
        invariant
            frame.wf(),
            c == frame.channels,
            n == frame.area(),
            total == n * c,
            total == frame.pixels@.len(),
            i <= n,
            outputs@ =~= color_outputs(c as u32, frame.pixels@, n as int).take(i as int),
        decreases n - i,
    {
        let v = if c == 3 {
            rgb_to_int(frame.pixels[3 * i], frame.pixels[3 * i + 1], frame.pixels[3 * i + 2])
        } else {
            rgb_to_int(frame.pixels[i], frame.pixels[i], frame.pixels[i])
        };
        outputs.push(
            CombinatorOutput {
                copy_count_from_input: false,
                constant: Some(v as i32),
                signal: SignalRef::Catalog(i),
            },
        );
        assert(outputs@ =~= color_outputs(c as u32, frame.pixels@, n as int).take(i + 1));
        i = i + 1;
    }
    Ok(outputs)
}

/// The sample that a frame contributes at one pixel: the lit bit, the top
/// nibble or the whole luma byte.
pub open spec fn gray_sample(bits: u32, luma: u8) -> nat {
    if bits == 1 {
        if luma >= 128 {
            1
        } else {
            0
        }
    } else if bits == 4 {
        (luma / 16) as nat
    } else {
        luma as nat
    }
}

/// The samples of `lumas` laid side by side, the first in the lowest `bits` bits.
pub open spec fn pack_samples(bits: u32, lumas: Seq<u8>) -> nat
    decreases lumas.len(),
{
    if lumas.len() == 0 {
        0
    } else {
        gray_sample(bits, lumas[0]) + pow2(bits as nat) * pack_samples(bits, lumas.drop_first())
    }
}

/// The lumas of pixel `i` in each frame of a group.
pub open spec fn lumas_at(pixels: Seq<Seq<u8>>, i: int) -> Seq<u8> {
    Seq::new(pixels.len(), |j: int| pixels[j][i])
}

/// The output that carries pixel `i` of a group of grayscale frames.
pub open spec fn packed_output(pixels: Seq<Seq<u8>>, bits: u32, i: int) -> CombinatorOutput {
    CombinatorOutput {
        copy_count_from_input: false,
        constant: Some(pack_samples(bits, lumas_at(pixels, i)) as u32 as i32),
        signal: SignalRef::Catalog(i as usize),
    }
}

/// The outputs of a group of grayscale frames of `area` pixels, one per pixel.
pub open spec fn packed_outputs(pixels: Seq<Seq<u8>>, area: int, bits: u32) -> Seq<CombinatorOutput> {
    Seq::new(area as nat, |i: int| packed_output(pixels, bits, i))
}

/// The pixel bytes of each frame.
pub open spec fn frame_pixels(frames: Seq<Frame>) -> Seq<Seq<u8>> {
    frames.map_values(|f: Frame| f.pixels@)
}

/// A valid sample depth.
pub open spec fn valid_bits(bits: u32) -> bool {
    bits == 1 || bits == 4 || bits == 8
}

/// Frames that can be packed together: all luma, of one size.
pub open spec fn packable(frames: Seq<Frame>, bits: u32) -> bool {
    &&& valid_bits(bits)
    &&& bits * frames.len() <= 32
    &&& forall|j: int|
        0 <= j < frames.len() ==> {
            &&& #[trigger] frames[j].wf()
            &&& frames[j].channels == 1
            &&& frames[j].width == frames[0].width
            &&& frames[j].height == frames[0].height
        }
}

proof fn lemma_sample_bound(bits: u32, luma: u8)
    requires
        valid_bits(bits),
    ensures
        gray_sample(bits, luma) < pow2(bits as nat),
{
    lemma2_to64();
}

/// The packed word of `n` samples is below `2^(bits * n)`.
proof fn lemma_pack_bound(bits: u32, lumas: Seq<u8>)
    requires
        valid_bits(bits),
    ensures
        pack_samples(bits, lumas) < pow2((bits * lumas.len()) as nat),
    decreases lumas.len(),
{
    if lumas.len() == 0 {
        lemma2_to64();
    } else {
        let rest = lumas.drop_first();
        lemma_pack_bound(bits, rest);
        lemma_sample_bound(bits, lumas[0]);
        lemma_pow2_adds(bits as nat, (bits * rest.len()) as nat);
        assert((bits * lumas.len()) as nat == bits as nat + (bits * rest.len()) as nat)
            by (nonlinear_arith)
            requires
                lumas.len() == rest.len() + 1,
        ;
        let s = gray_sample(bits, lumas[0]);
        let p = pow2(bits as nat);
        let q = pow2((bits * rest.len()) as nat);
        let w = pack_samples(bits, rest);
        assert(s + p * w < p * q) by (nonlinear_arith)
            requires
                s < p,
                w < q,
        ;
    }
}

/// Shifting the packed word right by `bits * j` and masking its low `bits`
/// bits gives back the sample of frame `j`.
pub proof fn lemma_unpack_recovers_sample(bits: u32, lumas: Seq<u8>, j: int)
    requires
        valid_bits(bits),
        bits * lumas.len() <= 32,
        0 <= j < lumas.len(),
    ensures
        ((pack_samples(bits, lumas) as u32) >> ((bits as int * j) as u32)) & ((pow2(bits as nat)
            - 1) as u32) == gray_sample(bits, lumas[j]),
{
    lemma2_to64();
    lemma_pack_bound(bits, lumas);
    assert(pow2((bits * lumas.len()) as nat) <= pow2(32)) by {
        if bits * lumas.len() < 32 {
            vstd::arithmetic::power2::lemma_pow2_strictly_increases(
                (bits * lumas.len()) as nat,
                32,
            );
        }
    }
    let w = pack_samples(bits, lumas);
    let w32 = w as u32;
    assert(w32 == w);
    assert(bits as int * j <= 32 - bits) by (nonlinear_arith)
        requires
            bits * lumas.len() <= 32,
            0 <= j < lumas.len(),
            bits >= 1,
    ;
    let f = (bits as int * j) as u32;
    lemma_u32_shr_is_div(w32, f);
    let shifted = w32 >> f;
    lemma_u32_low_bits_mask_is_mod(shifted, bits as nat);
    assert(low_bits_mask(bits as nat) == pow2(bits as nat) - 1);
    lemma_unpack_div_mod(bits, lumas, j);
}

proof fn lemma_unpack_div_mod(bits: u32, lumas: Seq<u8>, j: int)
    requires
        valid_bits(bits),
        0 <= j < lumas.len(),
    ensures
        (pack_samples(bits, lumas) as int / pow2((bits * j) as nat) as int) % (pow2(bits as nat) as int)
            == gray_sample(bits, lumas[j]),
    decreases j,
{
    let p = pow2(bits as nat) as int;
    lemma_pow2_pos(bits as nat);
    let rest = lumas.drop_first();
    let s = gray_sample(bits, lumas[0]) as int;
    let w = pack_samples(bits, lumas) as int;
    let wr = pack_samples(bits, rest) as int;
    lemma_sample_bound(bits, lumas[0]);
    vstd::arithmetic::mul::lemma_mul_is_commutative(p, wr);
    assert(w == wr * p + s);
    lemma_fundamental_div_mod_converse(w, p, wr, s);
    if j == 0 {
        lemma2_to64();
        assert(w / 1 == w);
    } else {
        lemma_unpack_div_mod(bits, rest, j - 1);
        let e = (bits * (j - 1)) as nat;
        lemma_pow2_adds(bits as nat, e);
        assert((bits * j) as nat == bits as nat + e) by (nonlinear_arith)
            requires
                j >= 1,
                e == bits * (j - 1),
        ;
        lemma_pow2_pos(e);
        lemma_div_denominator(w, p, pow2(e) as int);
        assert(rest[j - 1] == lumas[j]);
    }
}

/// Packs a group of grayscale frames: at each pixel the sample of frame `j`
/// stands at bit offset `bits * j` of one 32-bit word, read as signed.
pub fn pack_grayscale_frames_to_outputs(
    frames: &Vec<Frame>,
    signals: &Vec<Signal>,
    grayscale_bits: u32,
) -> (r: Result<Vec<CombinatorOutput>, BlueprintError>)
    requires
        packable(frames@, grayscale_bits),
    ensures
        frames@.len() == 0 ==> r == Err::<Vec<CombinatorOutput>, BlueprintError>(
            BlueprintError::EmptyInput,
        ),
        frames@.len() > 0 ==> (r is Err <==> frames@[0].area() > signals@.len()),
        frames@.len() > 0 && r is Err ==> r == Err::<Vec<CombinatorOutput>, BlueprintError>(
            BlueprintError::InsufficientSignalBudget,
        ),
        r matches Ok(o) ==> o@ == packed_outputs(
            frame_pixels(frames@),
            frames@[0].area(),
            grayscale_bits,
        ),
{
    if frames.len() == 0 {
        return Err(BlueprintError::EmptyInput);
    }
    let bits = grayscale_bits;
    let nf = frames.len();
    assert(frames@[0].wf());
    let n = frames[0].pixels.len();
    assert(n == frames@[0].area());
    if n > signals.len() {
        return Err(BlueprintError::InsufficientSignalBudget);
    }
    proof {
        lemma2_to64();
    }
    let radix: u64 = if bits == 1 {
        2
    } else if bits == 4 {
        16
    } else {
        256
    };
    let mut outputs: Vec<CombinatorOutput> = Vec::new();
    let mut i: usize = 0;
    while i < n
        invariant
            packable(frames@, bits),
            nf == frames@.len(),
            nf > 0,
            n == frames@[0].area(),
            radix == pow2(bits as nat),
            i <= n,
            outputs@ =~= packed_outputs(frame_pixels(frames@), n as int, bits).take(i as int),
        decreases n - i,
    {
        let ghost lumas = lumas_at(frame_pixels(frames@), i as int);
        let mut acc: u64 = 0;
        let mut j: usize = nf;
        proof {
            assert(lumas.skip(nf as int) =~= Seq::<u8>::empty());
            lemma2_to64();
            if bits * nf < 32 {
                vstd::arithmetic::power2::lemma_pow2_strictly_increases((bits * nf) as nat, 32);
            }
        }
        while j > 0
            invariant
                packable(frames@, bits),
                nf == frames@.len(),
                i < n,
                n == frames@[0].area(),
                radix == pow2(bits as nat),
                lumas == lumas_at(frame_pixels(frames@), i as int),
                j <= nf,
                acc == pack_samples(bits, lumas.skip(j as int)),
                acc < pow2((bits * (nf - j)) as nat),
                pow2((bits * nf) as nat) <= pow2(32),
            decreases j,
        {
            j = j - 1;
            assert(frames@[j as int].wf());
            let luma = frames[j].pixels[i];
            let sample: u64 = if bits == 1 {
                if luma >= GRAYSCALE_THRESHOLD {
                    1
                } else {
                    0
                }
            } else if bits == 4 {
                (luma / 16) as u64
            } else {
                luma as u64
            };
            proof {
                let tail = lumas.skip(j as int);
                assert(tail[0] == luma);
                assert(tail.drop_first() =~= lumas.skip(j + 1));
                assert(sample == gray_sample(bits, luma));
                vstd::arithmetic::mul::lemma_mul_is_commutative(acc as int, radix as int);
                assert(sample as int + acc as int * radix as int == pack_samples(bits, tail));
                lemma_pack_bound(bits, tail);
                assert(tail.len() == nf - j);
                if bits * (nf - j) < bits * nf {
                    vstd::arithmetic::power2::lemma_pow2_strictly_increases(
                        (bits * (nf - j)) as nat,
                        (bits * nf) as nat,
                    );
                }
                vstd::arithmetic::power2::lemma2_to64();
                assert(bits * (nf - j) <= bits * nf) by (nonlinear_arith)
                    requires
                        j <= nf,
                ;
            }
            acc = sample + acc * radix;
        }
        assert(lumas.skip(0) =~= lumas);
        outputs.push(
            CombinatorOutput {
                copy_count_from_input: false,
                constant: Some(acc as u32 as i32),
                signal: SignalRef::Catalog(i),
            },
        );
        assert(outputs@ =~= packed_outputs(frame_pixels(frames@), n as int, bits).take(i + 1));
        i = i + 1;
    }
    Ok(outputs)
}

} // verus!

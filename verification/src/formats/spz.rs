//! The compressed, quantized container: a 16-byte header and six component
//! buffers, gzip-compressed as one stream.

use crate::encoding::{gather, le_bytes, lemma_gather_fixed_width, lemma_gather_step, push_le};
use crate::error::{io_error_text, ConversionError};
use crate::scene::{Exporter, GaussianSplat, Importer, Scene, SplatView};
use crate::single::{is_number, magnitude, INFINITY_BITS};
use vstd::prelude::*;
use vstd::string::*;

verus! {

pub struct SpzV2Exporter;

/// The four magic bytes, read as a little-endian word.
pub const MAGIC: u32 = 0x5053474e;

/// The container version whose coordinates are 24-bit fixed-point numbers.
pub const VERSION: u32 = 2;

/// The degree of the spherical harmonics a container holds.
pub const SH_DEGREE: u8 = 3;

/// The fewest fractional bits a container is written with.
pub const MIN_FRACTIONAL_BITS: u8 = 4;

/// The most fractional bits a container is written with.
pub const MAX_FRACTIONAL_BITS: u8 = 20;

/// The bit pattern of the single-precision number nearest to 1e-12: at or
/// below it a scene counts as lying in the origin.
pub const ORIGIN_BITS: u32 = 0x2b8c_bccc;

/// A splat whose scalars have been scaled and rounded to integers, ready to
/// be cut down to bytes.
#[derive(Debug, Clone)]
pub struct QuantizedSplat {
    /// Each coordinate times two to the power of the fractional bits, rounded.
    pub position: [i32; 3],
    /// Opacity on the scale 0 to 255, rounded.
    pub alpha: i32,
    /// Base colour per channel, rounded; `None` where the scaled value is
    /// not finite.
    pub color: [Option<i32>; 3],
    /// Scale per axis, rounded.
    pub scale: [i32; 3],
    /// The x, y and z of the rotation, rounded; `None` where the scaled
    /// value is not finite.
    pub rotation: [Option<i32>; 3],
    /// Higher-order colour coefficients, channel after channel, rounded;
    /// `None` where the scaled value is not finite.
    pub sh_rest: Vec<Option<i32>>,
}

/// A scene ready to be written: its splats as integers, and the number of
/// fractional bits that their coordinates were scaled with.
#[derive(Debug, Clone)]
pub struct QuantizedScene {
    pub fractional_bits: u8,
    pub splats: Vec<QuantizedSplat>,
}

/// `v` cut to the range of a byte.
pub open spec fn clamp_byte(v: int) -> u8 {
    if v < 0 {
        0u8
    } else if v > 255 {
        255u8
    } else {
        v as u8
    }
}

/// The byte of a rounded scalar: 0 where it is not finite.
pub open spec fn rounded_byte(r: Option<i32>) -> u8 {
    match r {
        Some(v) => clamp_byte(v as int),
        None => 0u8,
    }
}

/// The low 24 bits of `v` in two's complement, as three bytes, least
/// significant first.
pub open spec fn fixed24(v: i32) -> Seq<u8> {
    let low = (v as int) % 0x100_0000;
    seq![(low % 256) as u8, (low / 256 % 256) as u8, (low / 65536) as u8]
}

/// The nine position bytes of a splat.
pub open spec fn position_bytes(p: QuantizedSplat) -> Seq<u8> {
    fixed24(p.position[0]) + fixed24(p.position[1]) + fixed24(p.position[2])
}

/// The alpha byte of a splat.
pub open spec fn alpha_bytes(p: QuantizedSplat) -> Seq<u8> {
    seq![clamp_byte(p.alpha as int)]
}

/// The three colour bytes of a splat.
pub open spec fn color_bytes(p: QuantizedSplat) -> Seq<u8> {
    seq![rounded_byte(p.color[0]), rounded_byte(p.color[1]), rounded_byte(p.color[2])]
}

/// The three scale bytes of a splat.
pub open spec fn scale_bytes(p: QuantizedSplat) -> Seq<u8> {
    seq![
        clamp_byte(p.scale[0] as int),
        clamp_byte(p.scale[1] as int),
        clamp_byte(p.scale[2] as int),
    ]
}

/// The three rotation bytes of a splat.
pub open spec fn rotation_bytes(p: QuantizedSplat) -> Seq<u8> {
    seq![rounded_byte(p.rotation[0]), rounded_byte(p.rotation[1]), rounded_byte(p.rotation[2])]
}

/// The byte of the coefficient at `index`; a coefficient the splat does not
/// hold counts as zero, whose byte is 128.
pub open spec fn sh_byte(sh_rest: Seq<Option<i32>>, index: int) -> u8 {
    if 0 <= index < sh_rest.len() {
        rounded_byte(sh_rest[index])
    } else {
        128u8
    }
}

/// The 45 higher-order bytes of a splat: for each of the 15 coefficients in
/// turn, its R, G and B byte.
pub open spec fn sh_bytes(p: QuantizedSplat) -> Seq<u8> {
    Seq::new(45, |j: int| sh_byte(p.sh_rest@, (j % 3) * 15 + j / 3))
}

/// The 16 bytes that open the stream.
pub open spec fn header_bytes(count: nat, fractional_bits: u8) -> Seq<u8> {
    le_bytes(MAGIC) + le_bytes(VERSION) + le_bytes((count % 0x1_0000_0000) as u32)
        + seq![SH_DEGREE, fractional_bits, 0u8, 0u8]
}

/// The whole stream before compression: the header, then all positions,
/// all alphas, all colours, all scales, all rotations and all higher-order
/// coefficients.
pub open spec fn payload_bytes(points: Seq<QuantizedSplat>, fractional_bits: u8) -> Seq<u8> {
    header_bytes(points.len(), fractional_bits) + gather(
        points,
        |p: QuantizedSplat| position_bytes(p),
    ) + gather(points, |p: QuantizedSplat| alpha_bytes(p)) + gather(
        points,
        |p: QuantizedSplat| color_bytes(p),
    ) + gather(points, |p: QuantizedSplat| scale_bytes(p)) + gather(
        points,
        |p: QuantizedSplat| rotation_bytes(p),
    ) + gather(points, |p: QuantizedSplat| sh_bytes(p))
}

/// What gzip at its fastest level makes of `data`, or `None` where the
/// encoder reports a failure.
pub uninterp spec fn gzip_fast(data: Seq<u8>) -> Option<Seq<u8>>;

/// Runs `flate2::write::GzEncoder` at `Compression::fast()` over `data`: one
/// `write_all`, then `finish`. The encoder writes into memory with a fixed
/// header (no name, no time stamp), so what it returns depends on `data`
/// alone; the contract gives that result its name and claims nothing else.
#[verifier::external_body]
fn gzip_compress(data: &[u8]) -> (r: Result<Vec<u8>, std::io::Error>)
    ensures
        match r {
            Ok(packed) => gzip_fast(data@) == Some(packed@),
            Err(_) => gzip_fast(data@) is None,
        },
{
    let mut encoder = flate2::write::GzEncoder::new(Vec::new(), flate2::Compression::fast());
    std::io::Write::write_all(&mut encoder, data)?;
    encoder.finish()
}

/// Cuts `v` to the range of a byte.
pub fn clamp_to_byte(v: i32) -> (b: u8)
    ensures
        b == clamp_byte(v as int),
{
    if v < 0 {
        0
    } else if v > 255 {
        255
    } else {
        v as u8
    }
}

/// The byte of a rounded scalar.
pub fn byte_of_rounded(r: Option<i32>) -> (b: u8)
    ensures
        b == rounded_byte(r),
{
    match r {
        Some(v) => clamp_to_byte(v),
        None => 0,
    }
}

/// Appends the low 24 bits of `v`, least significant byte first.
pub fn push_fixed24(out: &mut Vec<u8>, v: i32)
    ensures
        final(out)@ == old(out)@ + fixed24(v),
{
    let low: i32 = if v >= 0 {
        v % 0x100_0000
    } else {
        0xff_ffff - (-(v + 1)) % 0x100_0000
    };
    assert(low == (v as int) % 0x100_0000);
    out.push((low % 256) as u8);
    out.push((low / 256 % 256) as u8);
    out.push((low / 65536) as u8);
    assert(out@ =~= old(out)@ + fixed24(v));
}

/// Appends the 45 higher-order bytes of a splat.
fn push_sh_bytes(out: &mut Vec<u8>, p: &QuantizedSplat)
    ensures
        final(out)@ == old(out)@ + sh_bytes(*p),
{
    let n = p.sh_rest.len();
    let mut i: usize = 0;
    while i < 15
        invariant
            i <= 15,
            n == p.sh_rest@.len(),
            out@ == old(out)@ + sh_bytes(*p).take(3 * i),
        decreases 15 - i,
    {
        let r: u8 = if i < n {
            byte_of_rounded(p.sh_rest[i])
        } else {
            128
        };
        let g: u8 = if i + 15 < n {
            byte_of_rounded(p.sh_rest[i + 15])
        } else {
            128
        };
        let b: u8 = if i + 30 < n {
            byte_of_rounded(p.sh_rest[i + 30])
        } else {
            128
        };
        out.push(r);
        out.push(g);
        out.push(b);
        assert(out@ =~= old(out)@ + sh_bytes(*p).take(3 * (i + 1)));
        i += 1;
    }
    assert(sh_bytes(*p).take(45) =~= sh_bytes(*p));
}

impl SpzV2Exporter {
    /// The stream before compression.
    pub fn payload(scene: &QuantizedScene) -> (bytes: Vec<u8>)
        ensures
            bytes@ == payload_bytes(scene.splats@, scene.fractional_bits),
    {
        let points = &scene.splats;
        let fractional_bits = scene.fractional_bits;
        let mut positions: Vec<u8> = Vec::new();
        let mut alphas: Vec<u8> = Vec::new();
        let mut colors: Vec<u8> = Vec::new();
        let mut scales: Vec<u8> = Vec::new();
        let mut rotations: Vec<u8> = Vec::new();
        let mut sh: Vec<u8> = Vec::new();
        let mut i: usize = 0;
        while i < points.len()
            invariant
                i <= points.len(),
                positions@ == gather(points@.take(i as int), |p: QuantizedSplat| position_bytes(p)),
                alphas@ == gather(points@.take(i as int), |p: QuantizedSplat| alpha_bytes(p)),
                colors@ == gather(points@.take(i as int), |p: QuantizedSplat| color_bytes(p)),
                scales@ == gather(points@.take(i as int), |p: QuantizedSplat| scale_bytes(p)),
                rotations@ == gather(points@.take(i as int), |p: QuantizedSplat| rotation_bytes(p)),
                sh@ == gather(points@.take(i as int), |p: QuantizedSplat| sh_bytes(p)),
            decreases points.len() - i,
        {
            let p = &points[i];
            proof {
                lemma_gather_step(points@, |p: QuantizedSplat| position_bytes(p), i as int);
                lemma_gather_step(points@, |p: QuantizedSplat| alpha_bytes(p), i as int);
                lemma_gather_step(points@, |p: QuantizedSplat| color_bytes(p), i as int);
                lemma_gather_step(points@, |p: QuantizedSplat| scale_bytes(p), i as int);
                lemma_gather_step(points@, |p: QuantizedSplat| rotation_bytes(p), i as int);
                lemma_gather_step(points@, |p: QuantizedSplat| sh_bytes(p), i as int);
            }
            let ghost before = positions@;
            push_fixed24(&mut positions, p.position[0]);
            push_fixed24(&mut positions, p.position[1]);
            push_fixed24(&mut positions, p.position[2]);
            assert(positions@ =~= before + position_bytes(*p));

            let ghost before = alphas@;
            alphas.push(clamp_to_byte(p.alpha));
            assert(alphas@ =~= before + alpha_bytes(*p));

            let ghost before = colors@;
            colors.push(byte_of_rounded(p.color[0]));
            colors.push(byte_of_rounded(p.color[1]));
            colors.push(byte_of_rounded(p.color[2]));
            assert(colors@ =~= before + color_bytes(*p));

            let ghost before = scales@;
            scales.push(clamp_to_byte(p.scale[0]));
            scales.push(clamp_to_byte(p.scale[1]));
            scales.push(clamp_to_byte(p.scale[2]));
            assert(scales@ =~= before + scale_bytes(*p));

            let ghost before = rotations@;
            rotations.push(byte_of_rounded(p.rotation[0]));
            rotations.push(byte_of_rounded(p.rotation[1]));
            rotations.push(byte_of_rounded(p.rotation[2]));
            assert(rotations@ =~= before + rotation_bytes(*p));

            push_sh_bytes(&mut sh, p);
            i += 1;
        }
        assert(points@.take(points.len() as int) =~= points@);

        let count: u32 = ((points.len() as u64) % 0x1_0000_0000) as u32;
        let mut bytes: Vec<u8> = Vec::new();
        push_le(&mut bytes, MAGIC);
        push_le(&mut bytes, VERSION);
        push_le(&mut bytes, count);
        bytes.push(SH_DEGREE);
        bytes.push(fractional_bits);
        bytes.push(0);
        bytes.push(0);
        assert(bytes@ =~= header_bytes(points@.len(), fractional_bits));
        bytes.extend_from_slice(positions.as_slice());
        bytes.extend_from_slice(alphas.as_slice());
        bytes.extend_from_slice(colors.as_slice());
        bytes.extend_from_slice(scales.as_slice());
        bytes.extend_from_slice(rotations.as_slice());
        bytes.extend_from_slice(sh.as_slice());
        bytes
    }
}

impl Exporter for SpzV2Exporter {
    type Source = QuantizedScene;

    /// Writes the container: the stream of [`payload_bytes`], compressed.
    /// Fails only where the compressor does, with a write error that names
    /// the format.
    fn export(scene: &QuantizedScene) -> (r: Result<Vec<u8>, ConversionError>)
        ensures
            match gzip_fast(payload_bytes(scene.splats@, scene.fractional_bits)) {
                Some(packed) => r is Ok && r->Ok_0@ == packed,
                None => r is Err && r->Err_0 is WriteError && r->Err_0->WriteError_format@
                    == "SPZ"@,
            },
    {
        let payload = SpzV2Exporter::payload(scene);
        match gzip_compress(payload.as_slice()) {
            Ok(packed) => Ok(packed),
            Err(e) => {
                let message = io_error_text(&e);
                Err(ConversionError::WriteError { format: String::from_str("SPZ"), message })
            },
        }
    }
}

/// Whether `m` is the largest magnitude among the coordinates of `rows`
/// that are numbers; 0 where there is none. Magnitudes of numbers are
/// ordered as their bit patterns are.
pub open spec fn is_largest_magnitude(rows: Seq<Seq<u32>>, m: u32) -> bool {
    &&& forall|i: int, k: int|
        0 <= i < rows.len() && 0 <= k < rows[i].len() && is_number(#[trigger] rows[i][k])
            ==> magnitude(rows[i][k]) <= m
    &&& m == 0 || exists|i: int, k: int|
        0 <= i < rows.len() && 0 <= k < rows[i].len() && is_number(#[trigger] rows[i][k])
            && magnitude(rows[i][k]) == m
}

/// Whether some coordinate of `rows` is infinite.
pub open spec fn has_infinite(rows: Seq<Seq<u32>>) -> bool {
    exists|i: int, k: int|
        0 <= i < rows.len() && 0 <= k < rows[i].len() && magnitude(#[trigger] rows[i][k])
            == INFINITY_BITS
}

/// Whether `m` is the extent of `rows`: the largest magnitude among the
/// coordinates that are numbers, but 0 where that magnitude is infinite or
/// where there is no such coordinate.
pub open spec fn is_extent(rows: Seq<Seq<u32>>, m: u32) -> bool {
    if has_infinite(rows) {
        m == 0
    } else {
        is_largest_magnitude(rows, m)
    }
}

/// The positions of a scene, splat by splat.
pub open spec fn positions(scene: Scene) -> Seq<Seq<u32>> {
    scene.splats@.map_values(|s: GaussianSplat| s.position@)
}

/// The number of fractional bits for a scene whose largest coordinate
/// magnitude has the bit pattern `extent`, `exponent` being the floor of the
/// binary logarithm of 8388607 divided by that magnitude: 20 for a scene in
/// the origin, else the exponent cut to the range 4 to 20.
pub open spec fn chosen_fractional_bits(extent: u32, exponent: i32) -> u8 {
    if extent <= ORIGIN_BITS {
        MAX_FRACTIONAL_BITS
    } else if exponent < MIN_FRACTIONAL_BITS {
        MIN_FRACTIONAL_BITS
    } else if exponent > MAX_FRACTIONAL_BITS {
        MAX_FRACTIONAL_BITS
    } else {
        exponent as u8
    }
}

impl SpzV2Exporter {
    /// The extent of the scene: the bit pattern of its largest coordinate
    /// magnitude. Coordinates that are NaN are passed over; where the
    /// largest is infinite, or the scene has no coordinate, the result is 0.
    pub fn extent(scene: &Scene) -> (m: u32)
        ensures
            is_extent(positions(*scene), m),
    {
        let mut best: u32 = 0;
        let mut i: usize = 0;
        while i < scene.splats.len()
            invariant
                i <= scene.splats.len(),
                is_largest_magnitude(positions(*scene).take(i as int), best),
            decreases scene.splats.len() - i,
        {
            let splat = &scene.splats[i];
            let ghost row = splat.position@;
            let ghost seen = positions(*scene).take(i as int);
            proof {
                assert(positions(*scene)[i as int] == row);
                let opened = seen.push(row.take(0));
                assert forall|i2: int, k2: int|
                    0 <= i2 < opened.len() && 0 <= k2 < opened[i2].len() && is_number(
                        #[trigger] opened[i2][k2],
                    ) implies magnitude(opened[i2][k2]) <= best by {
                    assert(opened[i2][k2] == seen[i2][k2]);
                }
                if best != 0 {
                    let (i2, k2) = choose|i2: int, k2: int|
                        0 <= i2 < seen.len() && 0 <= k2 < seen[i2].len() && is_number(
                            #[trigger] seen[i2][k2],
                        ) && magnitude(seen[i2][k2]) == best;
                    assert(opened[i2][k2] == seen[i2][k2]);
                }
            }
            let mut k: usize = 0;
            while k < 3
                invariant
                    k <= 3,
                    i < scene.splats.len(),
                    row == splat.position@,
                    seen == positions(*scene).take(i as int),
                    is_largest_magnitude(seen.push(row.take(k as int)), best),
                decreases 3 - k,
            {
                let a: u32 = splat.position[k] % 0x8000_0000;
                let ghost before = seen.push(row.take(k as int));
                let ghost after = seen.push(row.take(k + 1));
                let ghost old_best = best;
                if a <= INFINITY_BITS && a > best {
                    best = a;
                }
                proof {
                    assert(after[i as int][k as int] == row[k as int]);
                    assert forall|i2: int, k2: int|
                        0 <= i2 < after.len() && 0 <= k2 < after[i2].len() && is_number(
                            #[trigger] after[i2][k2],
                        ) implies magnitude(after[i2][k2]) <= best by {
                        if i2 == i && k2 == k {
                        } else {
                            assert(before[i2][k2] == after[i2][k2]);
                        }
                    }
                    if best != 0 {
                        if best == old_best {
                            let (i2, k2) = choose|i2: int, k2: int|
                                0 <= i2 < before.len() && 0 <= k2 < before[i2].len() && is_number(
                                    #[trigger] before[i2][k2],
                                ) && magnitude(before[i2][k2]) == old_best;
                            assert(after[i2][k2] == before[i2][k2]);
                        } else {
                            assert(is_number(after[i as int][k as int]));
                        }
                    }
                }
                k += 1;
            }
            proof {
                assert(row.take(3) =~= row);
                assert(seen.push(row) =~= positions(*scene).take(i + 1));
            }
            i += 1;
        }
        assert(positions(*scene).take(scene.splats.len() as int) =~= positions(*scene));
        if best == INFINITY_BITS {
            0
        } else {
            best
        }
    }

    /// The number of fractional bits: see [`chosen_fractional_bits`].
    pub fn fractional_bits(extent: u32, exponent: i32) -> (bits: u8)
        ensures
            bits == chosen_fractional_bits(extent, exponent),
            MIN_FRACTIONAL_BITS <= bits <= MAX_FRACTIONAL_BITS,
    {
        if extent <= ORIGIN_BITS {
            MAX_FRACTIONAL_BITS
        } else if exponent < 4 {
            MIN_FRACTIONAL_BITS
        } else if exponent > 20 {
            MAX_FRACTIONAL_BITS
        } else {
            exponent as u8
        }
    }
}

pub struct SpzImporter;

#[verifier::external_type_specification]
#[verifier::external_body]
pub struct ExPackedGaussians(spz_rs::PackedGaussians);

/// One point as the container's reader hands it out, every scalar as a bit
/// pattern.
#[derive(Debug, Clone, Copy)]
pub struct UnpackedPoint {
    pub position: [u32; 3],
    /// w, x, y, z.
    pub rotation: [u32; 4],
    pub scale: [u32; 3],
    pub color: [u32; 3],
    pub alpha: u32,
    pub sh_r: [u32; 15],
    pub sh_g: [u32; 15],
    pub sh_b: [u32; 15],
}

/// The points of a loaded container, in file order. The alpha of a point is
/// computed with a logarithm whose last bit may differ between machines, so
/// contracts leave it aside.
pub uninterp spec fn unpacked_points(packed: spz_rs::PackedGaussians) -> Seq<UnpackedPoint>;

/// Whether a loaded container stores its coordinates as half-precision
/// numbers.
pub uninterp spec fn half_floats(packed: spz_rs::PackedGaussians) -> bool;

/// The fractional bits of a loaded container.
pub uninterp spec fn stored_fractional_bits(packed: spz_rs::PackedGaussians) -> nat;

/// Whether the buffers of a container have the sizes that its number of
/// points asks for, as they have in every container that the reader
/// returns.
pub uninterp spec fn is_loaded(packed: spz_rs::PackedGaussians) -> bool;

/// Whether every point of a container can be unpacked: there is none, or
/// coordinates are fixed-point numbers with fewer than 32 fractional bits.
pub open spec fn can_unpack(packed: spz_rs::PackedGaussians) -> bool {
    unpacked_points(packed).len() == 0 || (!half_floats(packed) && stored_fractional_bits(packed)
        < 32)
}

/// `spz_rs::load_packed_gaussians_from_spz_buffer` on a reader over `bytes`:
/// it inflates the stream, checks magic and version, and reads the six
/// buffers at the sizes that the header's point count gives, which it
/// allocates before it reads. It takes the header in the byte order of the
/// machine, so nothing is claimed of the result as a function of the bytes:
/// only that the buffers of a container that comes back have those sizes.
#[verifier::external_body]
fn load_container(bytes: &[u8]) -> (r: Result<spz_rs::PackedGaussians, std::io::Error>)
    ensures
        r is Ok ==> is_loaded(r->Ok_0),
{
    spz_rs::load_packed_gaussians_from_spz_buffer(bytes)
}

/// The field `num_points` of `spz_rs::PackedGaussians`: the number of points
/// that `unpack` can be asked for.
#[verifier::external_body]
fn container_len(packed: &spz_rs::PackedGaussians) -> (n: usize)
    ensures
        n == unpacked_points(*packed).len(),
{
    packed.num_points
}

/// `spz_rs::PackedGaussians::uses_float16`.
#[verifier::external_body]
fn container_half_floats(packed: &spz_rs::PackedGaussians) -> (b: bool)
    ensures
        b == half_floats(*packed),
{
    packed.uses_float16()
}

/// The field `fractional_bits` of `spz_rs::PackedGaussians`.
#[verifier::external_body]
fn container_fractional_bits(packed: &spz_rs::PackedGaussians) -> (n: usize)
    ensures
        n == stored_fractional_bits(*packed),
{
    packed.fractional_bits
}

/// `spz_rs::PackedGaussians::unpack` for point `i`, each scalar turned into
/// its bit pattern. The source indexes its buffers with `i`, copies nine
/// position bytes (which fails on half-precision files) and shifts by the
/// fractional bits (which overflows from 32 on): the `requires` leaves those
/// inputs out. The result is the named point, alpha aside.
#[verifier::external_body]
fn unpack_point(packed: &spz_rs::PackedGaussians, i: usize) -> (point: UnpackedPoint)
    requires
        is_loaded(*packed),
        i < unpacked_points(*packed).len(),
        !half_floats(*packed),
        stored_fractional_bits(*packed) < 32,
    ensures
        point == (UnpackedPoint { alpha: point.alpha, ..unpacked_points(*packed)[i as int] }),
{
    let u = packed.unpack(i);
    UnpackedPoint {
        position: u.position.map(|v| v.to_bits()),
        rotation: u.rotation.map(|v| v.to_bits()),
        scale: u.scale.map(|v| v.to_bits()),
        color: u.color.map(|v| v.to_bits()),
        alpha: u.alpha.to_bits(),
        sh_r: u.sh_r.map(|v| v.to_bits()),
        sh_g: u.sh_g.map(|v| v.to_bits()),
        sh_b: u.sh_b.map(|v| v.to_bits()),
    }
}

/// The splat that a point of the container stands for: the normal is zero,
/// and the 15 coefficients of each channel follow one another, R first.
pub open spec fn unpacked_splat(point: UnpackedPoint) -> SplatView<u32> {
    SplatView {
        position: point.position@,
        normal: seq![0u32, 0u32, 0u32],
        spherical_harmonics_dc: point.color@,
        spherical_harmonics_rest: point.sh_r@ + point.sh_g@ + point.sh_b@,
        opacity: point.alpha,
        scale: point.scale@,
        rotation: point.rotation@,
    }
}

/// The scene that a container stands for, opacities aside.
pub open spec fn is_unpacked_scene(scene: Seq<SplatView<u32>>, points: Seq<UnpackedPoint>) -> bool {
    &&& scene.len() == points.len()
    &&& forall|i: int|
        0 <= i < scene.len() ==> #[trigger] scene[i] == (SplatView {
            opacity: scene[i].opacity,
            ..unpacked_splat(points[i])
        })
}

impl SpzImporter {
    /// The splat of one unpacked point.
    pub fn splat_from_unpacked(point: &UnpackedPoint) -> (splat: GaussianSplat)
        ensures
            splat@ == unpacked_splat(*point),
            splat@.well_formed(),
    {
        let mut rest: Vec<u32> = Vec::new();
        let mut i: usize = 0;
        while i < 15
            invariant
                i <= 15,
                rest@ == point.sh_r@.take(i as int),
            decreases 15 - i,
        {
            rest.push(point.sh_r[i]);
            assert(rest@ =~= point.sh_r@.take(i + 1));
            i += 1;
        }
        assert(point.sh_r@.take(15) =~= point.sh_r@);
        i = 0;
        while i < 15
            invariant
                i <= 15,
                rest@ == point.sh_r@ + point.sh_g@.take(i as int),
            decreases 15 - i,
        {
            rest.push(point.sh_g[i]);
            assert(rest@ =~= point.sh_r@ + point.sh_g@.take(i + 1));
            i += 1;
        }
        assert(point.sh_g@.take(15) =~= point.sh_g@);
        i = 0;
        while i < 15
            invariant
                i <= 15,
                rest@ == point.sh_r@ + point.sh_g@ + point.sh_b@.take(i as int),
            decreases 15 - i,
        {
            rest.push(point.sh_b[i]);
            assert(rest@ =~= point.sh_r@ + point.sh_g@ + point.sh_b@.take(i + 1));
            i += 1;
        }
        assert(point.sh_b@.take(15) =~= point.sh_b@);
        let splat = GaussianSplat {
            position: point.position,
            normal: [0, 0, 0],
            spherical_harmonics_dc: point.color,
            spherical_harmonics_rest: rest,
            opacity: point.alpha,
            scale: point.scale,
            rotation: point.rotation,
        };
        assert(splat.normal@ =~= seq![0u32, 0u32, 0u32]);
        splat
    }
}

/// What is said of a container whose points cannot be unpacked.
pub open spec fn unpack_message(packed: spz_rs::PackedGaussians) -> Seq<char> {
    if half_floats(packed) {
        "half-precision coordinates are not supported"@
    } else {
        "too many fractional bits"@
    }
}

impl SpzImporter {
    /// The scene of a loaded container: one splat per point, in file order.
    /// A container whose points cannot be unpacked is refused with a parse
    /// error.
    pub fn scene_from_container(packed: &spz_rs::PackedGaussians) -> (r: Result<
        Scene,
        ConversionError,
    >)
        requires
            is_loaded(*packed),
        ensures
            can_unpack(*packed) ==> r is Ok && is_unpacked_scene(
                r->Ok_0@,
                unpacked_points(*packed),
            ),
            !can_unpack(*packed) ==> r is Err && r->Err_0 is ParseError
                && r->Err_0->ParseError_format@ == "SPZ"@ && r->Err_0->ParseError_message@
                == unpack_message(*packed),
    {
        let count = container_len(packed);
        let mut splats: Vec<GaussianSplat> = Vec::new();
        if count == 0 {
            return Ok(Scene { splats });
        }
        if container_half_floats(packed) {
            return Err(
                ConversionError::parse("SPZ", "half-precision coordinates are not supported"),
            );
        }
        if container_fractional_bits(packed) >= 32 {
            return Err(ConversionError::parse("SPZ", "too many fractional bits"));
        }
        let ghost points = unpacked_points(*packed);
        let mut i: usize = 0;
        while i < count
            invariant
                i <= count,
                count == points.len(),
                points == unpacked_points(*packed),
                is_loaded(*packed),
                !half_floats(*packed),
                stored_fractional_bits(*packed) < 32,
                is_unpacked_scene(splats@.map_values(|s: GaussianSplat| s@), points.take(i as int)),
            decreases count - i,
        {
            let point = unpack_point(packed, i);
            let splat = SpzImporter::splat_from_unpacked(&point);
            let ghost before = splats@.map_values(|s: GaussianSplat| s@);
            splats.push(splat);
            proof {
                let after = splats@.map_values(|s: GaussianSplat| s@);
                assert(after =~= before.push(splat@));
                assert forall|j: int| 0 <= j < after.len() implies #[trigger] after[j]
                    == (SplatView {
                    opacity: after[j].opacity,
                    ..unpacked_splat(points.take(i + 1)[j])
                }) by {
                    if j < i {
                        assert(after[j] == before[j]);
                        assert(points.take(i + 1)[j] == points.take(i as int)[j]);
                    }
                }
            }
            i += 1;
        }
        assert(points.take(count as int) =~= points);
        Ok(Scene { splats })
    }
}

/// Whether every splat of the scene has the shape that a point of a
/// container is unpacked to: well formed, with a normal of zero.
pub open spec fn is_unpacked_shape(scene: Seq<SplatView<u32>>) -> bool {
    forall|i: int|
        0 <= i < scene.len() ==> (#[trigger] scene[i]).well_formed() && scene[i].normal
            == seq![0u32, 0u32, 0u32]
}

impl Importer for SpzImporter {
    type Source = [u8];

    type Decoded = Scene;

    /// Decodes a container: reads it with `spz_rs` and hands what comes
    /// back to [`SpzImporter::scene_from_container`]. The reader's refusal
    /// comes back as an I/O error; else the result is what decoding gives
    /// for the container that the reader returned: its scene, or the parse
    /// error that says why its points cannot be unpacked.
    fn import(bytes: &[u8]) -> (r: Result<Scene, ConversionError>)
        ensures
            (r is Err && r->Err_0 is Io) || exists|packed: spz_rs::PackedGaussians|
                #[trigger] is_loaded(packed) && is_decoding_of(r, packed),
            r is Ok ==> is_unpacked_shape(r->Ok_0@),
            r is Err ==> r->Err_0 is Io || (r->Err_0 is ParseError
                && r->Err_0->ParseError_format@ == "SPZ"@),
    {
        match load_container(bytes) {
            Ok(packed) => {
                let r = SpzImporter::scene_from_container(&packed);
                proof {
                    assert(is_loaded(packed) && is_decoding_of(r, packed));
                    if r is Ok {
                        let scene = r->Ok_0@;
                        let points = unpacked_points(packed);
                        assert forall|i: int| 0 <= i < scene.len() implies (#[trigger]
                        scene[i]).well_formed() && scene[i].normal == seq![0u32, 0u32, 0u32] by {
                            assert(scene[i] == (SplatView {
                                opacity: scene[i].opacity,
                                ..unpacked_splat(points[i])
                            }));
                        }
                    }
                }
                r
            },
            Err(e) => Err(ConversionError::Io(e)),
        }
    }
}

/// Whether `r` is what decoding gives for the container `packed`: where its
/// points can be unpacked, the scene with one splat per point, in file
/// order; else the parse error that says why they cannot.
pub open spec fn is_decoding_of(
    r: Result<Scene, ConversionError>,
    packed: spz_rs::PackedGaussians,
) -> bool {
    if can_unpack(packed) {
        r is Ok && is_unpacked_scene(r->Ok_0@, unpacked_points(packed))
    } else {
        r is Err && r->Err_0 is ParseError && r->Err_0->ParseError_format@ == "SPZ"@
            && r->Err_0->ParseError_message@ == unpack_message(packed)
    }
}

/// A scene whose every coordinate is zero, of either sign, or that has no
/// coordinate at all, has extent 0 and is written with 20 fractional bits,
/// whatever exponent is handed in.
pub proof fn lemma_origin_scene_has_most_bits(rows: Seq<Seq<u32>>, extent: u32, exponent: i32)
    requires
        forall|i: int, k: int|
            0 <= i < rows.len() && 0 <= k < rows[i].len() ==> magnitude(#[trigger] rows[i][k])
                == 0,
        is_extent(rows, extent),
    ensures
        extent == 0,
        chosen_fractional_bits(extent, exponent) == 20,
{
    assert(!has_infinite(rows));
}

/// The extent of a scene is one value: two that fit are the same.
pub proof fn lemma_extent_is_unique(rows: Seq<Seq<u32>>, a: u32, b: u32)
    requires
        is_extent(rows, a),
        is_extent(rows, b),
    ensures
        a == b,
{
}

/// The number of fractional bits lies between 4 and 20, and follows the
/// exponent in between.
pub proof fn lemma_fractional_bits_range(extent: u32, exponent: i32)
    ensures
        4 <= chosen_fractional_bits(extent, exponent) <= 20,
        extent > ORIGIN_BITS && 4 <= exponent <= 20 ==> chosen_fractional_bits(extent, exponent)
            == exponent,
{
}

/// The stream has no framing inside: behind the 16 bytes of the header the
/// six buffers follow one another, and where each starts follows from the
/// number of points and the widths 9, 1, 3, 3, 3 and 45 alone.
pub proof fn lemma_payload_layout(points: Seq<QuantizedSplat>, fractional_bits: u8)
    ensures
        payload_bytes(points, fractional_bits).len() == 16 + 64 * (points.len() as int),
        payload_bytes(points, fractional_bits).subrange(0, 16) == header_bytes(
            points.len(),
            fractional_bits,
        ),
        payload_bytes(points, fractional_bits).subrange(
            16,
            16 + 9 * (points.len() as int),
        ) == gather(points, |p: QuantizedSplat| position_bytes(p)),
        payload_bytes(points, fractional_bits).subrange(
            16 + 9 * (points.len() as int),
            16 + 10 * (points.len() as int),
        ) == gather(points, |p: QuantizedSplat| alpha_bytes(p)),
        payload_bytes(points, fractional_bits).subrange(
            16 + 10 * (points.len() as int),
            16 + 13 * (points.len() as int),
        ) == gather(points, |p: QuantizedSplat| color_bytes(p)),
        payload_bytes(points, fractional_bits).subrange(
            16 + 13 * (points.len() as int),
            16 + 16 * (points.len() as int),
        ) == gather(points, |p: QuantizedSplat| scale_bytes(p)),
        payload_bytes(points, fractional_bits).subrange(
            16 + 16 * (points.len() as int),
            16 + 19 * (points.len() as int),
        ) == gather(points, |p: QuantizedSplat| rotation_bytes(p)),
        payload_bytes(points, fractional_bits).subrange(
            16 + 19 * (points.len() as int),
            16 + 64 * (points.len() as int),
        ) == gather(points, |p: QuantizedSplat| sh_bytes(p)),
{
    let n = points.len() as int;
    let header = header_bytes(points.len(), fractional_bits);
    let positions = gather(points, |p: QuantizedSplat| position_bytes(p));
    let alphas = gather(points, |p: QuantizedSplat| alpha_bytes(p));
    let colors = gather(points, |p: QuantizedSplat| color_bytes(p));
    let scales = gather(points, |p: QuantizedSplat| scale_bytes(p));
    let rotations = gather(points, |p: QuantizedSplat| rotation_bytes(p));
    let sh = gather(points, |p: QuantizedSplat| sh_bytes(p));
    lemma_gather_fixed_width(points, |p: QuantizedSplat| position_bytes(p), 9);
    lemma_gather_fixed_width(points, |p: QuantizedSplat| alpha_bytes(p), 1);
    lemma_gather_fixed_width(points, |p: QuantizedSplat| color_bytes(p), 3);
    lemma_gather_fixed_width(points, |p: QuantizedSplat| scale_bytes(p), 3);
    lemma_gather_fixed_width(points, |p: QuantizedSplat| rotation_bytes(p), 3);
    lemma_gather_fixed_width(points, |p: QuantizedSplat| sh_bytes(p), 45);
    assert(header.len() == 16);
    assert(positions.len() == 9 * n) by {
        assert(n * 9 == 9 * n);
    }
    assert(alphas.len() == n) by {
        assert(n * 1 == n);
    }
    assert(colors.len() == 3 * n) by {
        assert(n * 3 == 3 * n);
    }
    assert(scales.len() == 3 * n);
    assert(rotations.len() == 3 * n);
    assert(sh.len() == 45 * n) by {
        assert(n * 45 == 45 * n);
    }
    let all = payload_bytes(points, fractional_bits);
    assert(all == header + positions + alphas + colors + scales + rotations + sh);
    assert(all.subrange(0, 16) =~= header);
    assert(all.subrange(16, 16 + 9 * n) =~= positions);
    assert(all.subrange(16 + 9 * n, 16 + 10 * n) =~= alphas);
    assert(all.subrange(16 + 10 * n, 16 + 13 * n) =~= colors);
    assert(all.subrange(16 + 13 * n, 16 + 16 * n) =~= scales);
    assert(all.subrange(16 + 16 * n, 16 + 19 * n) =~= rotations);
    assert(all.subrange(16 + 19 * n, 16 + 64 * n) =~= sh);
}

} // verus!

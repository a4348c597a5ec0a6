//! Procedural facade texture generation and texture array layout.
//!
//! Every facade style gets an albedo and a normal map (four bytes per
//! texel: red, green, blue, alpha) and roughness, metallic and height maps
//! (one byte per texel), each `TEXTURE_SIZE` texels square, in row-major
//! order. The patterns come from the texel coordinates and a small
//! deterministic hash, so every map is the same on every run.

use crate::procgen::building_factory::FacadeStyle;
use vstd::prelude::*;

verus! {

/// Size of each facade texture layer.
pub const TEXTURE_SIZE: u32 = 256;

/// Number of facade types (layers in the texture array).
pub const NUM_FACADE_TYPES: u32 = 5;

/// Bytes in one four-channel layer.
pub const RGBA_LAYER_BYTES: usize = 262144;

/// Bytes in one single-channel layer.
pub const R8_LAYER_BYTES: usize = 65536;

// ---------------------------------------------------------------------------
// Arithmetic helpers
// ---------------------------------------------------------------------------

/// Integer division rounding toward zero, as Rust's `/` does.
pub open spec fn tdiv(a: int, d: int) -> int {
    if a >= 0 {
        a / d
    } else {
        -((-a) / d)
    }
}

/// `v` clamped to the byte range.
pub open spec fn clamp_u8(v: int) -> u8 {
    if v < 0 {
        0
    } else if v > 255 {
        255
    } else {
        v as u8
    }
}

/// Simple hash-based noise value (deterministic).
#[verifier::opaque]
pub open spec fn noise(x: u32, y: u32, seed: u32) -> u8 {
    let h1 = vstd::wrapping::u32_specs::wrapping_mul(x, 374761393u32);
    let h2 = vstd::wrapping::u32_specs::wrapping_add(
        h1,
        vstd::wrapping::u32_specs::wrapping_mul(y, 668265263u32),
    );
    let h3 = vstd::wrapping::u32_specs::wrapping_add(h2, seed);
    let h4 = vstd::wrapping::u32_specs::wrapping_mul(h3 ^ (h3 >> 13u32), 1274126177u32);
    let h5 = h4 ^ (h4 >> 16u32);
    (h5 & 0xFFu32) as u8
}

/// Noise value moved to be centred near zero and scaled down: the hash
/// minus `center`, divided by `div` (rounding toward zero).
pub open spec fn scaled_noise(x: u32, y: u32, seed: u32, center: int, div: int) -> int {
    tdiv(noise(x, y, seed) as int - center, div)
}

/// Simple hash-based noise function (deterministic).
pub fn simple_noise(x: u32, y: u32, seed: u32) -> (r: u8)
    ensures
        r == noise(x, y, seed),
{
    let mut h = x.wrapping_mul(374761393);
    h = h.wrapping_add(y.wrapping_mul(668265263));
    h = h.wrapping_add(seed);
    h = (h ^ (h >> 13)).wrapping_mul(1274126177);
    h = h ^ (h >> 16);
    proof {
        reveal(noise);
    }
    (h & 0xFF) as u8
}

fn noise_term(x: u32, y: u32, seed: u32, center: i16, div: i16) -> (r: i16)
    requires
        0 <= center <= 128,
        1 <= div <= 32,
    ensures
        r == scaled_noise(x, y, seed, center as int, div as int),
        -128 <= r <= 255,
{
    let v = simple_noise(x, y, seed) as i16 - center;
    v / div
}

fn clamp_channel(v: i16) -> (r: u8)
    ensures
        r == clamp_u8(v as int),
{
    if v < 0 {
        0
    } else if v > 255 {
        255
    } else {
        v as u8
    }
}


// ---------------------------------------------------------------------------
// Patterns
// ---------------------------------------------------------------------------

/// Position inside the brick pattern: bricks 32 by 16 texels with 2-texel
/// mortar joints, every other row shifted by half a brick.
pub open spec fn brick_local(x: u32, y: u32) -> (int, int) {
    let offset: int = if (y / 18) % 2 == 0 { 0 } else { 16 };
    ((x + offset) % 34, (y % 18) as int)
}

/// The texel lies in a mortar joint.
pub open spec fn in_mortar(x: u32, y: u32) -> bool {
    brick_local(x, y).0 >= 32 || brick_local(x, y).1 >= 16
}

/// Base colour of the brick holding a texel, one of four reds and browns.
pub open spec fn brick_color(x: u32, y: u32) -> (int, int, int) {
    let k = ((x / 32) + (y / 16) * 7) % 4;
    if k == 0 {
        (178, 102, 76)
    } else if k == 1 {
        (156, 90, 68)
    } else if k == 2 {
        (190, 115, 85)
    } else {
        (145, 85, 65)
    }
}

/// The texel lies on the frame of a 64 by 80 glass panel (3 texels wide).
pub open spec fn in_glass_frame(x: u32, y: u32) -> bool {
    let lx = x % 64;
    let ly = y % 80;
    lx < 3 || lx >= 61 || ly < 3 || ly >= 77
}

/// Position inside the 16-texel corrugation period of metal cladding.
pub open spec fn rib_pos(y: u32) -> int {
    (y % 16) as int
}

/// Three colour channels shifted by the same amount, then clamped.
pub open spec fn shifted(c: (int, int, int), d: int) -> (u8, u8, u8, u8) {
    (clamp_u8(c.0 + d), clamp_u8(c.1 + d), clamp_u8(c.2 + d), 255u8)
}

pub open spec fn brick_albedo(x: u32, y: u32) -> (u8, u8, u8, u8) {
    if in_mortar(x, y) {
        (210, 205, 195, 255)
    } else {
        shifted(brick_color(x, y), noise(x, y, 42) as int - 8)
    }
}

pub open spec fn brick_normal(x: u32, y: u32) -> (u8, u8, u8, u8) {
    if in_mortar(x, y) {
        (
            if brick_local(x, y).0 >= 32 { 100u8 } else { 128u8 },
            if brick_local(x, y).1 >= 16 { 100u8 } else { 128u8 },
            255,
            255,
        )
    } else {
        let v = clamp_u8(128 + scaled_noise(x, y, 123, 8, 2));
        (v, v, 255, 255)
    }
}

pub open spec fn concrete_albedo(x: u32, y: u32) -> (u8, u8, u8, u8) {
    let total = (noise(x, y, 1) as int - 8) + scaled_noise(x / 2, y / 2, 2, 8, 2) + scaled_noise(
        x / 4,
        y / 4,
        3,
        8,
        4,
    );
    let spot: int = if noise(x, y, 99) > 245 { -20 } else { 0 };
    shifted((180, 175, 170), total + spot)
}

pub open spec fn concrete_normal(x: u32, y: u32) -> (u8, u8, u8, u8) {
    let v = clamp_u8(128 + scaled_noise(x, y, 456, 8, 4));
    (v, v, 255, 255)
}

pub open spec fn glass_albedo(x: u32, y: u32) -> (u8, u8, u8, u8) {
    if in_glass_frame(x, y) {
        (40, 45, 50, 255)
    } else {
        // reflection gradient: 20 steps over the panel height
        shifted((60, 80, 100), (y % 80) as int / 4)
    }
}

pub open spec fn glass_normal(x: u32, y: u32) -> (u8, u8, u8, u8) {
    (128, 128, 255, 255)
}

pub open spec fn metal_albedo(x: u32, y: u32) -> (u8, u8, u8, u8) {
    let rib: int = if rib_pos(y) < 4 { 20 } else { 0 };
    shifted((100, 105, 115), rib + scaled_noise(x, y, 789, 8, 4))
}

pub open spec fn metal_normal(x: u32, y: u32) -> (u8, u8, u8, u8) {
    let ny: u8 = if rib_pos(y) < 2 {
        160
    } else if rib_pos(y) < 4 {
        96
    } else {
        128
    };
    (128, ny, 255, 255)
}

pub open spec fn painted_albedo(x: u32, y: u32) -> (u8, u8, u8, u8) {
    shifted((245, 240, 230), scaled_noise(x, y, 321, 8, 8))
}

pub open spec fn painted_normal(x: u32, y: u32) -> (u8, u8, u8, u8) {
    (clamp_u8(128 + scaled_noise(x, y, 654, 8, 8)), 128, 255, 255)
}

pub open spec fn brick_roughness(x: u32, y: u32) -> u8 {
    let base: int = if in_mortar(x, y) { 200 } else { 230 };
    clamp_u8(base + scaled_noise(x, y, 1111, 128, 8))
}

pub open spec fn concrete_roughness(x: u32, y: u32) -> u8 {
    let noise1 = noise(x, y, 2222) as int - 128;
    let noise2 = scaled_noise(x / 2, y / 2, 2223, 128, 2);
    let spot: int = if noise(x / 8, y / 8, 2224) > 240 { -30 } else { 0 };
    clamp_u8(200 + tdiv(noise1, 4) + tdiv(noise2, 4) + spot)
}

pub open spec fn glass_roughness(x: u32, y: u32) -> u8 {
    if in_glass_frame(x, y) {
        150
    } else {
        25
    }
}

pub open spec fn metal_roughness(x: u32, y: u32) -> u8 {
    let base: int = if rib_pos(y) < 4 { 80 } else { 110 };
    clamp_u8(base + scaled_noise(x, y, 4444, 128, 16))
}

pub open spec fn painted_roughness(x: u32, y: u32) -> u8 {
    clamp_u8(180 + scaled_noise(x, y, 5555, 128, 8))
}

pub open spec fn glass_metallic(x: u32, y: u32) -> u8 {
    if in_glass_frame(x, y) {
        180
    } else {
        0
    }
}

pub open spec fn metal_metallic(x: u32, y: u32) -> u8 {
    clamp_u8(200 + scaled_noise(x, y, 6666, 128, 16))
}

pub open spec fn brick_height(x: u32, y: u32) -> u8 {
    if in_mortar(x, y) {
        70
    } else {
        clamp_u8(170 + scaled_noise(x, y, 7777, 128, 16))
    }
}

pub open spec fn concrete_height(x: u32, y: u32) -> u8 {
    let pit: int = if noise(x, y, 8890) > 250 { -20 } else { 0 };
    clamp_u8(
        128 + scaled_noise(x, y, 8888, 128, 8) + scaled_noise(x / 2, y / 2, 8889, 128, 16) + pit,
    )
}

pub open spec fn glass_height(x: u32, y: u32) -> u8 {
    if in_glass_frame(x, y) {
        150
    } else {
        128
    }
}

/// Corrugation profile: rising over the first two texels of a rib, falling
/// over the next two, a valley in between.
pub open spec fn metal_height(x: u32, y: u32) -> u8 {
    if rib_pos(y) < 2 {
        (128 + 25 * rib_pos(y)) as u8
    } else if rib_pos(y) < 4 {
        (178 - 25 * (rib_pos(y) - 2)) as u8
    } else {
        100
    }
}

pub open spec fn painted_height(x: u32, y: u32) -> u8 {
    clamp_u8(128 + scaled_noise(x, y, 9999, 128, 32))
}

// ---------------------------------------------------------------------------
// Texel computations
// ---------------------------------------------------------------------------

fn brick_in_mortar(x: u32, y: u32) -> (r: (bool, bool))
    requires
        x < 256,
        y < 256,
    ensures
        r.0 == (brick_local(x, y).0 >= 32),
        r.1 == (brick_local(x, y).1 >= 16),
{
    let row = y / 18;
    let offset = if row % 2 == 0 {
        0
    } else {
        16
    };
    let local_x = (x + offset) % 34;
    let local_y = y % 18;
    (local_x >= 32, local_y >= 16)
}

fn glass_frame(x: u32, y: u32) -> (r: bool)
    ensures
        r == in_glass_frame(x, y),
{
    let local_x = x % 64;
    let local_y = y % 80;
    local_x < 3 || local_x >= 61 || local_y < 3 || local_y >= 77
}

fn shift_rgb(c: (u8, u8, u8), d: i16) -> (r: (u8, u8, u8, u8))
    requires
        -1000 <= d <= 1000,
    ensures
        r == shifted((c.0 as int, c.1 as int, c.2 as int), d as int),
{
    (
        clamp_channel(c.0 as i16 + d),
        clamp_channel(c.1 as i16 + d),
        clamp_channel(c.2 as i16 + d),
        255,
    )
}

fn brick_albedo_texel(x: u32, y: u32) -> (r: (u8, u8, u8, u8))
    requires
        x < 256,
        y < 256,
    ensures
        r == brick_albedo(x, y),
{
    let (mortar_x, mortar_y) = brick_in_mortar(x, y);
    if mortar_x || mortar_y {
        (210, 205, 195, 255)
    } else {
        let k = ((x / 32) + (y / 16) * 7) % 4;
        let base: (u8, u8, u8) = if k == 0 {
            (178, 102, 76)
        } else if k == 1 {
            (156, 90, 68)
        } else if k == 2 {
            (190, 115, 85)
        } else {
            (145, 85, 65)
        };
        let noise = simple_noise(x, y, 42) as i16 - 8;
        shift_rgb(base, noise)
    }
}

fn brick_normal_texel(x: u32, y: u32) -> (r: (u8, u8, u8, u8))
    requires
        x < 256,
        y < 256,
    ensures
        r == brick_normal(x, y),
{
    let (mortar_x, mortar_y) = brick_in_mortar(x, y);
    if mortar_x || mortar_y {
        let nx: u8 = if mortar_x {
            100
        } else {
            128
        };
        let ny: u8 = if mortar_y {
            100
        } else {
            128
        };
        (nx, ny, 255, 255)
    } else {
        let v = clamp_channel(128 + noise_term(x, y, 123, 8, 2));
        (v, v, 255, 255)
    }
}

fn concrete_albedo_texel(x: u32, y: u32) -> (r: (u8, u8, u8, u8))
    ensures
        r == concrete_albedo(x, y),
{
    let noise1 = simple_noise(x, y, 1) as i16 - 8;
    let noise2 = noise_term(x / 2, y / 2, 2, 8, 2);
    let noise3 = noise_term(x / 4, y / 4, 3, 8, 4);
    let total_noise = noise1 + noise2 + noise3;
    let spot: i16 = if simple_noise(x, y, 99) > 245 {
        -20
    } else {
        0
    };
    shift_rgb((180, 175, 170), total_noise + spot)
}

fn concrete_normal_texel(x: u32, y: u32) -> (r: (u8, u8, u8, u8))
    ensures
        r == concrete_normal(x, y),
{
    let v = clamp_channel(128 + noise_term(x, y, 456, 8, 4));
    (v, v, 255, 255)
}

fn glass_albedo_texel(x: u32, y: u32) -> (r: (u8, u8, u8, u8))
    ensures
        r == glass_albedo(x, y),
{
    if glass_frame(x, y) {
        (40, 45, 50, 255)
    } else {
        let gradient = ((y % 80) / 4) as i16;
        shift_rgb((60, 80, 100), gradient)
    }
}

fn metal_albedo_texel(x: u32, y: u32) -> (r: (u8, u8, u8, u8))
    ensures
        r == metal_albedo(x, y),
{
    let brightness: i16 = if y % 16 < 4 {
        20
    } else {
        0
    };
    let noise = noise_term(x, y, 789, 8, 4);
    shift_rgb((100, 105, 115), brightness + noise)
}

fn metal_normal_texel(x: u32, y: u32) -> (r: (u8, u8, u8, u8))
    ensures
        r == metal_normal(x, y),
{
    let rib = y % 16;
    let ny: u8 = if rib < 2 {
        160
    } else if rib < 4 {
        96
    } else {
        128
    };
    (128, ny, 255, 255)
}

fn painted_albedo_texel(x: u32, y: u32) -> (r: (u8, u8, u8, u8))
    ensures
        r == painted_albedo(x, y),
{
    shift_rgb((245, 240, 230), noise_term(x, y, 321, 8, 8))
}

fn painted_normal_texel(x: u32, y: u32) -> (r: (u8, u8, u8, u8))
    ensures
        r == painted_normal(x, y),
{
    (clamp_channel(128 + noise_term(x, y, 654, 8, 8)), 128, 255, 255)
}

fn brick_roughness_texel(x: u32, y: u32) -> (r: u8)
    requires
        x < 256,
        y < 256,
    ensures
        r == brick_roughness(x, y),
{
    let (mortar_x, mortar_y) = brick_in_mortar(x, y);
    let base: i16 = if mortar_x || mortar_y {
        200
    } else {
        230
    };
    clamp_channel(base + noise_term(x, y, 1111, 128, 8))
}

fn concrete_roughness_texel(x: u32, y: u32) -> (r: u8)
    ensures
        r == concrete_roughness(x, y),
{
    let noise1 = simple_noise(x, y, 2222) as i16 - 128;
    let noise2 = noise_term(x / 2, y / 2, 2223, 128, 2);
    let spot: i16 = if simple_noise(x / 8, y / 8, 2224) > 240 {
        -30
    } else {
        0
    };
    clamp_channel(200 + noise1 / 4 + noise2 / 4 + spot)
}

fn metal_roughness_texel(x: u32, y: u32) -> (r: u8)
    ensures
        r == metal_roughness(x, y),
{
    let base: i16 = if y % 16 < 4 {
        80
    } else {
        110
    };
    clamp_channel(base + noise_term(x, y, 4444, 128, 16))
}

fn painted_roughness_texel(x: u32, y: u32) -> (r: u8)
    ensures
        r == painted_roughness(x, y),
{
    clamp_channel(180 + noise_term(x, y, 5555, 128, 8))
}

fn glass_metallic_texel(x: u32, y: u32) -> (r: u8)
    ensures
        r == glass_metallic(x, y),
{
    if glass_frame(x, y) {
        180
    } else {
        0
    }
}

fn metal_metallic_texel(x: u32, y: u32) -> (r: u8)
    ensures
        r == metal_metallic(x, y),
{
    clamp_channel(200 + noise_term(x, y, 6666, 128, 16))
}

fn brick_height_texel(x: u32, y: u32) -> (r: u8)
    requires
        x < 256,
        y < 256,
    ensures
        r == brick_height(x, y),
{
    let (mortar_x, mortar_y) = brick_in_mortar(x, y);
    if mortar_x || mortar_y {
        70
    } else {
        clamp_channel(170 + noise_term(x, y, 7777, 128, 16))
    }
}

fn concrete_height_texel(x: u32, y: u32) -> (r: u8)
    ensures
        r == concrete_height(x, y),
{
    let noise1 = noise_term(x, y, 8888, 128, 8);
    let noise2 = noise_term(x / 2, y / 2, 8889, 128, 16);
    let pit: i16 = if simple_noise(x, y, 8890) > 250 {
        -20
    } else {
        0
    };
    clamp_channel(128 + noise1 + noise2 + pit)
}

fn glass_height_texel(x: u32, y: u32) -> (r: u8)
    ensures
        r == glass_height(x, y),
{
    if glass_frame(x, y) {
        150
    } else {
        128
    }
}

fn metal_height_texel(x: u32, y: u32) -> (r: u8)
    ensures
        r == metal_height(x, y),
{
    let rib = y % 16;
    if rib < 2 {
        (128 + 25 * rib) as u8
    } else if rib < 4 {
        (178 - 25 * (rib - 2)) as u8
    } else {
        100
    }
}

fn painted_height_texel(x: u32, y: u32) -> (r: u8)
    ensures
        r == painted_height(x, y),
{
    clamp_channel(128 + noise_term(x, y, 9999, 128, 32))
}


// ---------------------------------------------------------------------------
// Layers
// ---------------------------------------------------------------------------

/// The four channels of texel `(x, y)` of a four-channel layer.
pub open spec fn texel_at(data: Seq<u8>, x: u32, y: u32) -> (u8, u8, u8, u8) {
    let i = (y * 256 + x) * 4;
    (data[i], data[i + 1], data[i + 2], data[i + 3])
}

/// The byte of texel `(x, y)` of a single-channel layer.
pub open spec fn gray_at(data: Seq<u8>, x: u32, y: u32) -> u8 {
    data[y * 256 + x]
}

/// Four-channel maps, one albedo and one normal map per facade style.
#[derive(Clone, Copy, Debug, PartialEq, Eq, Structural)]
pub enum RgbaMap {
    BrickAlbedo,
    BrickNormal,
    ConcreteAlbedo,
    ConcreteNormal,
    GlassAlbedo,
    GlassNormal,
    MetalAlbedo,
    MetalNormal,
    PaintedAlbedo,
    PaintedNormal,
}

/// Single-channel maps with patterns: roughness, metallic and height maps
/// that are not uniform.
#[derive(Clone, Copy, Debug, PartialEq, Eq, Structural)]
pub enum GrayMap {
    BrickRoughness,
    ConcreteRoughness,
    GlassRoughness,
    MetalRoughness,
    PaintedRoughness,
    GlassMetallic,
    MetalMetallic,
    BrickHeight,
    ConcreteHeight,
    GlassHeight,
    MetalHeight,
    PaintedHeight,
}

#[verifier::opaque]
pub open spec fn rgba_texel(map: RgbaMap, x: u32, y: u32) -> (u8, u8, u8, u8) {
    match map {
        RgbaMap::BrickAlbedo => brick_albedo(x, y),
        RgbaMap::BrickNormal => brick_normal(x, y),
        RgbaMap::ConcreteAlbedo => concrete_albedo(x, y),
        RgbaMap::ConcreteNormal => concrete_normal(x, y),
        RgbaMap::GlassAlbedo => glass_albedo(x, y),
        RgbaMap::GlassNormal => glass_normal(x, y),
        RgbaMap::MetalAlbedo => metal_albedo(x, y),
        RgbaMap::MetalNormal => metal_normal(x, y),
        RgbaMap::PaintedAlbedo => painted_albedo(x, y),
        RgbaMap::PaintedNormal => painted_normal(x, y),
    }
}

#[verifier::opaque]
pub open spec fn gray_texel(map: GrayMap, x: u32, y: u32) -> u8 {
    match map {
        GrayMap::BrickRoughness => brick_roughness(x, y),
        GrayMap::ConcreteRoughness => concrete_roughness(x, y),
        GrayMap::GlassRoughness => glass_roughness(x, y),
        GrayMap::MetalRoughness => metal_roughness(x, y),
        GrayMap::PaintedRoughness => painted_roughness(x, y),
        GrayMap::GlassMetallic => glass_metallic(x, y),
        GrayMap::MetalMetallic => metal_metallic(x, y),
        GrayMap::BrickHeight => brick_height(x, y),
        GrayMap::ConcreteHeight => concrete_height(x, y),
        GrayMap::GlassHeight => glass_height(x, y),
        GrayMap::MetalHeight => metal_height(x, y),
        GrayMap::PaintedHeight => painted_height(x, y),
    }
}

fn compute_rgba_texel(map: RgbaMap, x: u32, y: u32) -> (r: (u8, u8, u8, u8))
    requires
        x < 256,
        y < 256,
    ensures
        r == rgba_texel(map, x, y),
{
    reveal(rgba_texel);
    match map {
        RgbaMap::BrickAlbedo => brick_albedo_texel(x, y),
        RgbaMap::BrickNormal => brick_normal_texel(x, y),
        RgbaMap::ConcreteAlbedo => concrete_albedo_texel(x, y),
        RgbaMap::ConcreteNormal => concrete_normal_texel(x, y),
        RgbaMap::GlassAlbedo => glass_albedo_texel(x, y),
        RgbaMap::GlassNormal => (128, 128, 255, 255),
        RgbaMap::MetalAlbedo => metal_albedo_texel(x, y),
        RgbaMap::MetalNormal => metal_normal_texel(x, y),
        RgbaMap::PaintedAlbedo => painted_albedo_texel(x, y),
        RgbaMap::PaintedNormal => painted_normal_texel(x, y),
    }
}

fn compute_gray_texel(map: GrayMap, x: u32, y: u32) -> (r: u8)
    requires
        x < 256,
        y < 256,
    ensures
        r == gray_texel(map, x, y),
{
    reveal(gray_texel);
    match map {
        GrayMap::BrickRoughness => brick_roughness_texel(x, y),
        GrayMap::ConcreteRoughness => concrete_roughness_texel(x, y),
        GrayMap::GlassRoughness => {
            if glass_frame(x, y) {
                150
            } else {
                25
            }
        },
        GrayMap::MetalRoughness => metal_roughness_texel(x, y),
        GrayMap::PaintedRoughness => painted_roughness_texel(x, y),
        GrayMap::GlassMetallic => glass_metallic_texel(x, y),
        GrayMap::MetalMetallic => metal_metallic_texel(x, y),
        GrayMap::BrickHeight => brick_height_texel(x, y),
        GrayMap::ConcreteHeight => concrete_height_texel(x, y),
        GrayMap::GlassHeight => glass_height_texel(x, y),
        GrayMap::MetalHeight => metal_height_texel(x, y),
        GrayMap::PaintedHeight => painted_height_texel(x, y),
    }
}

/// A four-channel layer filled texel by texel from one map.
pub fn fill_rgba_layer(map: RgbaMap) -> (data: Vec<u8>)
    ensures
        data@.len() == RGBA_LAYER_BYTES,
        forall|x: u32, y: u32|
            x < 256 && y < 256 ==> #[trigger] texel_at(data@, x, y) == rgba_texel(map, x, y),
{
    let mut data: Vec<u8> = vec![0u8; RGBA_LAYER_BYTES];
    let mut y: u32 = 0;
    while y < TEXTURE_SIZE
        invariant
            y <= 256,
            data@.len() == RGBA_LAYER_BYTES,
            forall|a: u32, b: u32|
                a < 256 && b < y ==> #[trigger] texel_at(data@, a, b) == rgba_texel(map, a, b),
        decreases 256 - y,
    {
        let mut x: u32 = 0;
        while x < TEXTURE_SIZE
            invariant
                x <= 256,
                y < 256,
                data@.len() == RGBA_LAYER_BYTES,
                forall|a: u32, b: u32|
                    (a < 256 && b < y) || (a < x && b == y) ==> #[trigger] texel_at(data@, a, b)
                        == rgba_texel(map, a, b),
            decreases 256 - x,
        {
            let idx = ((y * TEXTURE_SIZE + x) * 4) as usize;
            let t = compute_rgba_texel(map, x, y);
            let ghost before = data@;
            data.set(idx, t.0);
            data.set(idx + 1, t.1);
            data.set(idx + 2, t.2);
            data.set(idx + 3, t.3);
            proof {
                assert forall|a: u32, b: u32|
                    (a < 256 && b < y) || (a < x + 1 && b == y) implies #[trigger] texel_at(
                    data@,
                    a,
                    b,
                ) == rgba_texel(map, a, b) by {
                    if a != x || b != y {
                        assert(texel_at(data@, a, b) == texel_at(before, a, b));
                    }
                }
            }
            x = x + 1;
        }
        y = y + 1;
    }
    data
}

/// A single-channel layer filled texel by texel from one map.
pub fn fill_gray_layer(map: GrayMap) -> (data: Vec<u8>)
    ensures
        data@.len() == R8_LAYER_BYTES,
        forall|x: u32, y: u32|
            x < 256 && y < 256 ==> #[trigger] gray_at(data@, x, y) == gray_texel(map, x, y),
{
    let mut data: Vec<u8> = vec![0u8; R8_LAYER_BYTES];
    let mut y: u32 = 0;
    while y < TEXTURE_SIZE
        invariant
            y <= 256,
            data@.len() == R8_LAYER_BYTES,
            forall|a: u32, b: u32|
                a < 256 && b < y ==> #[trigger] gray_at(data@, a, b) == gray_texel(map, a, b),
        decreases 256 - y,
    {
        let mut x: u32 = 0;
        while x < TEXTURE_SIZE
            invariant
                x <= 256,
                y < 256,
                data@.len() == R8_LAYER_BYTES,
                forall|a: u32, b: u32|
                    (a < 256 && b < y) || (a < x && b == y) ==> #[trigger] gray_at(data@, a, b)
                        == gray_texel(map, a, b),
            decreases 256 - x,
        {
            let idx = (y * TEXTURE_SIZE + x) as usize;
            let v = compute_gray_texel(map, x, y);
            let ghost before = data@;
            data.set(idx, v);
            proof {
                assert forall|a: u32, b: u32|
                    (a < 256 && b < y) || (a < x + 1 && b == y) implies #[trigger] gray_at(
                    data@,
                    a,
                    b,
                ) == gray_texel(map, a, b) by {
                    if a != x || b != y {
                        assert(gray_at(data@, a, b) == gray_at(before, a, b));
                    }
                }
            }
            x = x + 1;
        }
        y = y + 1;
    }
    data
}

/// A single-channel layer with every byte zero (entirely non-metallic).
pub fn zero_gray_layer() -> (data: Vec<u8>)
    ensures
        data@.len() == R8_LAYER_BYTES,
        forall|x: u32, y: u32| x < 256 && y < 256 ==> #[trigger] gray_at(data@, x, y) == 0,
{
    let data: Vec<u8> = vec![0u8; R8_LAYER_BYTES];
    data
}


// ---------------------------------------------------------------------------
// Facade maps
// ---------------------------------------------------------------------------

/// Brick albedo: staggered bricks in four reds and browns with hashed variation, light mortar joints.
pub fn generate_brick_texture() -> (r: Vec<u8>)
    ensures
        r@.len() == RGBA_LAYER_BYTES,
        forall|x: u32, y: u32| x < 256 && y < 256 ==> #[trigger] texel_at(r@, x, y) == brick_albedo(x, y),
{
    let r = fill_rgba_layer(RgbaMap::BrickAlbedo);
    proof {
        reveal(rgba_texel);
    }
    r
}

/// Brick normal map: mortar joints tilt toward the bricks, brick faces vary slightly.
pub fn generate_brick_normal() -> (r: Vec<u8>)
    ensures
        r@.len() == RGBA_LAYER_BYTES,
        forall|x: u32, y: u32| x < 256 && y < 256 ==> #[trigger] texel_at(r@, x, y) == brick_normal(x, y),
{
    let r = fill_rgba_layer(RgbaMap::BrickNormal);
    proof {
        reveal(rgba_texel);
    }
    r
}

/// Concrete albedo: light gray with noise at three scales and occasional dark pits.
pub fn generate_concrete_texture() -> (r: Vec<u8>)
    ensures
        r@.len() == RGBA_LAYER_BYTES,
        forall|x: u32, y: u32| x < 256 && y < 256 ==> #[trigger] texel_at(r@, x, y) == concrete_albedo(x, y),
{
    let r = fill_rgba_layer(RgbaMap::ConcreteAlbedo);
    proof {
        reveal(rgba_texel);
    }
    r
}

/// Concrete normal map: subtle surface variation.
pub fn generate_concrete_normal() -> (r: Vec<u8>)
    ensures
        r@.len() == RGBA_LAYER_BYTES,
        forall|x: u32, y: u32| x < 256 && y < 256 ==> #[trigger] texel_at(r@, x, y) == concrete_normal(x, y),
{
    let r = fill_rgba_layer(RgbaMap::ConcreteNormal);
    proof {
        reveal(rgba_texel);
    }
    r
}

/// Glass albedo: dark framed panels with a vertical reflection gradient.
pub fn generate_glass_texture() -> (r: Vec<u8>)
    ensures
        r@.len() == RGBA_LAYER_BYTES,
        forall|x: u32, y: u32| x < 256 && y < 256 ==> #[trigger] texel_at(r@, x, y) == glass_albedo(x, y),
{
    let r = fill_rgba_layer(RgbaMap::GlassAlbedo);
    proof {
        reveal(rgba_texel);
    }
    r
}

/// Glass normal map: flat.
pub fn generate_glass_normal() -> (r: Vec<u8>)
    ensures
        r@.len() == RGBA_LAYER_BYTES,
        forall|x: u32, y: u32| x < 256 && y < 256 ==> #[trigger] texel_at(r@, x, y) == glass_normal(x, y),
{
    let r = fill_rgba_layer(RgbaMap::GlassNormal);
    proof {
        reveal(rgba_texel);
    }
    r
}

/// Metal albedo: steel gray with brighter horizontal ribs.
pub fn generate_metal_texture() -> (r: Vec<u8>)
    ensures
        r@.len() == RGBA_LAYER_BYTES,
        forall|x: u32, y: u32| x < 256 && y < 256 ==> #[trigger] texel_at(r@, x, y) == metal_albedo(x, y),
{
    let r = fill_rgba_layer(RgbaMap::MetalAlbedo);
    proof {
        reveal(rgba_texel);
    }
    r
}

/// Metal normal map: ribs rise and fall.
pub fn generate_metal_normal() -> (r: Vec<u8>)
    ensures
        r@.len() == RGBA_LAYER_BYTES,
        forall|x: u32, y: u32| x < 256 && y < 256 ==> #[trigger] texel_at(r@, x, y) == metal_normal(x, y),
{
    let r = fill_rgba_layer(RgbaMap::MetalNormal);
    proof {
        reveal(rgba_texel);
    }
    r
}

/// Painted albedo: cream surface with very subtle noise.
pub fn generate_painted_texture() -> (r: Vec<u8>)
    ensures
        r@.len() == RGBA_LAYER_BYTES,
        forall|x: u32, y: u32| x < 256 && y < 256 ==> #[trigger] texel_at(r@, x, y) == painted_albedo(x, y),
{
    let r = fill_rgba_layer(RgbaMap::PaintedAlbedo);
    proof {
        reveal(rgba_texel);
    }
    r
}

/// Painted normal map: faint brush strokes.
pub fn generate_painted_normal() -> (r: Vec<u8>)
    ensures
        r@.len() == RGBA_LAYER_BYTES,
        forall|x: u32, y: u32| x < 256 && y < 256 ==> #[trigger] texel_at(r@, x, y) == painted_normal(x, y),
{
    let r = fill_rgba_layer(RgbaMap::PaintedNormal);
    proof {
        reveal(rgba_texel);
    }
    r
}

/// Brick roughness: rough bricks, slightly smoother mortar.
pub fn generate_brick_roughness() -> (r: Vec<u8>)
    ensures
        r@.len() == R8_LAYER_BYTES,
        forall|x: u32, y: u32| x < 256 && y < 256 ==> #[trigger] gray_at(r@, x, y) == brick_roughness(x, y),
{
    let r = fill_gray_layer(GrayMap::BrickRoughness);
    proof {
        reveal(gray_texel);
    }
    r
}

/// Concrete roughness: rough with occasional polished patches.
pub fn generate_concrete_roughness() -> (r: Vec<u8>)
    ensures
        r@.len() == R8_LAYER_BYTES,
        forall|x: u32, y: u32| x < 256 && y < 256 ==> #[trigger] gray_at(r@, x, y) == concrete_roughness(x, y),
{
    let r = fill_gray_layer(GrayMap::ConcreteRoughness);
    proof {
        reveal(gray_texel);
    }
    r
}

/// Glass roughness: very smooth glass, rougher frames.
pub fn generate_glass_roughness() -> (r: Vec<u8>)
    ensures
        r@.len() == R8_LAYER_BYTES,
        forall|x: u32, y: u32| x < 256 && y < 256 ==> #[trigger] gray_at(r@, x, y) == glass_roughness(x, y),
{
    let r = fill_gray_layer(GrayMap::GlassRoughness);
    proof {
        reveal(gray_texel);
    }
    r
}

/// Metal roughness: ribs slightly smoother than the sheet between them.
pub fn generate_metal_roughness() -> (r: Vec<u8>)
    ensures
        r@.len() == R8_LAYER_BYTES,
        forall|x: u32, y: u32| x < 256 && y < 256 ==> #[trigger] gray_at(r@, x, y) == metal_roughness(x, y),
{
    let r = fill_gray_layer(GrayMap::MetalRoughness);
    proof {
        reveal(gray_texel);
    }
    r
}

/// Painted roughness: moderate with brush stroke variation.
pub fn generate_painted_roughness() -> (r: Vec<u8>)
    ensures
        r@.len() == R8_LAYER_BYTES,
        forall|x: u32, y: u32| x < 256 && y < 256 ==> #[trigger] gray_at(r@, x, y) == painted_roughness(x, y),
{
    let r = fill_gray_layer(GrayMap::PaintedRoughness);
    proof {
        reveal(gray_texel);
    }
    r
}

/// Glass metallic map: aluminium frames, non-metallic glass.
pub fn generate_glass_metallic() -> (r: Vec<u8>)
    ensures
        r@.len() == R8_LAYER_BYTES,
        forall|x: u32, y: u32| x < 256 && y < 256 ==> #[trigger] gray_at(r@, x, y) == glass_metallic(x, y),
{
    let r = fill_gray_layer(GrayMap::GlassMetallic);
    proof {
        reveal(gray_texel);
    }
    r
}

/// Metal metallic map: highly metallic with slight variation.
pub fn generate_metal_metallic() -> (r: Vec<u8>)
    ensures
        r@.len() == R8_LAYER_BYTES,
        forall|x: u32, y: u32| x < 256 && y < 256 ==> #[trigger] gray_at(r@, x, y) == metal_metallic(x, y),
{
    let r = fill_gray_layer(GrayMap::MetalMetallic);
    proof {
        reveal(gray_texel);
    }
    r
}

/// Brick height map: raised bricks, recessed mortar.
pub fn generate_brick_height() -> (r: Vec<u8>)
    ensures
        r@.len() == R8_LAYER_BYTES,
        forall|x: u32, y: u32| x < 256 && y < 256 ==> #[trigger] gray_at(r@, x, y) == brick_height(x, y),
{
    let r = fill_gray_layer(GrayMap::BrickHeight);
    proof {
        reveal(gray_texel);
    }
    r
}

/// Concrete height map: subtle variation with occasional pits.
pub fn generate_concrete_height() -> (r: Vec<u8>)
    ensures
        r@.len() == R8_LAYER_BYTES,
        forall|x: u32, y: u32| x < 256 && y < 256 ==> #[trigger] gray_at(r@, x, y) == concrete_height(x, y),
{
    let r = fill_gray_layer(GrayMap::ConcreteHeight);
    proof {
        reveal(gray_texel);
    }
    r
}

/// Glass height map: flat glass, slightly raised frames.
pub fn generate_glass_height() -> (r: Vec<u8>)
    ensures
        r@.len() == R8_LAYER_BYTES,
        forall|x: u32, y: u32| x < 256 && y < 256 ==> #[trigger] gray_at(r@, x, y) == glass_height(x, y),
{
    let r = fill_gray_layer(GrayMap::GlassHeight);
    proof {
        reveal(gray_texel);
    }
    r
}

/// Metal height map: the corrugation profile.
pub fn generate_metal_height() -> (r: Vec<u8>)
    ensures
        r@.len() == R8_LAYER_BYTES,
        forall|x: u32, y: u32| x < 256 && y < 256 ==> #[trigger] gray_at(r@, x, y) == metal_height(x, y),
{
    let r = fill_gray_layer(GrayMap::MetalHeight);
    proof {
        reveal(gray_texel);
    }
    r
}

/// Painted height map: very subtle brush texture.
pub fn generate_painted_height() -> (r: Vec<u8>)
    ensures
        r@.len() == R8_LAYER_BYTES,
        forall|x: u32, y: u32| x < 256 && y < 256 ==> #[trigger] gray_at(r@, x, y) == painted_height(x, y),
{
    let r = fill_gray_layer(GrayMap::PaintedHeight);
    proof {
        reveal(gray_texel);
    }
    r
}

/// Brick is entirely non-metallic.
pub fn generate_brick_metallic() -> (r: Vec<u8>)
    ensures
        r@.len() == R8_LAYER_BYTES,
        forall|x: u32, y: u32| x < 256 && y < 256 ==> #[trigger] gray_at(r@, x, y) == 0,
{
    zero_gray_layer()
}

/// Concrete is entirely non-metallic.
pub fn generate_concrete_metallic() -> (r: Vec<u8>)
    ensures
        r@.len() == R8_LAYER_BYTES,
        forall|x: u32, y: u32| x < 256 && y < 256 ==> #[trigger] gray_at(r@, x, y) == 0,
{
    zero_gray_layer()
}

/// Painted surfaces are non-metallic.
pub fn generate_painted_metallic() -> (r: Vec<u8>)
    ensures
        r@.len() == R8_LAYER_BYTES,
        forall|x: u32, y: u32| x < 256 && y < 256 ==> #[trigger] gray_at(r@, x, y) == 0,
{
    zero_gray_layer()
}

// ---------------------------------------------------------------------------
// Texture arrays
// ---------------------------------------------------------------------------

/// The byte contents of a list of layers.
pub open spec fn layer_bytes(layers: Seq<Vec<u8>>) -> Seq<Seq<u8>> {
    layers.map_values(|l: Vec<u8>| l@)
}

/// Bytes of a texture array: the layers' bytes one after another, first
/// layer first.
pub fn stack_layers(layers: &Vec<Vec<u8>>) -> (r: Vec<u8>)
    requires
        layer_bytes(layers@).flatten().len() <= usize::MAX,
    ensures
        r@ == layer_bytes(layers@).flatten(),
{
    let mut data: Vec<u8> = Vec::new();
    let mut k: usize = 0;
    while k < layers.len()
        invariant
            k <= layers@.len(),
            data@ == layer_bytes(layers@.take(k as int)).flatten(),
        decreases layers@.len() - k,
    {
        let ghost before = data@;
        data.extend_from_slice(layers[k].as_slice());
        proof {
            assert(layer_bytes(layers@.take(k + 1)) =~= layer_bytes(layers@.take(k as int)).push(
                layers@[k as int]@,
            ));
            layer_bytes(layers@.take(k as int)).lemma_flatten_push(layers@[k as int]@);
            assert(data@ =~= before + layers@[k as int]@);
        }
        k = k + 1;
    }
    proof {
        assert(layers@.take(layers@.len() as int) =~= layers@);
    }
    data
}

/// In a stack of equally long layers, byte `p` of layer `k` sits at
/// `k * len + p`: the texture array is addressed layer by layer.
pub proof fn lemma_stacked_layer_offsets(layers: Seq<Seq<u8>>, len: int, k: int, p: int)
    requires
        len >= 0,
        forall|i: int| 0 <= i < layers.len() ==> (#[trigger] layers[i]).len() == len,
        0 <= k < layers.len(),
        0 <= p < len,
    ensures
        layers.flatten().len() == layers.len() * len,
        layers.flatten()[k * len + p] == layers[k][p],
    decreases layers.len(),
{
    lemma_stacked_layers_len(layers, len);
    let rest = layers.drop_first();
    assert forall|i: int| 0 <= i < rest.len() implies (#[trigger] rest[i]).len() == len by {
        assert(rest[i] == layers[i + 1]);
    }
    lemma_stacked_layers_len(rest, len);
    assert(layers.flatten() == layers.first().add(rest.flatten()));
    assert(layers.first().len() == len);
    if k > 0 {
        lemma_stacked_layer_offsets(rest, len, k - 1, p);
        assert(rest[k - 1] == layers[k]);
        let idx = k * len + p;
        assert((k - 1) * len + p + len == idx) by (nonlinear_arith)
            requires
                idx == k * len + p,
        ;
        assert((k - 1) * len + p < rest.len() * len) by (nonlinear_arith)
            requires
                0 <= k - 1 < rest.len(),
                0 <= p < len,
        ;
        assert(layers.flatten()[idx] == rest.flatten()[idx - len]);
    } else {
        assert(k * len == 0);
    }
}

/// A stack of layers of one length is that length times the layer count.
proof fn lemma_stacked_layers_len(layers: Seq<Seq<u8>>, len: int)
    requires
        len >= 0,
        forall|i: int| 0 <= i < layers.len() ==> (#[trigger] layers[i]).len() == len,
    ensures
        layers.flatten().len() == layers.len() * len,
    decreases layers.len(),
{
    if layers.len() > 0 {
        let rest = layers.drop_first();
        assert forall|i: int| 0 <= i < rest.len() implies (#[trigger] rest[i]).len() == len by {
            assert(rest[i] == layers[i + 1]);
        }
        lemma_stacked_layers_len(rest, len);
        assert(layers.len() * len == rest.len() * len + len) by (nonlinear_arith)
            requires
                rest.len() == layers.len() - 1,
        ;
    }
}

/// Texture array layer of each facade style: brick, concrete, glass, metal,
/// painted.
pub open spec fn facade_layer(facade: FacadeStyle) -> u32 {
    match facade {
        FacadeStyle::Brick => 0,
        FacadeStyle::Concrete => 1,
        FacadeStyle::Glass => 2,
        FacadeStyle::Metal => 3,
        FacadeStyle::Painted => 4,
    }
}

/// Get the texture array layer index for a facade style.
pub fn facade_to_layer(facade: FacadeStyle) -> (r: u32)
    ensures
        r == facade_layer(facade),
        r < NUM_FACADE_TYPES,
{
    match facade {
        FacadeStyle::Brick => 0,
        FacadeStyle::Concrete => 1,
        FacadeStyle::Glass => 2,
        FacadeStyle::Metal => 3,
        FacadeStyle::Painted => 4,
    }
}

/// Get facade style from layer index.
pub fn layer_to_facade(layer: u32) -> (r: Option<FacadeStyle>)
    ensures
        layer < NUM_FACADE_TYPES <==> r is Some,
        r matches Some(f) ==> facade_layer(f) == layer,
{
    match layer {
        0 => Some(FacadeStyle::Brick),
        1 => Some(FacadeStyle::Concrete),
        2 => Some(FacadeStyle::Glass),
        3 => Some(FacadeStyle::Metal),
        4 => Some(FacadeStyle::Painted),
        _ => None,
    }
}

/// Layer indices and facade styles correspond one to one: each style has
/// its own layer below the layer count, and the style read back from a
/// style's layer is that style.
pub proof fn lemma_facade_layers_roundtrip(f: FacadeStyle, g: FacadeStyle)
    ensures
        facade_layer(f) < NUM_FACADE_TYPES,
        facade_layer(f) == facade_layer(g) ==> f == g,
{
}

/// A texture array layer holds the same facade style as the shader index
/// that building instances carry.
pub proof fn lemma_layer_matches_instance_index(f: FacadeStyle)
    ensures
        facade_layer(f) == crate::render::building_instances::facade_index(f),
{
}


/// Brick courses are laid in running bond: outside the horizontal joints, a
/// brick texel shows the mortar colour exactly in the vertical joints, which
/// sit at `x % 34 >= 32` on even courses and half a brick (16 texels) over,
/// at `(x + 16) % 34 >= 32`, on odd courses.
pub proof fn lemma_brick_courses_staggered(x: u32, y: u32)
    requires
        y % 18 < 16,
    ensures
        (brick_albedo(x, y) == (210u8, 205u8, 195u8, 255u8)) <==> (if (y / 18) % 2 == 0 {
            x % 34 >= 32
        } else {
            (x + 16) % 34 >= 32
        }),
{
    let d = noise(x, y, 42) as int - 8;
    let c = brick_color(x, y);
    if !in_mortar(x, y) {
        assert(c.0 - c.1 >= 60);
        if clamp_u8(c.0 + d) == 210u8 {
            assert(c.0 + d == 210);
            assert(clamp_u8(c.1 + d) != 205u8);
        }
    }
}

/// The vertical joints of neighbouring courses are half a brick apart: a
/// texel of an odd course lies in a vertical joint exactly when the texel 16
/// to its right, on the same line of the course below, does.
pub proof fn lemma_brick_joints_half_a_brick_apart(x: u32, y: u32)
    requires
        (y / 18) % 2 == 1,
        y % 18 < 16,
        x + 16 <= u32::MAX,
    ensures
        (brick_albedo(x, y) == (210u8, 205u8, 195u8, 255u8)) <==> (brick_albedo(
            (x + 16) as u32,
            (y - 18) as u32,
        ) == (210u8, 205u8, 195u8, 255u8)),
{
    lemma_brick_courses_staggered(x, y);
    lemma_brick_courses_staggered((x + 16) as u32, (y - 18) as u32);
}

/// Metal cladding is highly metallic everywhere: every texel of the metal
/// metallic map lies within 8 of 200.
pub proof fn lemma_metal_highly_metallic(x: u32, y: u32)
    ensures
        192 <= metal_metallic(x, y) <= 208,
{
    let n = noise(x, y, 6666) as int;
    assert(0 <= n <= 255);
    let t = scaled_noise(x, y, 6666, 128, 16);
    assert(-8 <= t <= 7);
}

/// Every albedo texel is opaque, and every normal map texel points out of
/// the surface: blue (the tangent-space Z) and alpha are at full value.
pub proof fn lemma_albedo_opaque_and_normals_outward(x: u32, y: u32)
    ensures
        brick_albedo(x, y).3 == 255,
        concrete_albedo(x, y).3 == 255,
        glass_albedo(x, y).3 == 255,
        metal_albedo(x, y).3 == 255,
        painted_albedo(x, y).3 == 255,
        brick_normal(x, y).2 == 255 && brick_normal(x, y).3 == 255,
        concrete_normal(x, y).2 == 255 && concrete_normal(x, y).3 == 255,
        glass_normal(x, y).2 == 255 && glass_normal(x, y).3 == 255,
        metal_normal(x, y).2 == 255 && metal_normal(x, y).3 == 255,
        painted_normal(x, y).2 == 255 && painted_normal(x, y).3 == 255,
{
}

/// Mortar joints sit lower in the height map than any brick face.
pub proof fn lemma_mortar_is_recessed(x: u32, y: u32, bx: u32, by: u32)
    requires
        in_mortar(x, y),
        !in_mortar(bx, by),
    ensures
        brick_height(x, y) < brick_height(bx, by),
{
    let n = noise(bx, by, 7777) as int - 128;
    assert(tdiv(n, 16) >= -8);
}

/// Glass panes sit lower in the height map than their frames.
pub proof fn lemma_glass_below_frame(x: u32, y: u32, fx: u32, fy: u32)
    requires
        !in_glass_frame(x, y),
        in_glass_frame(fx, fy),
    ensures
        glass_height(x, y) < glass_height(fx, fy),
{
}

} // verus!

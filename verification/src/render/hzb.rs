//! Depth pyramid (HZB) dimensions and frame bookkeeping.
//!
//! Each mip level of the pyramid halves the level below, down to one texel.

use vstd::prelude::*;

verus! {

/// Number of mip levels of a pyramid whose larger side is `d` texels: one
/// per halving down to a single texel, that is `floor(log2(d)) + 1`, and one
/// level for an empty side.
pub open spec fn mip_levels(d: nat) -> nat
    decreases d,
{
    if d <= 1 {
        1
    } else {
        1 + mip_levels(d / 2)
    }
}

proof fn lemma_mip_levels_below(d: nat, k: nat)
    requires
        1 <= k,
        d < vstd::arithmetic::power2::pow2(k),
    ensures
        1 <= mip_levels(d) <= k,
    decreases k,
{
    if d > 1 {
        vstd::arithmetic::power2::lemma_pow2_unfold(k);
        if k == 1 {
            vstd::arithmetic::power2::lemma2_to64();
        } else {
            lemma_mip_levels_below(d / 2, (k - 1) as nat);
        }
    }
}

proof fn lemma_mip_levels_bound(d: nat)
    requires
        d < 0x1_0000_0000,
    ensures
        1 <= mip_levels(d) <= 32,
{
    vstd::arithmetic::power2::lemma2_to64();
    lemma_mip_levels_below(d, 32);
}

/// Calculate the number of mip levels for a given resolution.
pub fn calculate_mip_count(width: u32, height: u32) -> (r: u32)
    ensures
        r == mip_levels(if width > height { width as nat } else { height as nat }),
        1 <= r <= 32,
{
    let max_dim = if width > height { width } else { height };
    proof {
        lemma_mip_levels_bound(max_dim as nat);
    }
    let mut d = max_dim;
    let mut count: u32 = 1;
    while d > 1
        invariant
            1 <= count,
            count + mip_levels(d as nat) == 1 + mip_levels(max_dim as nat),
            mip_levels(max_dim as nat) <= 32,
        decreases d,
    {
        d = d / 2;
        count = count + 1;
    }
    count
}

/// Doubling the larger side adds exactly one mip level.
pub proof fn lemma_mip_levels_double(d: nat)
    requires
        d >= 1,
    ensures
        mip_levels(2 * d) == mip_levels(d) + 1,
{
    assert((2 * d) / 2 == d);
}

/// The chain of a side of `d` texels halves down to one texel exactly at its
/// last level: every earlier level is at least two texels wide.
pub proof fn lemma_chain_ends_at_one_texel(d: nat, l: nat)
    requires
        d >= 1,
        l < mip_levels(d),
    ensures
        d / vstd::arithmetic::power2::pow2(l) >= 1,
        d / vstd::arithmetic::power2::pow2(l) == 1 <==> l == mip_levels(d) - 1,
    decreases d,
{
    vstd::arithmetic::power2::lemma2_to64();
    if d >= 2 {
        assert(mip_levels(d) == 1 + mip_levels(d / 2));
        if l >= 1 {
            let p = vstd::arithmetic::power2::pow2((l - 1) as nat);
            vstd::arithmetic::power2::lemma_pow2_unfold(l);
            vstd::arithmetic::power2::lemma_pow2_pos((l - 1) as nat);
            vstd::arithmetic::div_mod::lemma_div_denominator(d as int, 2, p as int);
            assert(d / vstd::arithmetic::power2::pow2(l) == (d / 2) / p);
            lemma_chain_ends_at_one_texel(d / 2, (l - 1) as nat);
        } else {
            lemma_mip_levels_monotonic(1, d / 2);
            assert(d / vstd::arithmetic::power2::pow2(l) == d);
        }
    } else {
        assert(l == 0);
        assert(d / vstd::arithmetic::power2::pow2(l) == 1);
    }
}

/// A larger side never has fewer mip levels.
pub proof fn lemma_mip_levels_monotonic(a: nat, b: nat)
    requires
        a <= b,
    ensures
        mip_levels(a) <= mip_levels(b),
    decreases b,
{
    if a > 1 {
        lemma_mip_levels_monotonic(a / 2, b / 2);
    }
}

/// Size of one side at a mip level: halved once per level, at least one.
pub open spec fn mip_side(base: u32, level: u32) -> u32 {
    let s = base as nat / vstd::arithmetic::power2::pow2(level as nat);
    if s >= 1 { s as u32 } else { 1 }
}

/// Configuration for the HZB pyramid dimensions.
#[derive(Clone, Copy, Debug, PartialEq, Eq, Structural)]
pub struct HzbPyramidConfig {
    /// Base resolution of the pyramid (usually matches render target)
    pub base_width: u32,
    pub base_height: u32,
    /// Maximum number of mip levels
    pub max_mip_levels: u32,
}

impl Default for HzbPyramidConfig {
    fn default() -> (r: Self)
        ensures
            r.base_width == 1920,
            r.base_height == 1080,
            r.max_mip_levels == 10,
    {
        HzbPyramidConfig { base_width: 1920, base_height: 1080, max_mip_levels: 10 }
    }
}

impl HzbPyramidConfig {
    /// Number of mip levels of the full chain for the base resolution.
    pub open spec fn full_chain(self) -> nat {
        mip_levels(
            if self.base_width > self.base_height {
                self.base_width as nat
            } else {
                self.base_height as nat
            },
        )
    }

    /// Create config from window size.
    pub fn from_window(width: u32, height: u32) -> (r: Self)
        ensures
            r.base_width == width,
            r.base_height == height,
            r.max_mip_levels == r.full_chain(),
    {
        let max_mips = calculate_mip_count(width, height);
        HzbPyramidConfig { base_width: width, base_height: height, max_mip_levels: max_mips }
    }

    /// Get the actual number of mip levels for current resolution.
    pub fn mip_count(&self) -> (r: u32)
        ensures
            r == (if self.full_chain() < self.max_mip_levels {
                self.full_chain()
            } else {
                self.max_mip_levels as nat
            }),
    {
        let full = calculate_mip_count(self.base_width, self.base_height);
        if full < self.max_mip_levels {
            full
        } else {
            self.max_mip_levels
        }
    }

    /// Get the size of a specific mip level.
    pub fn mip_size(&self, level: u32) -> (r: (u32, u32))
        requires
            level < 32,
        ensures
            r == (mip_side(self.base_width, level), mip_side(self.base_height, level)),
    {
        (side_at_level(self.base_width, level), side_at_level(self.base_height, level))
    }
}

fn side_at_level(base: u32, level: u32) -> (r: u32)
    requires
        level < 32,
    ensures
        r == mip_side(base, level),
{
    let s = base >> level;
    proof {
        vstd::bits::lemma_u32_shr_is_div(base, level);
    }
    if s >= 1 {
        s
    } else {
        1
    }
}

/// Uniforms of one downsampling pass, from one mip level to the next.
#[derive(Clone, Copy, Debug)]
pub struct HzbGenerateUniforms {
    /// Input mip dimensions
    pub input_size: [u32; 2],
    /// Output mip dimensions
    pub output_size: [u32; 2],
    /// Source mip level
    pub src_mip: u32,
    /// Destination mip level
    pub dst_mip: u32,
    /// Padding
    pub _padding: [u32; 2],
}

impl HzbGenerateUniforms {
    /// Uniforms for a pass from `src_mip` to `dst_mip`, with zeroed padding.
    pub fn new(
        input_width: u32,
        input_height: u32,
        output_width: u32,
        output_height: u32,
        src_mip: u32,
        dst_mip: u32,
    ) -> (r: Self)
        ensures
            r.input_size == [input_width, input_height],
            r.output_size == [output_width, output_height],
            r.src_mip == src_mip,
            r.dst_mip == dst_mip,
            r._padding == [0u32, 0u32],
    {
        HzbGenerateUniforms {
            input_size: [input_width, input_height],
            output_size: [output_width, output_height],
            src_mip,
            dst_mip,
            _padding: [0; 2],
        }
    }
}

/// The last level of a configuration's full chain is one texel by one
/// texel.
pub proof fn lemma_full_chain_ends_one_by_one(config: HzbPyramidConfig)
    ensures
        1 <= config.full_chain() <= 32,
        mip_side(config.base_width, (config.full_chain() - 1) as u32) == 1,
        mip_side(config.base_height, (config.full_chain() - 1) as u32) == 1,
{
    let w = config.base_width as nat;
    let h = config.base_height as nat;
    let d = if w > h { w } else { h };
    lemma_mip_levels_bound(d);
    let l = (config.full_chain() - 1) as nat;
    vstd::arithmetic::power2::lemma_pow2_pos(l);
    let p = vstd::arithmetic::power2::pow2(l);
    if d >= 1 {
        lemma_chain_ends_at_one_texel(d, l);
    } else {
        assert(d / p == 0);
    }
    vstd::arithmetic::div_mod::lemma_div_is_ordered(w as int, d as int, p as int);
    vstd::arithmetic::div_mod::lemma_div_is_ordered(h as int, d as int, p as int);
    assert(((config.full_chain() - 1) as u32) as nat == l);
}

/// The HZB depth pyramid, generic over the handle type of its textures.
pub struct HzbPyramid<H> {
    /// The pyramid texture with all mip levels
    pub texture: Option<H>,
    /// Current pyramid configuration
    pub config: HzbPyramidConfig,
    /// Previous frame's pyramid (for temporal stability)
    pub previous_frame: Option<H>,
    /// Whether the pyramid needs regeneration
    pub dirty: bool,
    /// Frame counter for double-buffering
    pub frame_index: u32,
}

impl<H> HzbPyramid<H> {
    /// The frame counter.
    pub open spec fn frame(&self) -> u32 {
        self.frame_index
    }

    /// Create a new pyramid with the given configuration.
    pub fn new(config: HzbPyramidConfig) -> (r: Self)
        ensures
            r.texture is None,
            r.previous_frame is None,
            r.config == config,
            r.dirty,
            r.frame() == 0,
    {
        HzbPyramid { texture: None, config, previous_frame: None, dirty: true, frame_index: 0 }
    }

    /// A pyramid with the default configuration.
    pub fn with_default_config() -> (r: Self)
        ensures
            r.texture is None,
            r.previous_frame is None,
            r.config.base_width == 1920,
            r.config.base_height == 1080,
            r.config.max_mip_levels == 10,
            r.dirty,
            r.frame() == 0,
    {
        Self::new(HzbPyramidConfig::default())
    }

    /// Update configuration (marks pyramid as dirty) when the resolution
    /// changed; otherwise nothing changes.
    pub fn update_config(&mut self, width: u32, height: u32)
        ensures
            old(self).config.base_width == width && old(self).config.base_height == height
                ==> final(self).config == old(self).config && final(self).dirty == old(self).dirty,
            !(old(self).config.base_width == width && old(self).config.base_height == height) ==> {
                &&& final(self).config.base_width == width
                &&& final(self).config.base_height == height
                &&& final(self).config.max_mip_levels == final(self).config.full_chain()
                &&& final(self).dirty
            },
            final(self).texture == old(self).texture,
            final(self).previous_frame == old(self).previous_frame,
            final(self).frame() == old(self).frame(),
    {
        if self.config.base_width != width || self.config.base_height != height {
            self.config = HzbPyramidConfig::from_window(width, height);
            self.dirty = true;
        }
    }

    /// Get the current mip count.
    pub fn mip_count(&self) -> (r: u32)
        ensures
            r == (if self.config.full_chain() < self.config.max_mip_levels {
                self.config.full_chain()
            } else {
                self.config.max_mip_levels as nat
            }),
    {
        self.config.mip_count()
    }

    /// Get pyramid dimensions at base level.
    pub fn dimensions(&self) -> (r: (u32, u32))
        ensures
            r == (self.config.base_width, self.config.base_height),
    {
        (self.config.base_width, self.config.base_height)
    }

    /// Advance frame and swap buffers.
    pub fn advance_frame(&mut self)
        ensures
            final(self).frame() == (if old(self).frame() == u32::MAX {
                0
            } else {
                (old(self).frame() + 1) as u32
            }),
            final(self).texture == old(self).previous_frame,
            final(self).previous_frame == old(self).texture,
            final(self).dirty,
            final(self).config == old(self).config,
    {
        self.frame_index = self.frame_index.wrapping_add(1);
        std::mem::swap(&mut self.texture, &mut self.previous_frame);
        self.dirty = true;
    }

    /// Get the texture to use for occlusion queries.
    /// Returns previous frame's pyramid for temporal stability.
    pub fn query_texture(&self) -> (r: Option<&H>)
        ensures
            r == (match self.previous_frame {
                Some(h) => Some(&h),
                None => match self.texture {
                    Some(h) => Some(&h),
                    None => None,
                },
            }),
    {
        match &self.previous_frame {
            Some(h) => Some(h),
            None => match &self.texture {
                Some(h) => Some(h),
                None => None,
            },
        }
    }
}

/// Advancing two frames swaps the buffers back: the texture and the previous
/// frame's pyramid are where they started.
pub proof fn lemma_double_advance_restores_buffers<H>(
    a: HzbPyramid<H>,
    b: HzbPyramid<H>,
    c: HzbPyramid<H>,
)
    requires
        b.texture == a.previous_frame,
        b.previous_frame == a.texture,
        c.texture == b.previous_frame,
        c.previous_frame == b.texture,
    ensures
        c.texture == a.texture,
        c.previous_frame == a.previous_frame,
{
}

} // verus!

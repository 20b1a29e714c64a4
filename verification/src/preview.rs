//! Images as they are shown, and how they relate to atlases.

use crate::arithmetic::{Arithmetic, ArithmeticModel, Operation};
use crate::atlas::{AtlasMetadata, ARTIFACT_SCHEMA_VERSION};
use crate::config::{BakeMode, ResolvedBakeConfig};
use crate::conversion::lemma_whole_is_not_negative;
use crate::math::Vec3;
use crate::scalar::{Scalar, HALF_BITS, ONE_BITS, TWO_BITS, ZERO_BITS};
use vstd::prelude::*;

verus! {

/// Bits of one over 2.2, the power that encodes a color for a display.
pub const ENCODING_BITS: u32 = 0x3ee8_ba2e;

/// Bits of `255.0`, the last step of a byte.
pub const LAST_STEP_BITS: u32 = 0x437f_0000;

/// What a shown image needs to know of its atlas.
#[derive(Clone, Copy, Debug, PartialEq, Eq, Structural)]
pub struct PreviewMeta {
    pub mode: BakeMode,
    pub camera_width: u32,
    pub camera_height: u32,
    pub light_width: u32,
    pub light_height: u32,
}

impl Default for PreviewMeta {
    fn default() -> (meta: PreviewMeta)
        ensures
            meta == PreviewMeta::initial(),
    {
        PreviewMeta {
            mode: BakeMode::Single,
            camera_width: 1,
            camera_height: 1,
            light_width: 1,
            light_height: 1,
        }
    }
}

impl PreviewMeta {
    /// A single image of one pixel.
    pub open spec fn initial() -> PreviewMeta {
        PreviewMeta {
            mode: BakeMode::Single,
            camera_width: 1,
            camera_height: 1,
            light_width: 1,
            light_height: 1,
        }
    }

    /// What an image of the given settings needs to know.
    pub open spec fn of_config(config: ResolvedBakeConfig) -> PreviewMeta {
        PreviewMeta {
            mode: config.mode,
            camera_width: config.tile_columns(),
            camera_height: config.height,
            light_width: config.light_columns(),
            light_height: config.light_rows(),
        }
    }

    /// What an image with the given layout needs to know.
    pub open spec fn of_metadata(metadata: AtlasMetadata) -> PreviewMeta {
        PreviewMeta {
            mode: metadata.mode,
            camera_width: metadata.camera_width,
            camera_height: metadata.camera_height,
            light_width: metadata.light_width,
            light_height: metadata.light_height,
        }
    }

    /// The layout of an image of the given size.
    pub open spec fn metadata_spec(self, atlas_width: u32, atlas_height: u32) -> AtlasMetadata {
        AtlasMetadata {
            schema_version: ARTIFACT_SCHEMA_VERSION,
            mode: self.mode,
            atlas_width,
            atlas_height,
            camera_width: self.camera_width,
            camera_height: self.camera_height,
            light_width: self.light_width,
            light_height: self.light_height,
            camera_azimuth_wraps: self.mode != BakeMode::Isotropic,
            elevation_clamps: true,
            samples_are_texel_centered: true,
            consumer_applies_macro_cosine: true,
        }
    }

    pub fn from_config(config: &ResolvedBakeConfig) -> (meta: PreviewMeta)
        ensures
            meta == PreviewMeta::of_config(*config),
    {
        PreviewMeta {
            mode: config.mode,
            camera_width: config.camera_tile_width(),
            camera_height: config.camera_tile_height(),
            light_width: config.effective_light_width(),
            light_height: config.effective_light_height(),
        }
    }

    pub fn from_atlas_metadata(metadata: AtlasMetadata) -> (meta: PreviewMeta)
        ensures
            meta == PreviewMeta::of_metadata(metadata),
    {
        PreviewMeta {
            mode: metadata.mode,
            camera_width: metadata.camera_width,
            camera_height: metadata.camera_height,
            light_width: metadata.light_width,
            light_height: metadata.light_height,
        }
    }

    pub fn to_atlas_metadata(self, atlas_width: u32, atlas_height: u32) -> (metadata: AtlasMetadata)
        ensures
            metadata == self.metadata_spec(atlas_width, atlas_height),
    {
        AtlasMetadata {
            schema_version: ARTIFACT_SCHEMA_VERSION,
            mode: self.mode,
            atlas_width,
            atlas_height,
            camera_width: self.camera_width,
            camera_height: self.camera_height,
            light_width: self.light_width,
            light_height: self.light_height,
            camera_azimuth_wraps: self.mode != BakeMode::Isotropic,
            elevation_clamps: true,
            samples_are_texel_centered: true,
            consumer_applies_macro_cosine: true,
        }
    }

    /// The number by which a shader knows the mode.
    pub fn mode_code(self) -> (code: i32)
        ensures
            code == match self.mode {
                BakeMode::Single => 0int,
                BakeMode::Full => 1,
                BakeMode::Isotropic => 2,
            },
    {
        match self.mode {
            BakeMode::Single => 0,
            BakeMode::Full => 1,
            BakeMode::Isotropic => 2,
        }
    }
}

/// Writing out the layout of an image and reading it back gives the same meta
/// data, and a layout that is accepted for the size of the image.
pub proof fn lemma_metadata_round_trips(meta: PreviewMeta, width: u32, height: u32)
    ensures
        PreviewMeta::of_metadata(meta.metadata_spec(width, height)) == meta,
        meta.metadata_spec(width, height).matches_size(width, height),
        forall|w: u32, h: u32|
            #[trigger] meta.metadata_spec(width, height).matches_size(w, h) ==> w == width && h
                == height,
{
}

/// The layout that is written for an image of some settings is the one that the
/// settings ask for.
pub proof fn lemma_metadata_agrees_with_config(config: ResolvedBakeConfig)
    requires
        config.atlas_columns() <= u32::MAX,
        config.atlas_rows() <= u32::MAX,
    ensures
        PreviewMeta::of_config(config).metadata_spec(
            config.atlas_columns() as u32,
            config.atlas_rows() as u32,
        ) == AtlasMetadata::of_config(config),
{
}

/// An image that is shown: colors, and the bytes that stand for them on screen.
#[derive(Debug)]
pub struct PreviewImage {
    pub width: u32,
    pub height: u32,
    pub rgb: Vec<Vec3>,
    pub rgba: Vec<u8>,
    pub exposure: Scalar,
    pub meta: PreviewMeta,
}

/// A [`PreviewImage`] with its contents as sequences.
#[verifier::ext_equal]
pub struct ImageSpec {
    pub width: u32,
    pub height: u32,
    pub rgb: Seq<Vec3>,
    pub rgba: Seq<u8>,
    pub exposure: Scalar,
    pub meta: PreviewMeta,
}

impl View for PreviewImage {
    type V = ImageSpec;

    open spec fn view(&self) -> ImageSpec {
        ImageSpec {
            width: self.width,
            height: self.height,
            rgb: self.rgb@,
            rgba: self.rgba@,
            exposure: self.exposure,
            meta: self.meta,
        }
    }
}

/// Black.
pub open spec fn black() -> Vec3 {
    let zero = Scalar { bits: ZERO_BITS };
    Vec3 { x: zero, y: zero, z: zero }
}

impl ArithmeticModel {
    /// The byte for a component of a color that is amplified by `gain`: encoded for
    /// a display with a gamma of 2.2, and rounded to one of 256 steps.
    pub open spec fn tone_spec(self, gain: Scalar, component: Scalar) -> u8 {
        let zero = Scalar { bits: ZERO_BITS };
        let encoded = self.power(
            self.product(component, gain).max_spec(zero),
            Scalar { bits: ENCODING_BITS },
        ).clamp_spec(zero, Scalar { bits: ONE_BITS });
        let step = self.sum(
            self.product(encoded, Scalar { bits: LAST_STEP_BITS }),
            Scalar { bits: HALF_BITS },
        ).whole_spec();
        if step < 255 {
            step as u8
        } else {
            255
        }
    }

    /// The bytes for components at an exposure, which counts doublings.
    pub open spec fn tones(self) -> spec_fn(Scalar, Scalar) -> u8 {
        |exposure: Scalar, component: Scalar|
            self.tone_spec(self.power(Scalar { bits: TWO_BITS }, exposure), component)
    }
}

impl<F, N> Arithmetic<F, N> where
    F: Fn(Operation, Scalar, Scalar) -> Scalar,
    N: Fn(Vec3) -> Option<Vec3>,
 {
    /// The byte for a component of a color that is amplified by `gain`.
    fn tone(&self, gain: Scalar, component: Scalar) -> (byte: u8)
        requires
            self.wf(),
        ensures
            byte == self.model().tone_spec(gain, component),
    {
        let zero = Scalar::zero();
        let encoded = self.power(
            self.product(component, gain).max(zero),
            Scalar { bits: ENCODING_BITS },
        ).clamp(zero, Scalar::one());
        let step: u64 = self.sum(
            self.product(encoded, Scalar { bits: LAST_STEP_BITS }),
            Scalar { bits: HALF_BITS },
        ).whole();
        if step < 255 {
            step as u8
        } else {
            255
        }
    }
}

/// The byte for one channel of a pixel; the fourth channel is full opacity.
pub open spec fn pixel_byte(
    tone: spec_fn(Scalar, Scalar) -> u8,
    exposure: Scalar,
    pixel: Vec3,
    channel: int,
) -> u8 {
    if channel == 0 {
        tone(exposure, pixel.x)
    } else if channel == 1 {
        tone(exposure, pixel.y)
    } else if channel == 2 {
        tone(exposure, pixel.z)
    } else {
        255
    }
}

impl ImageSpec {
    /// One color and four bytes for each pixel.
    pub open spec fn wf(self) -> bool {
        &&& self.rgb.len() == self.width * self.height
        &&& self.rgba.len() == 4 * self.rgb.len()
    }

    /// The image without pixels.
    pub open spec fn nothing() -> ImageSpec {
        ImageSpec {
            width: 0,
            height: 0,
            rgb: Seq::empty(),
            rgba: Seq::empty(),
            exposure: Scalar { bits: ZERO_BITS },
            meta: PreviewMeta::initial(),
        }
    }

    /// A black image, not shown yet.
    pub open spec fn blank(width: u32, height: u32, meta: PreviewMeta) -> ImageSpec {
        ImageSpec {
            width,
            height,
            rgb: Seq::new((width * height) as nat, |i: int| black()),
            rgba: Seq::new((4 * (width * height)) as nat, |i: int| 0u8),
            exposure: Scalar { bits: ZERO_BITS },
            meta,
        }
    }

    /// The image with its first pixels replaced, as far as it has room for them.
    pub open spec fn written(
        self,
        pixels: Seq<Vec3>,
        tone: spec_fn(Scalar, Scalar) -> u8,
    ) -> ImageSpec {
        ImageSpec {
            rgb: Seq::new(
                self.rgb.len(),
                |i: int|
                    if i < pixels.len() {
                        pixels[i]
                    } else {
                        self.rgb[i]
                    },
            ),
            rgba: Seq::new(
                self.rgba.len(),
                |b: int|
                    if b / 4 < pixels.len() {
                        pixel_byte(tone, self.exposure, pixels[b / 4], b % 4)
                    } else {
                        self.rgba[b]
                    },
            ),
            ..self
        }
    }

    /// The image of some pixels.
    pub open spec fn of_pixels(
        width: u32,
        height: u32,
        pixels: Seq<Vec3>,
        meta: PreviewMeta,
        tone: spec_fn(Scalar, Scalar) -> u8,
    ) -> ImageSpec {
        ImageSpec::blank(width, height, meta).written(pixels, tone)
    }
}

impl Default for PreviewImage {
    fn default() -> (image: PreviewImage)
        ensures
            image@ == ImageSpec::nothing(),
            image@.wf(),
    {
        let image = PreviewImage {
            width: 0,
            height: 0,
            rgb: Vec::new(),
            rgba: Vec::new(),
            exposure: Scalar::zero(),
            meta: PreviewMeta::default(),
        };
        assert(image@ =~= ImageSpec::nothing());
        image
    }
}

impl PreviewImage {
    /// A black image, not shown yet.
    pub fn new(width: u32, height: u32, meta: PreviewMeta) -> (image: PreviewImage)
        requires
            4 * (width * height) <= usize::MAX,
        ensures
            image@ == ImageSpec::blank(width, height, meta),
            image@.wf(),
    {
        let zero = Scalar::zero();
        assert(0 <= width * height) by (nonlinear_arith);
        let count: usize = width as usize * height as usize;
        let bytes: usize = count * 4;
        let mut rgb: Vec<Vec3> = Vec::new();
        while rgb.len() < count
            invariant
                zero == (Scalar { bits: ZERO_BITS }),
                rgb@.len() <= count,
                forall|i: int| 0 <= i < rgb@.len() ==> rgb@[i] == black(),
            decreases count - rgb@.len(),
        {
            rgb.push(Vec3 { x: zero, y: zero, z: zero });
        }
        let mut rgba: Vec<u8> = Vec::new();
        while rgba.len() < bytes
            invariant
                rgba@.len() <= bytes,
                forall|i: int| 0 <= i < rgba@.len() ==> rgba@[i] == 0u8,
            decreases bytes - rgba@.len(),
        {
            rgba.push(0);
        }
        let image = PreviewImage { width, height, rgb, rgba, exposure: zero, meta };
        assert(image@ =~= ImageSpec::blank(width, height, meta));
        image
    }

    /// Replaces the first pixels, as far as there is room for them.
    pub fn write_pixels<F: Fn(Operation, Scalar, Scalar) -> Scalar, N: Fn(Vec3) -> Option<Vec3>>(
        &mut self,
        pixels: &Vec<Vec3>,
        math: &Arithmetic<F, N>,
    )
        requires
            old(self)@.wf(),
            math.wf(),
        ensures
            final(self)@ == old(self)@.written(pixels@, math.model().tones()),
            final(self)@.wf(),
    {
        let ghost before = self@;
        let ghost target = before.written(pixels@, math.model().tones());
        if self.width == 0 || self.height == 0 {
            assert(self.width * self.height == 0) by (nonlinear_arith)
                requires
                    self.width == 0 || self.height == 0,
            ;
            assert(self@ =~= target);
            return ;
        }
        let total: usize = self.rgb.len();
        let byte_total: usize = self.rgba.len();
        let count: usize = if pixels.len() < total {
            pixels.len()
        } else {
            total
        };
        let gain = math.power(Scalar { bits: TWO_BITS }, self.exposure);
        let mut next: usize = 0;
        while next < count
            invariant
                math.wf(),
                gain == math.model().power(Scalar { bits: TWO_BITS }, before.exposure),
                before.wf(),
                target == before.written(pixels@, math.model().tones()),
                self.width == before.width,
                self.height == before.height,
                self.exposure == before.exposure,
                self.meta == before.meta,
                total == before.rgb.len() == self.rgb@.len(),
                byte_total == before.rgba.len() == self.rgba@.len(),
                byte_total == 4 * total,
                next <= count <= total,
                count <= pixels@.len(),
                forall|i: int| 0 <= i < next ==> #[trigger] self.rgb@[i] == target.rgb[i],
                forall|i: int| next <= i < total ==> #[trigger] self.rgb@[i] == before.rgb[i],
                forall|b: int| 0 <= b < 4 * next ==> #[trigger] self.rgba@[b] == target.rgba[b],
                forall|b: int|
                    4 * next <= b < byte_total ==> #[trigger] self.rgba@[b] == before.rgba[b],
            decreases count - next,
        {
            let pixel = pixels[next];
            let red: u8 = math.tone(gain, pixel.x);
            let green: u8 = math.tone(gain, pixel.y);
            let blue: u8 = math.tone(gain, pixel.z);
            let at: usize = next * 4;
            self.rgb.set(next, pixel);
            self.rgba.set(at, red);
            self.rgba.set(at + 1, green);
            self.rgba.set(at + 2, blue);
            self.rgba.set(at + 3, 255);
            assert(at / 4 == next && (at + 1) / 4 == next && (at + 2) / 4 == next && (at + 3) / 4
                == next);
            assert(target.rgba[at as int] == red);
            assert(target.rgba[at + 1] == green);
            assert(target.rgba[at + 2] == blue);
            assert(target.rgba[at + 3] == 255);
            next += 1;
        }
        assert forall|i: int| 0 <= i < total implies #[trigger] self.rgb@[i] == target.rgb[i] by {}
        assert forall|b: int| 0 <= b < byte_total implies #[trigger] self.rgba@[b]
            == target.rgba[b] by {}
        assert(self@ =~= target);
    }

    /// The image of some pixels.
    pub fn from_pixels<F: Fn(Operation, Scalar, Scalar) -> Scalar, N: Fn(Vec3) -> Option<Vec3>>(
        width: u32,
        height: u32,
        pixels: &Vec<Vec3>,
        meta: PreviewMeta,
        math: &Arithmetic<F, N>,
    ) -> (image: PreviewImage)
        requires
            4 * (width * height) <= usize::MAX,
            math.wf(),
        ensures
            image@ == ImageSpec::of_pixels(width, height, pixels@, meta, math.model().tones()),
            image@.wf(),
    {
        let mut image = PreviewImage::new(width, height, meta);
        image.write_pixels(pixels, math);
        image
    }

    /// A copy of the image.
    pub fn copy(&self) -> (copy: PreviewImage)
        ensures
            copy@ == self@,
    {
        let copy = PreviewImage {
            width: self.width,
            height: self.height,
            rgb: crate::text::copy_all(&self.rgb),
            rgba: crate::text::copy_all(&self.rgba),
            exposure: self.exposure,
            meta: self.meta,
        };
        assert(copy@ =~= self@);
        copy
    }

    /// Whether there is an image to save.
    pub fn can_save(&self) -> (can: bool)
        ensures
            can == (self.width > 0 && self.height > 0 && self@.rgb.len() > 0),
    {
        self.width != 0 && self.height != 0 && self.rgb.len() > 0
    }

    /// The color in column `x` and row `y`.
    pub fn pixel(&self, x: usize, y: usize) -> (color: Vec3)
        requires
            self@.wf(),
            x < self.width,
            y < self.height,
        ensures
            color == self@.rgb[y * self.width + x],
    {
        let count: usize = self.rgb.len();
        assert(y * self.width + x < self.width * self.height && 0 <= y * self.width)
            by (nonlinear_arith)
            requires
                x < self.width,
                y < self.height,
        ;
        self.rgb[y * self.width as usize + x]
    }
}

/// The bytes of a shown image are those of its pixels: four for each, in order.
pub proof fn lemma_written_bytes_follow_pixels(
    image: ImageSpec,
    pixels: Seq<Vec3>,
    tone: spec_fn(Scalar, Scalar) -> u8,
    i: int,
)
    requires
        image.wf(),
        pixels.len() == image.rgb.len(),
        0 <= i < pixels.len(),
    ensures
        image.written(pixels, tone).rgb == pixels,
        image.written(pixels, tone).rgba[4 * i] == tone(image.exposure, pixels[i].x),
        image.written(pixels, tone).rgba[4 * i + 1] == tone(image.exposure, pixels[i].y),
        image.written(pixels, tone).rgba[4 * i + 2] == tone(image.exposure, pixels[i].z),
        image.written(pixels, tone).rgba[4 * i + 3] == 255,
{
    assert(image.written(pixels, tone).rgb =~= pixels);
    assert((4 * i) / 4 == i && (4 * i + 1) / 4 == i && (4 * i + 2) / 4 == i && (4 * i + 3) / 4
        == i);
}

/// What an image needs to know of its settings: the mode, the size of a tile, which is one
/// pixel wide where the view does not depend on the azimuth, and the grid of lights, a
/// single place in single mode; and the layout of an image says the same.
pub proof fn lemma_images_know_their_settings(
    config: ResolvedBakeConfig,
    meta: PreviewMeta,
    width: u32,
    height: u32,
)
    ensures
        ({
            let known = PreviewMeta::of_config(config);
            &&& known.mode == config.mode
            &&& known.camera_height == config.height
            &&& config.mode == BakeMode::Isotropic ==> known.camera_width == 1
            &&& config.mode != BakeMode::Isotropic ==> known.camera_width == config.width
            &&& config.mode == BakeMode::Single ==> known.light_width == 1 && known.light_height
                == 1
            &&& config.mode != BakeMode::Single ==> known.light_width == config.light_width
                && known.light_height == config.light_height
        }),
        ({
            let layout = meta.metadata_spec(width, height);
            &&& layout.schema_version == 1
            &&& layout.mode == meta.mode
            &&& layout.atlas_width == width
            &&& layout.atlas_height == height
            &&& layout.camera_width == meta.camera_width
            &&& layout.camera_height == meta.camera_height
            &&& layout.light_width == meta.light_width
            &&& layout.light_height == meta.light_height
            &&& layout.camera_azimuth_wraps <==> meta.mode != BakeMode::Isotropic
            &&& layout.elevation_clamps
            &&& layout.samples_are_texel_centered
            &&& layout.consumer_applies_macro_cosine
        }),
        ({
            let first = PreviewMeta::initial();
            &&& first.mode == BakeMode::Single
            &&& first.camera_width == 1 && first.camera_height == 1
            &&& first.light_width == 1 && first.light_height == 1
        }),
{
}

/// What byte stands for a component of a color.  The component is amplified by two to the
/// power of the exposure, raised to one over 2.2, kept between zero and one, and of 255
/// steps and a half the whole ones are taken.
pub proof fn lemma_bytes_are_encoded_colors(
    model: ArithmeticModel,
    exposure: Scalar,
    component: Scalar,
)
    ensures
        ({
            let plus = |a: Scalar, b: Scalar| (model.compute)(Operation::Sum, a, b);
            let times = |a: Scalar, b: Scalar| (model.compute)(Operation::Product, a, b);
            let power = |a: Scalar, b: Scalar| (model.compute)(Operation::Power, a, b);
            let zero = Scalar { bits: 0 };
            let one = Scalar { bits: 0x3f80_0000 };
            let bright = times(component, power(Scalar { bits: 0x4000_0000 }, exposure));
            let light = if bright.is_nan_spec() || bright.rank() < 0 {
                zero
            } else {
                bright
            };
            let encoded = power(light, Scalar { bits: 0x3ee8_ba2e });
            let kept = if encoded.rank() < 0 {
                zero
            } else if encoded.rank() > 0x3f80_0000 {
                one
            } else {
                encoded
            };
            let steps = plus(
                times(kept, Scalar { bits: 0x437f_0000 }),
                Scalar { bits: 0x3f00_0000 },
            ).whole_spec();
            let byte = (model.tones())(exposure, component);
            bright.rank() != 0 && encoded.rank() != 0 && !encoded.is_nan_spec() ==> byte
                == if steps < 255 {
                steps
            } else {
                255
            }
        }),
{
    let gain = model.power(Scalar { bits: 0x4000_0000 }, exposure);
    let zero = Scalar { bits: 0 };
    let encoded = model.power(
        model.product(component, gain).max_spec(zero),
        Scalar { bits: 0x3ee8_ba2e },
    ).clamp_spec(zero, Scalar { bits: 0x3f80_0000 });
    lemma_whole_is_not_negative(
        model.sum(
            model.product(encoded, Scalar { bits: 0x437f_0000 }),
            Scalar { bits: 0x3f00_0000 },
        ),
    );
}

/// Writing pixels changes the pixels and bytes that they stand for and nothing else; an
/// image starts out black and without opacity, at exposure zero.
pub proof fn lemma_writing_keeps_the_rest(
    image: ImageSpec,
    pixels: Seq<Vec3>,
    tone: spec_fn(Scalar, Scalar) -> u8,
    i: int,
    width: u32,
    height: u32,
    meta: PreviewMeta,
)
    requires
        image.wf(),
        0 <= i < image.rgb.len(),
    ensures
        ({
            let after = image.written(pixels, tone);
            &&& after.width == image.width
            &&& after.height == image.height
            &&& after.exposure == image.exposure
            &&& after.meta == image.meta
            &&& after.rgb.len() == image.rgb.len()
            &&& after.rgba.len() == image.rgba.len()
            &&& i < pixels.len() ==> {
                &&& after.rgb[i] == pixels[i]
                &&& after.rgba[4 * i] == tone(image.exposure, pixels[i].x)
                &&& after.rgba[4 * i + 1] == tone(image.exposure, pixels[i].y)
                &&& after.rgba[4 * i + 2] == tone(image.exposure, pixels[i].z)
                &&& after.rgba[4 * i + 3] == 255
            }
            &&& i >= pixels.len() ==> {
                &&& after.rgb[i] == image.rgb[i]
                &&& after.rgba[4 * i] == image.rgba[4 * i]
                &&& after.rgba[4 * i + 1] == image.rgba[4 * i + 1]
                &&& after.rgba[4 * i + 2] == image.rgba[4 * i + 2]
                &&& after.rgba[4 * i + 3] == image.rgba[4 * i + 3]
            }
        }),
        ({
            let first = ImageSpec::blank(width, height, meta);
            &&& first.width == width
            &&& first.height == height
            &&& first.meta == meta
            &&& first.exposure.bits == 0
            &&& first.rgb.len() == width * height
            &&& first.rgba.len() == 4 * (width * height)
            &&& forall|p: int|
                0 <= p < first.rgb.len() ==> (#[trigger] first.rgb[p]).x.bits == 0
                    && first.rgb[p].y.bits == 0 && first.rgb[p].z.bits == 0
            &&& forall|b: int| 0 <= b < first.rgba.len() ==> #[trigger] first.rgba[b] == 0
        }),
{
    assert((4 * i) / 4 == i && (4 * i + 1) / 4 == i && (4 * i + 2) / 4 == i && (4 * i + 3) / 4
        == i);
    assert(0 <= width * height) by (nonlinear_arith);
}

/// The image of some pixels has the size and the layout that it is given, shows the pixels
/// in order from the first one, and is black behind them.
pub proof fn lemma_images_show_their_pixels(
    width: u32,
    height: u32,
    pixels: Seq<Vec3>,
    meta: PreviewMeta,
    tone: spec_fn(Scalar, Scalar) -> u8,
    i: int,
)
    requires
        0 <= i < width * height,
    ensures
        ({
            let image = ImageSpec::of_pixels(width, height, pixels, meta, tone);
            let zero = Scalar { bits: 0 };
            &&& image.width == width
            &&& image.height == height
            &&& image.meta == meta
            &&& image.exposure.bits == 0
            &&& image.rgb.len() == width * height
            &&& image.rgba.len() == 4 * (width * height)
            &&& i < pixels.len() ==> {
                &&& image.rgb[i] == pixels[i]
                &&& image.rgba[4 * i] == tone(zero, pixels[i].x)
                &&& image.rgba[4 * i + 1] == tone(zero, pixels[i].y)
                &&& image.rgba[4 * i + 2] == tone(zero, pixels[i].z)
                &&& image.rgba[4 * i + 3] == 255
            }
            &&& i >= pixels.len() ==> image.rgb[i].x.bits == 0 && image.rgb[i].y.bits == 0
                && image.rgb[i].z.bits == 0
        }),
{
    assert((4 * i) / 4 == i && (4 * i + 1) / 4 == i && (4 * i + 2) / 4 == i && (4 * i + 3) / 4
        == i);
}

} // verus!

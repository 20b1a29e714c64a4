//! Bake settings as they are edited interactively.

use crate::atlas::AtlasMetadata;
use crate::config::{
    BakeMode, BakeOverrides, MaterialKind, ResolvedBakeConfig, SamplerKind,
    DEFAULT_SPECULAR_ROUGHNESS_BITS,
};
use crate::math::Vec3;
use crate::paths::{lossy_text, path_from_text, path_named, text_of};
use crate::preview::PreviewMeta;
use crate::scalar::{Scalar, HALF_BITS, MINUS_ONE_BITS, ONE_BITS, ZERO_BITS};
use crate::text::{
    ascii_lower_text, decimal, lemma_replaced_by_char, push_number, push_text, replace_all,
    same_text, to_ascii_lowercase, trim, trim_spec,
};
use std::path::PathBuf;
use vstd::prelude::*;
use vstd::string::*;

verus! {

/// Most samples that can be entered.
pub const MAX_GUI_SAMPLES: i32 = 100_000_000;

/// Largest resolution that can be entered.
pub const MAX_GUI_RESOLUTION: i32 = 16_384;

/// Largest repeat radius that can be entered.
pub const MAX_GUI_REPEAT_RADIUS: i32 = 16;

/// Bits of `0.05`, the shortest time between updates, in seconds.
pub const MIN_UPDATE_SECONDS_BITS: u32 = 0x3d4c_cccd;

/// Bits of `60.0`, the longest time between updates, in seconds.
pub const MAX_UPDATE_SECONDS_BITS: u32 = 0x4270_0000;

/// Settings as they are entered.
#[derive(Debug)]
pub struct BakeSettings {
    pub config_path: String,
    pub obj_path: String,
    pub out_dir: String,
    pub width: i32,
    pub height: i32,
    pub mode_index: usize,
    pub light_width: i32,
    pub light_height: i32,
    pub samples: i32,
    pub max_repeat_radius: i32,
    pub sampler_index: usize,
    pub enable_shadows: bool,
    pub light: Vec3,
    pub material_index: usize,
    pub material_color: Vec3,
    pub roughness: Scalar,
    pub update_interval_seconds: Scalar,
    pub preview_light: Vec3,
    pub preview_model_index: usize,
}

/// A number moved into `low ..= high`.
pub open spec fn clamped(value: int, low: int, high: int) -> int {
    if value < low {
        low
    } else if value > high {
        high
    } else {
        value
    }
}

/// A number moved into `low ..= high`.
fn clamp(value: i32, low: i32, high: i32) -> (result: i32)
    requires
        low <= high,
    ensures
        result == clamped(value as int, low as int, high as int),
{
    if value < low {
        low
    } else if value > high {
        high
    } else {
        value
    }
}

/// A number, at least one.
pub open spec fn positive(value: i32) -> u32 {
    if value < 1 {
        1
    } else {
        value as u32
    }
}

/// A number, at least one.
fn at_least_one(value: i32) -> (result: u32)
    ensures
        result == positive(value),
{
    if value < 1 {
        1
    } else {
        value as u32
    }
}

/// The mode in a place of the list of modes; the first where there is none.
pub open spec fn mode_at(index: usize) -> BakeMode {
    if index == 1 {
        BakeMode::Full
    } else if index == 2 {
        BakeMode::Isotropic
    } else {
        BakeMode::Single
    }
}

/// The place of a mode in the list of modes.
pub open spec fn place_of_mode(mode: BakeMode) -> usize {
    match mode {
        BakeMode::Single => 0,
        BakeMode::Full => 1,
        BakeMode::Isotropic => 2,
    }
}

/// The sampler in a place of the list; the first where there is none.
pub open spec fn sampler_at(index: usize) -> SamplerKind {
    if index == 1 {
        SamplerKind::Random
    } else {
        SamplerKind::Halton
    }
}

/// The place of a sampler in the list.
pub open spec fn place_of_sampler(kind: SamplerKind) -> usize {
    match kind {
        SamplerKind::Halton => 0,
        SamplerKind::Random => 1,
    }
}

/// The material in a place of the list; the first where there is none.
pub open spec fn material_at(index: usize) -> MaterialKind {
    if index == 1 {
        MaterialKind::SpecularPhong
    } else {
        MaterialKind::Lambertian
    }
}

/// The place of a material in the list.
pub open spec fn place_of_material(kind: MaterialKind) -> usize {
    match kind {
        MaterialKind::Lambertian => 0,
        MaterialKind::SpecularPhong => 1,
    }
}

/// Each mode, sampler and material is in the place that it is given.
pub proof fn lemma_places_round_trip(mode: BakeMode, sampler: SamplerKind, kind: MaterialKind)
    ensures
        mode_at(place_of_mode(mode)) == mode,
        sampler_at(place_of_sampler(sampler)) == sampler,
        material_at(place_of_material(kind)) == kind,
{
}

/// The size of what the settings ask for.
#[derive(Clone, Copy, Debug, PartialEq, Eq, Structural)]
pub struct Extents {
    pub atlas_width: u32,
    pub atlas_height: u32,
    pub tile_width: u32,
    pub tile_height: u32,
    pub light_count: u32,
}

/// The settings that a bake is started with.
pub open spec fn overrides_spec(settings: BakeSettings, obj: Option<PathBuf>) -> BakeOverrides {
    BakeOverrides {
        obj,
        width: Some(positive(settings.width)),
        height: Some(positive(settings.height)),
        mode: Some(mode_at(settings.mode_index)),
        light_width: Some(positive(settings.light_width)),
        light_height: Some(positive(settings.light_height)),
        samples: Some(positive(settings.samples)),
        tile_width: None,
        tile_depth: None,
        light: Some(settings.light),
        max_repeat_radius: Some(
            clamped(settings.max_repeat_radius as int, 0, MAX_GUI_REPEAT_RADIUS as int) as u32,
        ),
        sampler: Some(sampler_at(settings.sampler_index)),
        enable_shadows: Some(settings.enable_shadows),
        material_kind: Some(material_at(settings.material_index)),
        material_color: Some(settings.material_color),
        material_roughness: Some(settings.roughness),
    }
}

/// The sizes as they are entered.
pub open spec fn extents_spec(settings: BakeSettings) -> Extents {
    let width = positive(settings.width);
    let height = positive(settings.height);
    let light_width = positive(settings.light_width);
    let light_height = positive(settings.light_height);
    match mode_at(settings.mode_index) {
        BakeMode::Single => Extents {
            atlas_width: width,
            atlas_height: height,
            tile_width: width,
            tile_height: height,
            light_count: 1,
        },
        BakeMode::Full => Extents {
            atlas_width: (width * light_width) as u32,
            atlas_height: (height * light_height) as u32,
            tile_width: width,
            tile_height: height,
            light_count: (light_width * light_height) as u32,
        },
        BakeMode::Isotropic => Extents {
            atlas_width: light_width,
            atlas_height: (height * light_height) as u32,
            tile_width: 1,
            tile_height: height,
            light_count: (light_width * light_height) as u32,
        },
    }
}

/// Whether the sizes as they are entered fit.
pub open spec fn extents_fit(settings: BakeSettings) -> bool {
    let mode = mode_at(settings.mode_index);
    let width = positive(settings.width);
    let height = positive(settings.height);
    let light_width = positive(settings.light_width);
    let light_height = positive(settings.light_height);
    &&& mode == BakeMode::Full ==> width * light_width <= u32::MAX
    &&& mode != BakeMode::Single ==> height * light_height <= u32::MAX
    &&& mode != BakeMode::Single ==> light_width * light_height <= u32::MAX
}

impl Default for BakeSettings {
    fn default() -> (settings: BakeSettings)
        ensures
            settings.config_path@ == "assets/fixtures/specular.toml"@,
            settings.obj_path@ == ""@,
            settings.out_dir@ == "out/gui"@,
            settings.width == 256 && settings.height == 64,
            settings.mode_index == 0,
            settings.light_width == 8 && settings.light_height == 4,
            settings.samples == 64 && settings.max_repeat_radius == 2,
            settings.sampler_index == 0 && settings.enable_shadows,
            settings.light == crate::config::default_light(),
            settings.material_index == 0,
            settings.material_color == crate::config::default_color(),
            settings.roughness == (Scalar { bits: DEFAULT_SPECULAR_ROUGHNESS_BITS }),
            settings.update_interval_seconds == (Scalar { bits: HALF_BITS }),
            settings.preview_light == crate::config::default_light(),
            settings.preview_model_index == 0,
            settings.light.x.bits == 0 && settings.light.y.bits == 0x3f80_0000
                && settings.light.z.bits == 0xbf80_0000,
            settings.preview_light == settings.light,
            settings.material_color.x.bits == 0x3f80_0000 && settings.material_color.y.bits
                == 0x3f80_0000 && settings.material_color.z.bits == 0x3f80_0000,
            settings.roughness.bits == 0x3d4c_cccd,
            settings.update_interval_seconds.bits == 0x3f00_0000,
    {
        let zero = Scalar { bits: ZERO_BITS };
        let one = Scalar { bits: ONE_BITS };
        let light = Vec3 { x: zero, y: one, z: Scalar { bits: MINUS_ONE_BITS } };
        BakeSettings {
            config_path: "assets/fixtures/specular.toml".to_owned(),
            obj_path: "".to_owned(),
            out_dir: "out/gui".to_owned(),
            width: 256,
            height: 64,
            mode_index: 0,
            light_width: 8,
            light_height: 4,
            samples: 64,
            max_repeat_radius: 2,
            sampler_index: 0,
            enable_shadows: true,
            light,
            material_index: 0,
            material_color: Vec3 { x: one, y: one, z: one },
            roughness: Scalar { bits: DEFAULT_SPECULAR_ROUGHNESS_BITS },
            update_interval_seconds: Scalar { bits: HALF_BITS },
            preview_light: light,
            preview_model_index: 0,
        }
    }
}

impl BakeSettings {
    pub fn material_kind(&self) -> (kind: MaterialKind)
        ensures
            kind == material_at(self.material_index),
    {
        if self.material_index == 1 {
            MaterialKind::SpecularPhong
        } else {
            MaterialKind::Lambertian
        }
    }

    pub fn bake_mode(&self) -> (mode: BakeMode)
        ensures
            mode == mode_at(self.mode_index),
    {
        if self.mode_index == 1 {
            BakeMode::Full
        } else if self.mode_index == 2 {
            BakeMode::Isotropic
        } else {
            BakeMode::Single
        }
    }

    pub fn sampler_kind(&self) -> (kind: SamplerKind)
        ensures
            kind == sampler_at(self.sampler_index),
    {
        if self.sampler_index == 1 {
            SamplerKind::Random
        } else {
            SamplerKind::Halton
        }
    }

    /// Whether the numbers are in the ranges that can be entered.
    pub open spec fn in_range(self) -> bool {
        &&& 1 <= self.width <= MAX_GUI_RESOLUTION
        &&& 1 <= self.height <= MAX_GUI_RESOLUTION
        &&& 1 <= self.light_width <= MAX_GUI_RESOLUTION
        &&& 1 <= self.light_height <= MAX_GUI_RESOLUTION
        &&& 1 <= self.samples <= MAX_GUI_SAMPLES
        &&& 0 <= self.max_repeat_radius <= MAX_GUI_REPEAT_RADIUS
    }

    /// Moves the numbers into the ranges that can be entered, and the preview
    /// model to one of `model_count`.
    pub fn clamp_inputs(&mut self, model_count: usize)
        ensures
            final(self).in_range(),
            final(self).width == clamped(old(self).width as int, 1, MAX_GUI_RESOLUTION as int),
            final(self).height == clamped(old(self).height as int, 1, MAX_GUI_RESOLUTION as int),
            final(self).light_width == clamped(
                old(self).light_width as int,
                1,
                MAX_GUI_RESOLUTION as int,
            ),
            final(self).light_height == clamped(
                old(self).light_height as int,
                1,
                MAX_GUI_RESOLUTION as int,
            ),
            final(self).samples == clamped(old(self).samples as int, 1, MAX_GUI_SAMPLES as int),
            final(self).max_repeat_radius == clamped(
                old(self).max_repeat_radius as int,
                0,
                MAX_GUI_REPEAT_RADIUS as int,
            ),
            final(self).update_interval_seconds == old(self).update_interval_seconds.clamp_spec(
                Scalar { bits: MIN_UPDATE_SECONDS_BITS },
                Scalar { bits: MAX_UPDATE_SECONDS_BITS },
            ),
            final(self).roughness == old(self).roughness.clamp_spec(
                Scalar { bits: ZERO_BITS },
                Scalar { bits: ONE_BITS },
            ),
            final(self).preview_model_index == model_place(
                old(self).preview_model_index,
                model_count,
            ),
            final(self).config_path == old(self).config_path,
            final(self).obj_path == old(self).obj_path,
            final(self).out_dir == old(self).out_dir,
            final(self).mode_index == old(self).mode_index,
            final(self).sampler_index == old(self).sampler_index,
            final(self).enable_shadows == old(self).enable_shadows,
            final(self).light == old(self).light,
            final(self).material_index == old(self).material_index,
            final(self).material_color == old(self).material_color,
            final(self).preview_light == old(self).preview_light,
    {
        self.width = clamp(self.width, 1, MAX_GUI_RESOLUTION);
        self.height = clamp(self.height, 1, MAX_GUI_RESOLUTION);
        self.light_width = clamp(self.light_width, 1, MAX_GUI_RESOLUTION);
        self.light_height = clamp(self.light_height, 1, MAX_GUI_RESOLUTION);
        self.samples = clamp(self.samples, 1, MAX_GUI_SAMPLES);
        self.update_interval_seconds =
        self.update_interval_seconds.clamp(
            Scalar { bits: MIN_UPDATE_SECONDS_BITS },
            Scalar { bits: MAX_UPDATE_SECONDS_BITS },
        );
        self.max_repeat_radius = clamp(self.max_repeat_radius, 0, MAX_GUI_REPEAT_RADIUS);
        self.preview_model_index = selected_model(self.preview_model_index, model_count);
        self.roughness =
        self.roughness.clamp(Scalar { bits: ZERO_BITS }, Scalar { bits: ONE_BITS });
    }

    /// The settings that a bake is started with, for the given mesh file.
    pub fn overrides(&self, obj: Option<PathBuf>) -> (overrides: BakeOverrides)
        ensures
            overrides == overrides_spec(*self, obj),
    {
        BakeOverrides {
            obj,
            width: Some(at_least_one(self.width)),
            height: Some(at_least_one(self.height)),
            mode: Some(self.bake_mode()),
            light_width: Some(at_least_one(self.light_width)),
            light_height: Some(at_least_one(self.light_height)),
            samples: Some(at_least_one(self.samples)),
            tile_width: None,
            tile_depth: None,
            light: Some(self.light),
            max_repeat_radius: Some(clamp(self.max_repeat_radius, 0, MAX_GUI_REPEAT_RADIUS) as u32),
            sampler: Some(self.sampler_kind()),
            enable_shadows: Some(self.enable_shadows),
            material_kind: Some(self.material_kind()),
            material_color: Some(self.material_color),
            material_roughness: Some(self.roughness),
        }
    }

    /// Takes over the settings of a configuration, for a mesh file that is shown
    /// as `obj_path`.
    pub fn take_over(&mut self, config: &ResolvedBakeConfig, obj_path: String)
        ensures
            final(self).obj_path == obj_path,
            final(self).width == config.width as i32,
            final(self).height == config.height as i32,
            final(self).mode_index == place_of_mode(config.mode),
            final(self).light_width == config.light_width as i32,
            final(self).light_height == config.light_height as i32,
            final(self).samples == config.samples as i32,
            final(self).max_repeat_radius == config.max_repeat_radius as i32,
            final(self).sampler_index == place_of_sampler(config.sampler),
            final(self).enable_shadows == config.enable_shadows,
            final(self).light == config.light,
            final(self).preview_light == config.light,
            final(self).material_index == place_of_material(config.material.kind),
            final(self).material_color == config.material.color,
            final(self).roughness == match config.material.roughness {
                Some(roughness) => roughness,
                None => Scalar { bits: DEFAULT_SPECULAR_ROUGHNESS_BITS },
            },
            config.material.roughness is None ==> final(self).roughness.bits == 0x3d4c_cccd,
            final(self).mode_index < 3 && mode_at(final(self).mode_index) == config.mode,
            sampler_at(final(self).sampler_index) == config.sampler,
            material_at(final(self).material_index) == config.material.kind,
            final(self).config_path == old(self).config_path,
            final(self).out_dir == old(self).out_dir,
            final(self).update_interval_seconds == old(self).update_interval_seconds,
            final(self).preview_model_index == old(self).preview_model_index,
    {
        self.obj_path = obj_path;
        self.width = config.width as i32;
        self.height = config.height as i32;
        self.mode_index =
        match config.mode {
            BakeMode::Single => 0,
            BakeMode::Full => 1,
            BakeMode::Isotropic => 2,
        };
        self.light_width = config.light_width as i32;
        self.light_height = config.light_height as i32;
        self.samples = config.samples as i32;
        self.max_repeat_radius = config.max_repeat_radius as i32;
        self.sampler_index =
        match config.sampler {
            SamplerKind::Halton => 0,
            SamplerKind::Random => 1,
        };
        self.enable_shadows = config.enable_shadows;
        self.light = config.light;
        self.preview_light = config.light;
        self.material_index =
        match config.material.kind {
            MaterialKind::Lambertian => 0,
            MaterialKind::SpecularPhong => 1,
        };
        self.material_color = config.material.color;
        self.roughness =
        match config.material.roughness {
            Some(roughness) => roughness,
            None => Scalar { bits: DEFAULT_SPECULAR_ROUGHNESS_BITS },
        };
    }
}

/// The place of a model in a list, the last where there is none there.
pub open spec fn model_place(index: usize, count: usize) -> usize {
    if count == 0 {
        0
    } else if index < count {
        index
    } else {
        (count - 1) as usize
    }
}

/// The place of the selected preview model among `count`.
pub fn selected_model(index: usize, count: usize) -> (place: usize)
    ensures
        place == model_place(index, count),
        count > 0 ==> place < count,
{
    if count == 0 {
        0
    } else if index < count {
        index
    } else {
        count - 1
    }
}

/// The size of what the settings ask for.
pub fn preview_extents(settings: &BakeSettings) -> (extents: Extents)
    requires
        extents_fit(*settings),
    ensures
        extents == extents_spec(*settings),
{
    let width: u32 = at_least_one(settings.width);
    let height: u32 = at_least_one(settings.height);
    let light_width: u32 = at_least_one(settings.light_width);
    let light_height: u32 = at_least_one(settings.light_height);
    match settings.bake_mode() {
        BakeMode::Single => Extents {
            atlas_width: width,
            atlas_height: height,
            tile_width: width,
            tile_height: height,
            light_count: 1,
        },
        BakeMode::Full => Extents {
            atlas_width: width * light_width,
            atlas_height: height * light_height,
            tile_width: width,
            tile_height: height,
            light_count: light_width * light_height,
        },
        BakeMode::Isotropic => Extents {
            atlas_width: light_width,
            atlas_height: height * light_height,
            tile_width: 1,
            tile_height: height,
            light_count: light_width * light_height,
        },
    }
}

/// Settings in the ranges that can be entered have sizes that fit.
pub proof fn lemma_entered_sizes_fit(settings: BakeSettings)
    requires
        settings.in_range(),
    ensures
        extents_fit(settings),
{
    let width = positive(settings.width);
    let height = positive(settings.height);
    let light_width = positive(settings.light_width);
    let light_height = positive(settings.light_height);
    assert(width * light_width <= 16_384 * 16_384 && height * light_height <= 16_384 * 16_384
        && light_width * light_height <= 16_384 * 16_384) by (nonlinear_arith)
        requires
            width <= 16_384,
            height <= 16_384,
            light_width <= 16_384,
            light_height <= 16_384,
    ;
}

/// The size that is shown for the settings is that of the atlas that is baked
/// with them.
pub proof fn lemma_shown_size_is_baked(settings: BakeSettings, config: ResolvedBakeConfig)
    requires
        extents_fit(settings),
        config.width == positive(settings.width),
        config.height == positive(settings.height),
        config.mode == mode_at(settings.mode_index),
        config.light_width == positive(settings.light_width),
        config.light_height == positive(settings.light_height),
    ensures
        extents_spec(settings).atlas_width == config.atlas_columns(),
        extents_spec(settings).atlas_height == config.atlas_rows(),
        extents_spec(settings).tile_width == config.tile_columns(),
        extents_spec(settings).tile_height == config.height,
        extents_spec(settings).light_count == config.lights(),
{
    crate::config::lemma_atlas_size_follows_mode(config);
    assert(config.lights() >= 0) by (nonlinear_arith)
        requires
            config.lights() == config.light_columns() * config.light_rows(),
    ;
}

/// How an atlas that is baked with the settings is looked up.
pub open spec fn preview_meta_spec(settings: BakeSettings) -> PreviewMeta {
    let mode = mode_at(settings.mode_index);
    let single = mode == BakeMode::Single;
    PreviewMeta {
        mode,
        camera_width: if mode == BakeMode::Isotropic {
            1
        } else {
            positive(settings.width)
        },
        camera_height: positive(settings.height),
        light_width: if single {
            1
        } else {
            positive(settings.light_width)
        },
        light_height: if single {
            1
        } else {
            positive(settings.light_height)
        },
    }
}

impl BakeSettings {
    /// How an atlas that is baked with the settings is looked up.
    pub fn preview_meta(&self) -> (meta: PreviewMeta)
        ensures
            meta == preview_meta_spec(*self),
    {
        let mode = self.bake_mode();
        let single = mode == BakeMode::Single;
        PreviewMeta {
            mode,
            camera_width: if mode == BakeMode::Isotropic {
                1
            } else {
                at_least_one(self.width)
            },
            camera_height: at_least_one(self.height),
            light_width: if single {
                1
            } else {
                at_least_one(self.light_width)
            },
            light_height: if single {
                1
            } else {
                at_least_one(self.light_height)
            },
        }
    }

    /// The layout of an atlas that is baked with the settings, which is also the
    /// one that a loaded atlas is taken to have.
    pub fn atlas_metadata(&self) -> (metadata: AtlasMetadata)
        requires
            extents_fit(*self),
        ensures
            metadata == preview_meta_spec(*self).metadata_spec(
                extents_spec(*self).atlas_width,
                extents_spec(*self).atlas_height,
            ),
    {
        let extents = preview_extents(self);
        self.preview_meta().to_atlas_metadata(extents.atlas_width, extents.atlas_height)
    }
}

/// An atlas is looked up by the settings as it is baked with them.
pub proof fn lemma_loaded_layout_is_baked(settings: BakeSettings, config: ResolvedBakeConfig)
    requires
        config.width == positive(settings.width),
        config.height == positive(settings.height),
        config.mode == mode_at(settings.mode_index),
        config.light_width == positive(settings.light_width),
        config.light_height == positive(settings.light_height),
    ensures
        preview_meta_spec(settings) == PreviewMeta::of_config(config),
{
}

/// The size of what the settings ask for, in words.
pub fn extents_label(extents: &Extents) -> (label: String)
    ensures
        label@ == "Output "@ + decimal(extents.atlas_width as nat) + "x"@ + decimal(
            extents.atlas_height as nat,
        ) + "; tile "@ + decimal(extents.tile_width as nat) + "x"@ + decimal(
            extents.tile_height as nat,
        ) + "; "@ + decimal(extents.light_count as nat) + " light directions"@,
{
    let mut label = "Output ".to_owned();
    push_number(&mut label, extents.atlas_width as u64);
    push_text(&mut label, "x");
    push_number(&mut label, extents.atlas_height as u64);
    push_text(&mut label, "; tile ");
    push_number(&mut label, extents.tile_width as u64);
    push_text(&mut label, "x");
    push_number(&mut label, extents.tile_height as u64);
    push_text(&mut label, "; ");
    push_number(&mut label, extents.light_count as u64);
    push_text(&mut label, " light directions");
    label
}

/// Text without white space around it, unless nothing is left.
pub fn trimmed_text(value: &str) -> (text: Option<String>)
    ensures
        trim_spec(value@).len() == 0 ==> text is None,
        trim_spec(value@).len() > 0 ==> text is Some && text.unwrap()@ == trim_spec(value@),
{
    let trimmed = trim(value);
    if trimmed.unicode_len() == 0 {
        None
    } else {
        Some(trimmed.to_owned())
    }
}

/// Text with slashes in place of backslashes.
pub open spec fn slashed(text: Seq<char>) -> Seq<char> {
    text.map_values(
        |c: char|
            if c == '\\' {
                '/'
            } else {
                c
            },
    )
}

/// Text as it is shown for a path: with slashes in place of backslashes.
pub fn gui_text(text: &str) -> (shown: String)
    ensures
        shown@ == slashed(text@),
{
    let shown = replace_all(text, '\\', "/");
    proof {
        reveal_strlit("/");
        assert("/"@ =~= seq!['/']);
        lemma_replaced_by_char(text@, '\\', '/');
        assert(shown@ =~= slashed(text@));
    }
    shown
}

/// A path as it is shown: its text with slashes in place of backslashes.
pub fn path_to_gui_string(path: &PathBuf) -> (shown: String)
    ensures
        shown@ == slashed(text_of(*path)),
        forall|i: int| 0 <= i < shown@.len() ==> #[trigger] shown@[i] != '\\',
{
    let text = lossy_text(path);
    gui_text(text.as_str())
}

/// The path that is entered, unless nothing but white space is.
pub fn trimmed_path(value: &str) -> (path: Option<PathBuf>)
    ensures
        path == if trim_spec(value@).len() > 0 {
            Some(path_named(trim_spec(value@)))
        } else {
            None
        },
{
    match trimmed_text(value) {
        Some(text) => Some(path_from_text(text.as_str())),
        None => None,
    }
}

/// Where a preview model comes from.
#[derive(Debug)]
pub enum PreviewModelSource {
    Torus,
    Fbx(PathBuf),
}

/// A preview model that can be selected.
#[derive(Debug)]
pub struct PreviewModelOption {
    pub label: String,
    pub source: PreviewModelSource,
}

impl PreviewModelOption {
    /// What tells the model apart from others: a name for the torus, the text
    /// of the path for a file.
    pub fn key(&self) -> (key: String)
        ensures
            key@ == match self.source {
                PreviewModelSource::Torus => "synthetic:torus"@,
                PreviewModelSource::Fbx(path) => text_of(path),
            },
    {
        match &self.source {
            PreviewModelSource::Torus => "synthetic:torus".to_owned(),
            PreviewModelSource::Fbx(path) => lossy_text(path),
        }
    }
}

/// Whether a file with this extension is a preview model.
pub fn is_preview_extension(extension: Option<&str>) -> (is: bool)
    ensures
        is == match extension {
            Some(extension) => ascii_lower_text(extension@) == "fbx"@,
            None => false,
        },
{
    match extension {
        Some(extension) => same_text(to_ascii_lowercase(extension).as_str(), "fbx"),
        None => false,
    }
}

/// The label of a preview model: the name of its file without the extension,
/// where it has one in valid Unicode.
pub fn preview_label(stem: Option<&str>) -> (label: String)
    ensures
        label@ == match stem {
            Some(stem) => stem@,
            None => "FBX"@,
        },
{
    match stem {
        Some(stem) => stem.to_owned(),
        None => "FBX".to_owned(),
    }
}

/// Which path stands for a mesh file that is entered: itself where it is
/// absolute, else its canonical form, else its place below the working
/// directory, as far as those are known.
pub fn choose_override_path(
    path: PathBuf,
    absolute: bool,
    canonical: Option<PathBuf>,
    below_working_directory: Option<PathBuf>,
) -> (chosen: PathBuf)
    ensures
        chosen == if absolute {
            path
        } else if canonical is Some {
            canonical.unwrap()
        } else if below_working_directory is Some {
            below_working_directory.unwrap()
        } else {
            path
        },
{
    if absolute {
        return path;
    }
    match canonical {
        Some(canonical) => canonical,
        None => match below_working_directory {
            Some(joined) => joined,
            None => path,
        },
    }
}

/// What the places in the lists stand for.
pub proof fn lemma_lists_are_in_order(index: usize)
    ensures
        index == 0 || index > 2 ==> mode_at(index) == BakeMode::Single,
        index == 1 ==> mode_at(index) == BakeMode::Full,
        index == 2 ==> mode_at(index) == BakeMode::Isotropic,
        index == 1 ==> sampler_at(index) == SamplerKind::Random,
        index != 1 ==> sampler_at(index) == SamplerKind::Halton,
        index == 1 ==> material_at(index) == MaterialKind::SpecularPhong,
        index != 1 ==> material_at(index) == MaterialKind::Lambertian,
{
}

/// A bake is started with what was entered: every setting but the sizes of the mesh tile,
/// which cannot be entered.  Sizes and samples that are entered as less than one count as
/// one, and a repeat radius counts as the nearest from 0 to 16.
pub proof fn lemma_entered_settings_are_baked(settings: BakeSettings, obj: Option<PathBuf>)
    ensures
        ({
            let asked = overrides_spec(settings, obj);
            let at_least_one = |value: i32| if value < 1 {
                1
            } else {
                value as int
            };
            &&& asked.obj == obj
            &&& asked.width is Some && asked.width.unwrap() == at_least_one(settings.width)
            &&& asked.height is Some && asked.height.unwrap() == at_least_one(settings.height)
            &&& asked.light_width is Some && asked.light_width.unwrap() == at_least_one(
                settings.light_width,
            )
            &&& asked.light_height is Some && asked.light_height.unwrap() == at_least_one(
                settings.light_height,
            )
            &&& asked.samples is Some && asked.samples.unwrap() == at_least_one(settings.samples)
            &&& asked.max_repeat_radius is Some
            &&& settings.max_repeat_radius < 0 ==> asked.max_repeat_radius.unwrap() == 0
            &&& 0 <= settings.max_repeat_radius <= 16 ==> asked.max_repeat_radius.unwrap()
                == settings.max_repeat_radius
            &&& settings.max_repeat_radius > 16 ==> asked.max_repeat_radius.unwrap() == 16
            &&& asked.mode == Some(BakeMode::Full) <==> settings.mode_index == 1
            &&& asked.mode == Some(BakeMode::Isotropic) <==> settings.mode_index == 2
            &&& asked.mode is Some
            &&& asked.sampler == Some(SamplerKind::Random) <==> settings.sampler_index == 1
            &&& asked.sampler is Some
            &&& asked.enable_shadows == Some(settings.enable_shadows)
            &&& asked.light == Some(settings.light)
            &&& asked.material_kind == Some(MaterialKind::SpecularPhong)
                <==> settings.material_index == 1
            &&& asked.material_kind is Some
            &&& asked.material_color == Some(settings.material_color)
            &&& asked.material_roughness == Some(settings.roughness)
            &&& asked.tile_width is None
            &&& asked.tile_depth is None
        }),
{
}

/// The sizes that are shown: those of a tile times the grid of lights, which in single mode
/// is a single place; a tile is one pixel wide where it does not depend on the azimuth.
pub proof fn lemma_shown_sizes_are_products(settings: BakeSettings)
    requires
        extents_fit(settings),
        settings.width >= 1,
        settings.height >= 1,
        settings.light_width >= 1,
        settings.light_height >= 1,
    ensures
        ({
            let shown = extents_spec(settings);
            &&& shown.tile_height == settings.height
            &&& settings.mode_index == 2 ==> shown.tile_width == 1
            &&& settings.mode_index != 2 ==> shown.tile_width == settings.width
            &&& settings.mode_index == 1 || settings.mode_index == 2 ==> {
                &&& shown.atlas_width == shown.tile_width * settings.light_width
                &&& shown.atlas_height == settings.height * settings.light_height
                &&& shown.light_count == settings.light_width * settings.light_height
            }
            &&& settings.mode_index != 1 && settings.mode_index != 2 ==> {
                &&& shown.atlas_width == settings.width
                &&& shown.atlas_height == settings.height
                &&& shown.light_count == 1
            }
        }),
{
    let (w, h) = (settings.width, settings.height);
    let (lw, lh) = (settings.light_width, settings.light_height);
    assert(0 <= w * lw && 0 <= h * lh && 0 <= lw * lh) by (nonlinear_arith)
        requires
            w >= 1,
            h >= 1,
            lw >= 1,
            lh >= 1,
    ;
}

/// The ranges that can be entered.
pub proof fn lemma_ranges_are_those_that_can_be_entered(settings: BakeSettings, value: int)
    ensures
        settings.in_range() <==> 1 <= settings.width <= 16_384 && 1 <= settings.height <= 16_384
            && 1 <= settings.light_width <= 16_384 && 1 <= settings.light_height <= 16_384 && 1
            <= settings.samples <= 100_000_000 && 0 <= settings.max_repeat_radius <= 16,
        1 <= clamped(value, 1, 16_384) <= 16_384,
        1 <= value <= 16_384 ==> clamped(value, 1, 16_384) == value,
        value < 1 ==> clamped(value, 1, 16_384) == 1,
        value > 16_384 ==> clamped(value, 1, 16_384) == 16_384,
        MAX_GUI_RESOLUTION == 16_384,
        MAX_GUI_SAMPLES == 100_000_000,
        MAX_GUI_REPEAT_RADIUS == 16,
        MIN_UPDATE_SECONDS_BITS == 0x3d4c_cccd,
        MAX_UPDATE_SECONDS_BITS == 0x4270_0000,
{
}

/// A model that is in the list stays selected; where the list has become shorter the last
/// one is.  A path is shown with the same characters, but for slashes.
pub proof fn lemma_selection_stays_in_the_list(index: usize, count: usize, text: Seq<char>, i: int)
    requires
        0 <= i < text.len(),
    ensures
        index < count ==> model_place(index, count) == index,
        0 < count <= index ==> model_place(index, count) == count - 1,
        count == 0 ==> model_place(index, count) == 0,
        slashed(text).len() == text.len(),
        text[i] == '\\' ==> slashed(text)[i] == '/',
        text[i] != '\\' ==> slashed(text)[i] == text[i],
{
}

} // verus!

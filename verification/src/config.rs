//! Bake settings: where they come from, which are accepted, and what follows
//! from them.

use crate::arithmetic::{Arithmetic, ArithmeticModel, Operation};
use crate::choice::{either, pick, pick_either, value_or};
use crate::kernel::{function1, image1, model1};
use crate::math::Vec3;
use crate::paths::{directory_of, directory_spec, parent_of, resolve_path, resolved_path};
use crate::sampling::{hemisphere_latlong_direction, LatlongMath, TexelCenter};
use crate::scalar::{Scalar, MINUS_ONE_BITS, ONE_BITS, TWO_BITS, ZERO_BITS};
use crate::text::{ascii_lower_text, same_text, to_ascii_lowercase, trim, trim_spec};
use std::path::PathBuf;
use vstd::prelude::*;

verus! {

pub const DEFAULT_WIDTH: u32 = 256;

pub const DEFAULT_HEIGHT: u32 = 64;

pub const DEFAULT_SAMPLES: u32 = 64;

pub const DEFAULT_LIGHT_WIDTH: u32 = 8;

pub const DEFAULT_LIGHT_HEIGHT: u32 = 4;

pub const DEFAULT_MAX_REPEAT_RADIUS: u32 = 2;

pub const MAX_REPEAT_RADIUS_LIMIT: u32 = 16;

/// Bits of `0.05`.
pub const DEFAULT_SPECULAR_ROUGHNESS_BITS: u32 = 0x3d4c_cccd;

/// Bits of `1.0e-4`.
pub const MIN_LIGHT_COS_BITS: u32 = 0x38d1_b717;

/// Bits of `0.001`.
pub const MIN_EFFECTIVE_ROUGHNESS_BITS: u32 = 0x3a83_126f;

/// Bits of `1000000.0`.
pub const MAX_PHONG_EXPONENT_BITS: u32 = 0x4974_2400;

/// How a surface reflects.
#[derive(Clone, Copy, Debug, PartialEq, Eq, Structural)]
pub enum MaterialKind {
    Lambertian,
    SpecularPhong,
}

/// Which directions a bake covers.
#[derive(Clone, Copy, Debug, PartialEq, Eq, Structural)]
pub enum BakeMode {
    Single,
    Full,
    Isotropic,
}

/// How sample positions are drawn.
#[derive(Clone, Copy, Debug, PartialEq, Eq, Structural)]
pub enum SamplerKind {
    Halton,
    Random,
}

/// Text as it is compared with names: trimmed, in ASCII lower case.
pub open spec fn folded(value: Seq<char>) -> Seq<char> {
    ascii_lower_text(trim_spec(value))
}

/// Folds text for a comparison with names.
fn fold(value: &str) -> (result: String)
    ensures
        result@ == folded(value@),
{
    to_ascii_lowercase(trim(value))
}

impl MaterialKind {
    /// The name of the kind.
    pub open spec fn name(self) -> Seq<char> {
        match self {
            MaterialKind::Lambertian => "lambertian"@,
            MaterialKind::SpecularPhong => "specular_phong"@,
        }
    }

    /// The kind that a name, or another word for it, stands for.
    pub open spec fn named(value: Seq<char>) -> Option<MaterialKind> {
        let word = folded(value);
        if word == "lambertian"@ || word == "diffuse"@ {
            Some(MaterialKind::Lambertian)
        } else if word == "specular"@ || word == "specular_phong"@ || word == "specular-phong"@
            || word == "phong"@ {
            Some(MaterialKind::SpecularPhong)
        } else {
            None
        }
    }

    /// The name of the kind.
    pub fn as_str(self) -> (name: &'static str)
        ensures
            name@ == self.name(),
    {
        match self {
            MaterialKind::Lambertian => "lambertian",
            MaterialKind::SpecularPhong => "specular_phong",
        }
    }

    /// Reads the name of a kind.
    pub fn from_str(value: &str) -> (kind: Result<MaterialKind, String>)
        ensures
            match MaterialKind::named(value@) {
                Some(named) => kind == Ok::<MaterialKind, String>(named),
                None => kind matches Err(message) && message@
                    == "expected one of: lambertian, specular_phong, specular"@,
            },
    {
        let word = fold(value);
        if same_text(word.as_str(), "lambertian") || same_text(word.as_str(), "diffuse") {
            Ok(MaterialKind::Lambertian)
        } else if same_text(word.as_str(), "specular") || same_text(word.as_str(), "specular_phong")
            || same_text(word.as_str(), "specular-phong") || same_text(word.as_str(), "phong") {
            Ok(MaterialKind::SpecularPhong)
        } else {
            Err("expected one of: lambertian, specular_phong, specular".to_owned())
        }
    }
}

impl std::str::FromStr for MaterialKind {
    type Err = String;

    /// Reads the name of a kind.
    fn from_str(value: &str) -> (kind: Result<MaterialKind, String>)
        ensures
            match MaterialKind::named(value@) {
                Some(named) => kind == Ok::<MaterialKind, String>(named),
                None => kind matches Err(message) && message@
                    == "expected one of: lambertian, specular_phong, specular"@,
            },
    {
        MaterialKind::from_str(value)
    }
}

impl SamplerKind {
    /// The name of the kind.
    pub open spec fn name(self) -> Seq<char> {
        match self {
            SamplerKind::Halton => "halton"@,
            SamplerKind::Random => "random"@,
        }
    }

    /// The kind that a name, or another word for it, stands for.
    pub open spec fn named(value: Seq<char>) -> Option<SamplerKind> {
        let word = folded(value);
        if word == "halton"@ || word == "qmc"@ || word == "low_discrepancy"@ || word
            == "low-discrepancy"@ {
            Some(SamplerKind::Halton)
        } else if word == "random"@ || word == "hashed"@ || word == "hash"@ {
            Some(SamplerKind::Random)
        } else {
            None
        }
    }

    /// The name of the kind.
    pub fn as_str(self) -> (name: &'static str)
        ensures
            name@ == self.name(),
    {
        match self {
            SamplerKind::Halton => "halton",
            SamplerKind::Random => "random",
        }
    }

    /// Reads the name of a kind.
    pub fn from_str(value: &str) -> (kind: Result<SamplerKind, String>)
        ensures
            match SamplerKind::named(value@) {
                Some(named) => kind == Ok::<SamplerKind, String>(named),
                None => kind matches Err(message) && message@ == "expected one of: halton, random"@,
            },
    {
        let word = fold(value);
        if same_text(word.as_str(), "halton") || same_text(word.as_str(), "qmc") || same_text(
            word.as_str(),
            "low_discrepancy",
        ) || same_text(word.as_str(), "low-discrepancy") {
            Ok(SamplerKind::Halton)
        } else if same_text(word.as_str(), "random") || same_text(word.as_str(), "hashed")
            || same_text(word.as_str(), "hash") {
            Ok(SamplerKind::Random)
        } else {
            Err("expected one of: halton, random".to_owned())
        }
    }
}

impl std::str::FromStr for SamplerKind {
    type Err = String;

    /// Reads the name of a kind.
    fn from_str(value: &str) -> (kind: Result<SamplerKind, String>)
        ensures
            match SamplerKind::named(value@) {
                Some(named) => kind == Ok::<SamplerKind, String>(named),
                None => kind matches Err(message) && message@ == "expected one of: halton, random"@,
            },
    {
        SamplerKind::from_str(value)
    }
}

impl BakeMode {
    /// The name of the mode.
    pub open spec fn name(self) -> Seq<char> {
        match self {
            BakeMode::Single => "single"@,
            BakeMode::Full => "full"@,
            BakeMode::Isotropic => "isotropic"@,
        }
    }

    /// The mode that a name, or another word for it, stands for.
    pub open spec fn named(value: Seq<char>) -> Option<BakeMode> {
        let word = folded(value);
        if word == "single"@ || word == "fixed"@ || word == "fixed_light"@ || word
            == "fixed-light"@ {
            Some(BakeMode::Single)
        } else if word == "full"@ || word == "anisotropic"@ || word == "4d"@ {
            Some(BakeMode::Full)
        } else if word == "isotropic"@ || word == "iso"@ {
            Some(BakeMode::Isotropic)
        } else {
            None
        }
    }

    /// The name of the mode.
    pub fn as_str(self) -> (name: &'static str)
        ensures
            name@ == self.name(),
    {
        match self {
            BakeMode::Single => "single",
            BakeMode::Full => "full",
            BakeMode::Isotropic => "isotropic",
        }
    }

    /// Reads the name of a mode.
    pub fn from_str(value: &str) -> (mode: Result<BakeMode, String>)
        ensures
            match BakeMode::named(value@) {
                Some(named) => mode == Ok::<BakeMode, String>(named),
                None => mode matches Err(message) && message@
                    == "expected one of: single, full, isotropic"@,
            },
    {
        let word = fold(value);
        if same_text(word.as_str(), "single") || same_text(word.as_str(), "fixed") || same_text(
            word.as_str(),
            "fixed_light",
        ) || same_text(word.as_str(), "fixed-light") {
            Ok(BakeMode::Single)
        } else if same_text(word.as_str(), "full") || same_text(word.as_str(), "anisotropic")
            || same_text(word.as_str(), "4d") {
            Ok(BakeMode::Full)
        } else if same_text(word.as_str(), "isotropic") || same_text(word.as_str(), "iso") {
            Ok(BakeMode::Isotropic)
        } else {
            Err("expected one of: single, full, isotropic".to_owned())
        }
    }
}

impl std::str::FromStr for BakeMode {
    type Err = String;

    /// Reads the name of a mode.
    fn from_str(value: &str) -> (mode: Result<BakeMode, String>)
        ensures
            match BakeMode::named(value@) {
                Some(named) => mode == Ok::<BakeMode, String>(named),
                None => mode matches Err(message) && message@
                    == "expected one of: single, full, isotropic"@,
            },
    {
        BakeMode::from_str(value)
    }
}

/// Reads the name of a material kind.
pub fn parse_material_kind(value: &str) -> (kind: Result<MaterialKind, String>)
    ensures
        match MaterialKind::named(value@) {
            Some(named) => kind == Ok::<MaterialKind, String>(named),
            None => kind matches Err(message) && message@
                == "expected one of: lambertian, specular_phong, specular"@,
        },
{
    MaterialKind::from_str(value)
}

/// Reads the name of a bake mode.
pub fn parse_bake_mode(value: &str) -> (mode: Result<BakeMode, String>)
    ensures
        match BakeMode::named(value@) {
            Some(named) => mode == Ok::<BakeMode, String>(named),
            None => mode matches Err(message) && message@
                == "expected one of: single, full, isotropic"@,
        },
{
    BakeMode::from_str(value)
}

/// Reads the name of a sampler.
pub fn parse_sampler_kind(value: &str) -> (kind: Result<SamplerKind, String>)
    ensures
        match SamplerKind::named(value@) {
            Some(named) => kind == Ok::<SamplerKind, String>(named),
            None => kind matches Err(message) && message@ == "expected one of: halton, random"@,
        },
{
    SamplerKind::from_str(value)
}

/// The material part of a configuration file.
#[derive(Debug, PartialEq)]
pub struct MaterialConfigFile {
    pub kind: Option<MaterialKind>,
    pub color: Option<Vec3>,
    pub roughness: Option<Scalar>,
}

/// A configuration file.  Everything in it is optional.
#[derive(Debug, PartialEq)]
pub struct BakeConfigFile {
    pub obj: Option<PathBuf>,
    pub width: Option<u32>,
    pub height: Option<u32>,
    pub mode: Option<BakeMode>,
    pub light_width: Option<u32>,
    pub light_height: Option<u32>,
    pub samples: Option<u32>,
    pub tile_width: Option<Scalar>,
    pub tile_depth: Option<Scalar>,
    pub light: Option<Vec3>,
    pub max_repeat_radius: Option<u32>,
    pub sampler: Option<SamplerKind>,
    pub enable_shadows: Option<bool>,
    pub material: MaterialConfigFile,
}

/// Settings that take precedence over a configuration file.
#[derive(Debug, PartialEq)]
pub struct BakeOverrides {
    pub obj: Option<PathBuf>,
    pub width: Option<u32>,
    pub height: Option<u32>,
    pub mode: Option<BakeMode>,
    pub light_width: Option<u32>,
    pub light_height: Option<u32>,
    pub samples: Option<u32>,
    pub tile_width: Option<Scalar>,
    pub tile_depth: Option<Scalar>,
    pub light: Option<Vec3>,
    pub max_repeat_radius: Option<u32>,
    pub sampler: Option<SamplerKind>,
    pub enable_shadows: Option<bool>,
    pub material_kind: Option<MaterialKind>,
    pub material_color: Option<Vec3>,
    pub material_roughness: Option<Scalar>,
}

/// A material with every choice made.
#[derive(Clone, Copy, Debug, PartialEq)]
pub struct ResolvedMaterial {
    pub kind: MaterialKind,
    pub color: Vec3,
    pub roughness: Option<Scalar>,
}

/// Settings with every choice made.
#[derive(Debug, PartialEq)]
pub struct ResolvedBakeConfig {
    pub obj: PathBuf,
    pub width: u32,
    pub height: u32,
    pub mode: BakeMode,
    pub light_width: u32,
    pub light_height: u32,
    pub samples: u32,
    pub tile_width_override: Option<Scalar>,
    pub tile_depth_override: Option<Scalar>,
    pub light: Vec3,
    pub max_repeat_radius: u32,
    pub sampler: SamplerKind,
    pub enable_shadows: bool,
    pub material: ResolvedMaterial,
}

/// Why settings are refused.
#[derive(Clone, Copy, Debug, PartialEq, Eq, Structural)]
pub enum ConfigError {
    MissingObj,
    InvalidResolution,
    InvalidSamples,
    InvalidTileOverride,
    InvalidLight,
    InvalidMaxRepeatRadius,
    InvalidMaterialColor,
    InvalidMaterialRoughness,
}

impl ConfigError {
    /// The message for the error.
    pub open spec fn message_spec(self) -> Seq<char> {
        match self {
            ConfigError::MissingObj =>
                "missing required OBJ path; set `obj` in the config or pass --obj"@,
            ConfigError::InvalidResolution => "width and height must both be greater than zero"@,
            ConfigError::InvalidSamples => "samples must be greater than zero"@,
            ConfigError::InvalidTileOverride =>
                "tile width and depth overrides must be finite and greater than zero"@,
            ConfigError::InvalidLight =>
                "light direction must be finite, non-zero, and above the +Y macro plane"@,
            ConfigError::InvalidMaxRepeatRadius => "max_repeat_radius must be in the 0..=16 range"@,
            ConfigError::InvalidMaterialColor =>
                "material color must contain finite non-negative values"@,
            ConfigError::InvalidMaterialRoughness =>
                "material roughness must be finite and in the 0..=1 range"@,
        }
    }

    /// The message for the error.
    pub fn message(self) -> (message: &'static str)
        ensures
            message@ == self.message_spec(),
    {
        match self {
            ConfigError::MissingObj =>
                "missing required OBJ path; set `obj` in the config or pass --obj",
            ConfigError::InvalidResolution => "width and height must both be greater than zero",
            ConfigError::InvalidSamples => "samples must be greater than zero",
            ConfigError::InvalidTileOverride =>
                "tile width and depth overrides must be finite and greater than zero",
            ConfigError::InvalidLight =>
                "light direction must be finite, non-zero, and above the +Y macro plane",
            ConfigError::InvalidMaxRepeatRadius => "max_repeat_radius must be in the 0..=16 range",
            ConfigError::InvalidMaterialColor =>
                "material color must contain finite non-negative values",
            ConfigError::InvalidMaterialRoughness =>
                "material roughness must be finite and in the 0..=1 range",
        }
    }
}

impl Default for MaterialConfigFile {
    fn default() -> (material: MaterialConfigFile)
        ensures
            material == (MaterialConfigFile { kind: None, color: None, roughness: None }),
    {
        MaterialConfigFile { kind: None, color: None, roughness: None }
    }
}

impl Default for BakeConfigFile {
    fn default() -> (file: BakeConfigFile)
        ensures
            file.obj is None && file.width is None && file.height is None && file.mode is None,
            file.light_width is None && file.light_height is None && file.samples is None,
            file.tile_width is None && file.tile_depth is None && file.light is None,
            file.max_repeat_radius is None && file.sampler is None,
            file.enable_shadows is None,
            file.material == (MaterialConfigFile { kind: None, color: None, roughness: None }),
    {
        BakeConfigFile {
            obj: None,
            width: None,
            height: None,
            mode: None,
            light_width: None,
            light_height: None,
            samples: None,
            tile_width: None,
            tile_depth: None,
            light: None,
            max_repeat_radius: None,
            sampler: None,
            enable_shadows: None,
            material: MaterialConfigFile { kind: None, color: None, roughness: None },
        }
    }
}

impl Default for BakeOverrides {
    fn default() -> (overrides: BakeOverrides)
        ensures
            overrides.obj is None && overrides.width is None && overrides.height is None,
            overrides.mode is None && overrides.light_width is None && overrides.light_height
                is None,
            overrides.samples is None && overrides.tile_width is None && overrides.tile_depth
                is None,
            overrides.light is None && overrides.max_repeat_radius is None && overrides.sampler
                is None,
            overrides.enable_shadows is None && overrides.material_kind is None,
            overrides.material_color is None && overrides.material_roughness is None,
    {
        BakeOverrides {
            obj: None,
            width: None,
            height: None,
            mode: None,
            light_width: None,
            light_height: None,
            samples: None,
            tile_width: None,
            tile_depth: None,
            light: None,
            max_repeat_radius: None,
            sampler: None,
            enable_shadows: None,
            material_kind: None,
            material_color: None,
            material_roughness: None,
        }
    }
}

/// Zero.
pub open spec fn zero() -> Scalar {
    Scalar { bits: ZERO_BITS }
}

/// One.
pub open spec fn one() -> Scalar {
    Scalar { bits: ONE_BITS }
}

/// Whether a number is finite and not below zero.
pub open spec fn valid_component(component: Scalar) -> bool {
    component.is_finite_spec() && !component.lt_spec(zero())
}

/// Whether a color is made of finite numbers that are not below zero.
pub open spec fn valid_color(color: Vec3) -> bool {
    valid_component(color.x) && valid_component(color.y) && valid_component(color.z)
}

/// Whether a roughness, where one is given, is a number from zero to one.
pub open spec fn valid_roughness(roughness: Option<Scalar>) -> bool {
    match roughness {
        Some(roughness) => roughness.is_finite_spec() && zero().le_spec(roughness)
            && roughness.le_spec(one()),
        None => true,
    }
}

/// Whether a roughness, where one is given, is a finite number.
pub open spec fn finite_roughness(roughness: Option<Scalar>) -> bool {
    match roughness {
        Some(roughness) => roughness.is_finite_spec(),
        None => true,
    }
}

/// The roughness of a specular material: the one that is given, moved into the
/// range from zero to one.
pub open spec fn resolved_roughness(roughness: Option<Scalar>) -> Scalar {
    value_or(roughness, Scalar { bits: DEFAULT_SPECULAR_ROUGHNESS_BITS }).clamp_spec(zero(), one())
}

/// Whether a size, where one is given, is finite and above zero.
pub open spec fn valid_override(value: Option<Scalar>) -> bool {
    match value {
        Some(value) => value.is_finite_spec() && zero().lt_spec(value),
        None => true,
    }
}

/// White, unless set otherwise.
pub open spec fn default_color() -> Vec3 {
    Vec3 { x: one(), y: one(), z: one() }
}

/// Half way up, unless set otherwise: from `(0, 1, -1)`.
pub open spec fn default_light() -> Vec3 {
    Vec3 { x: zero(), y: one(), z: Scalar { bits: MINUS_ONE_BITS } }
}

/// The material that the settings describe, or why they are refused.
pub open spec fn resolve_material_spec(
    material: MaterialConfigFile,
    overrides: BakeOverrides,
) -> Result<ResolvedMaterial, ConfigError> {
    let kind = value_or(either(overrides.material_kind, material.kind), MaterialKind::Lambertian);
    let color = value_or(either(overrides.material_color, material.color), default_color());
    let roughness = either(overrides.material_roughness, material.roughness);
    if !valid_color(color) {
        Err(ConfigError::InvalidMaterialColor)
    } else if !finite_roughness(roughness) {
        Err(ConfigError::InvalidMaterialRoughness)
    } else {
        Ok(
            ResolvedMaterial {
                kind,
                color,
                roughness: match kind {
                    MaterialKind::Lambertian => None,
                    MaterialKind::SpecularPhong => Some(resolved_roughness(roughness)),
                },
            },
        )
    }
}

/// The direction toward the light, where there is one and it lies above the
/// horizon.
pub open spec fn accepted_light(
    light: Vec3,
    normalize: spec_fn(Vec3) -> Option<Vec3>,
) -> Option<Vec3> {
    match normalize(light) {
        Some(unit) => if (Scalar { bits: MIN_LIGHT_COS_BITS }).lt_spec(unit.y) {
            Some(unit)
        } else {
            None
        },
        None => None,
    }
}

/// Where the mesh file is: one that is named by a relative path is beside the
/// configuration file, where there is one.
pub open spec fn located_mesh(config_path: Option<PathBuf>, named: Option<PathBuf>) -> Option<
    PathBuf,
> {
    match named {
        Some(path) => Some(resolved_path(directory_spec(config_path), path)),
        None => None,
    }
}

/// The settings that a file and overrides describe together, or why they are
/// refused.  `located` is the mesh file, where one was named.
pub open spec fn resolve_spec(
    file: BakeConfigFile,
    overrides: BakeOverrides,
    located: Option<PathBuf>,
    normalize: spec_fn(Vec3) -> Option<Vec3>,
) -> Result<ResolvedBakeConfig, ConfigError> {
    let material = resolve_material_spec(file.material, overrides);
    let width = value_or(either(overrides.width, file.width), DEFAULT_WIDTH);
    let height = value_or(either(overrides.height, file.height), DEFAULT_HEIGHT);
    let light_width = value_or(either(overrides.light_width, file.light_width), DEFAULT_LIGHT_WIDTH);
    let light_height = value_or(
        either(overrides.light_height, file.light_height),
        DEFAULT_LIGHT_HEIGHT,
    );
    let samples = value_or(either(overrides.samples, file.samples), DEFAULT_SAMPLES);
    let tile_width = either(overrides.tile_width, file.tile_width);
    let tile_depth = either(overrides.tile_depth, file.tile_depth);
    let light = accepted_light(
        value_or(either(overrides.light, file.light), default_light()),
        normalize,
    );
    let max_repeat_radius = value_or(
        either(overrides.max_repeat_radius, file.max_repeat_radius),
        DEFAULT_MAX_REPEAT_RADIUS,
    );
    if material is Err {
        Err(material.unwrap_err())
    } else if located is None {
        Err(ConfigError::MissingObj)
    } else if width == 0 || height == 0 || light_width == 0 || light_height == 0 {
        Err(ConfigError::InvalidResolution)
    } else if samples == 0 {
        Err(ConfigError::InvalidSamples)
    } else if !valid_override(tile_width) || !valid_override(tile_depth) {
        Err(ConfigError::InvalidTileOverride)
    } else if light is None {
        Err(ConfigError::InvalidLight)
    } else if max_repeat_radius > MAX_REPEAT_RADIUS_LIMIT {
        Err(ConfigError::InvalidMaxRepeatRadius)
    } else {
        Ok(
            ResolvedBakeConfig {
                obj: located.unwrap(),
                width,
                height,
                mode: value_or(either(overrides.mode, file.mode), BakeMode::Single),
                light_width,
                light_height,
                samples,
                tile_width_override: tile_width,
                tile_depth_override: tile_depth,
                light: light.unwrap(),
                max_repeat_radius,
                sampler: value_or(either(overrides.sampler, file.sampler), SamplerKind::Halton),
                enable_shadows: value_or(either(overrides.enable_shadows, file.enable_shadows), true),
                material: material.unwrap(),
            },
        )
    }
}

/// Whether a size, where one is given, is finite and above zero.
pub fn valid_positive_override(value: Option<Scalar>) -> (valid: bool)
    ensures
        valid == valid_override(value),
{
    match value {
        Some(value) => value.is_finite() && Scalar::zero().less_than(value),
        None => true,
    }
}

/// Whether a number is finite and not below zero.
fn is_valid_component(component: Scalar) -> (valid: bool)
    ensures
        valid == valid_component(component),
{
    component.is_finite() && !component.less_than(Scalar::zero())
}

/// Chooses the material.
pub fn resolve_material(material: &MaterialConfigFile, overrides: &BakeOverrides) -> (resolved:
    Result<ResolvedMaterial, ConfigError>)
    ensures
        resolved == resolve_material_spec(*material, *overrides),
{
    let kind = pick(overrides.material_kind, material.kind, MaterialKind::Lambertian);
    let white = Vec3 { x: Scalar::one(), y: Scalar::one(), z: Scalar::one() };
    let color = pick(overrides.material_color, material.color, white);
    if !is_valid_component(color.x) || !is_valid_component(color.y) || !is_valid_component(
        color.z,
    ) {
        return Err(ConfigError::InvalidMaterialColor);
    }
    let roughness = pick_either(overrides.material_roughness, material.roughness);
    if let Some(value) = roughness {
        if !value.is_finite() {
            return Err(ConfigError::InvalidMaterialRoughness);
        }
    }
    let roughness = match kind {
        MaterialKind::Lambertian => None,
        MaterialKind::SpecularPhong => {
            let given = pick(roughness, None, Scalar { bits: DEFAULT_SPECULAR_ROUGHNESS_BITS });
            Some(given.clamp(Scalar::zero(), Scalar::one()))
        },
    };
    Ok(ResolvedMaterial { kind, color, roughness })
}

impl BakeConfigFile {
    /// Puts a file and overrides together, for a mesh file that is located
    /// already.  `normalize` scales a vector to unit length where that is
    /// possible.
    pub fn resolve_located<N: Fn(Vec3) -> Option<Vec3>>(
        &self,
        overrides: &BakeOverrides,
        located: Option<PathBuf>,
        normalize: &N,
    ) -> (resolved: Result<ResolvedBakeConfig, ConfigError>)
        requires
            function1(*normalize),
        ensures
            resolved == resolve_spec(*self, *overrides, located, model1(*normalize)),
    {
        let material = match resolve_material(&self.material, overrides) {
            Ok(material) => material,
            Err(error) => return Err(error),
        };
        let obj = match located {
            Some(obj) => obj,
            None => return Err(ConfigError::MissingObj),
        };
        let width: u32 = pick(overrides.width, self.width, DEFAULT_WIDTH);
        let height: u32 = pick(overrides.height, self.height, DEFAULT_HEIGHT);
        if width == 0 || height == 0 {
            return Err(ConfigError::InvalidResolution);
        }
        let mode = pick(overrides.mode, self.mode, BakeMode::Single);
        let light_width: u32 = pick(overrides.light_width, self.light_width, DEFAULT_LIGHT_WIDTH);
        let light_height: u32 = pick(
            overrides.light_height,
            self.light_height,
            DEFAULT_LIGHT_HEIGHT,
        );
        if light_width == 0 || light_height == 0 {
            return Err(ConfigError::InvalidResolution);
        }
        let samples: u32 = pick(overrides.samples, self.samples, DEFAULT_SAMPLES);
        if samples == 0 {
            return Err(ConfigError::InvalidSamples);
        }
        let tile_width_override = pick_either(overrides.tile_width, self.tile_width);
        let tile_depth_override = pick_either(overrides.tile_depth, self.tile_depth);
        if !valid_positive_override(tile_width_override) || !valid_positive_override(
            tile_depth_override,
        ) {
            return Err(ConfigError::InvalidTileOverride);
        }
        let default_light = Vec3 {
            x: Scalar::zero(),
            y: Scalar::one(),
            z: Scalar { bits: MINUS_ONE_BITS },
        };
        let light_value = pick(overrides.light, self.light, default_light);
        let unit = normalize(light_value);
        assert(unit == image1(*normalize, light_value));
        let min_light_cos = Scalar { bits: MIN_LIGHT_COS_BITS };
        let light = match unit {
            Some(unit) => if min_light_cos.less_than(unit.y) {
                unit
            } else {
                return Err(ConfigError::InvalidLight);
            },
            None => return Err(ConfigError::InvalidLight),
        };
        let max_repeat_radius: u32 = pick(
            overrides.max_repeat_radius,
            self.max_repeat_radius,
            DEFAULT_MAX_REPEAT_RADIUS,
        );
        if max_repeat_radius > MAX_REPEAT_RADIUS_LIMIT {
            return Err(ConfigError::InvalidMaxRepeatRadius);
        }
        Ok(
            ResolvedBakeConfig {
                obj,
                width,
                height,
                mode,
                light_width,
                light_height,
                samples,
                tile_width_override,
                tile_depth_override,
                light,
                max_repeat_radius,
                sampler: pick(overrides.sampler, self.sampler, SamplerKind::Halton),
                enable_shadows: pick(overrides.enable_shadows, self.enable_shadows, true),
                material,
            },
        )
    }

    /// Puts a file and overrides together.  A relative mesh file is looked for
    /// beside the configuration file, where there is one.
    pub fn resolve<N: Fn(Vec3) -> Option<Vec3>>(
        self,
        config_path: Option<&PathBuf>,
        overrides: BakeOverrides,
        normalize: &N,
    ) -> (resolved: Result<ResolvedBakeConfig, ConfigError>)
        requires
            function1(*normalize),
        ensures
            resolved == resolve_spec(
                self,
                overrides,
                located_mesh(
                    match config_path {
                        Some(path) => Some(*path),
                        None => None,
                    },
                    either(overrides.obj, self.obj),
                ),
                model1(*normalize),
            ),
            resolved matches Ok(config) ==> {
                let directory = match config_path {
                    Some(path) => parent_of(*path),
                    None => None,
                };
                &&& overrides.obj is Some ==> config.obj == resolved_path(
                    directory,
                    overrides.obj.unwrap(),
                )
                &&& overrides.obj is None ==> self.obj is Some && config.obj == resolved_path(
                    directory,
                    self.obj.unwrap(),
                )
            },
    {
        let config_dir = directory_of(config_path);
        let named = match &overrides.obj {
            Some(path) => Some(path.clone()),
            None => match &self.obj {
                Some(path) => Some(path.clone()),
                None => None,
            },
        };
        let located = match named {
            Some(path) => Some(resolve_path(config_dir, path)),
            None => None,
        };
        self.resolve_located(&overrides, located, normalize)
    }
}

/// Whether settings are in the ranges that resolving guarantees.
pub open spec fn is_valid(config: ResolvedBakeConfig) -> bool {
    &&& config.width > 0 && config.height > 0
    &&& config.light_width > 0 && config.light_height > 0
    &&& config.samples > 0
    &&& valid_override(config.tile_width_override) && valid_override(config.tile_depth_override)
    &&& (Scalar { bits: MIN_LIGHT_COS_BITS }).lt_spec(config.light.y)
    &&& config.max_repeat_radius <= MAX_REPEAT_RADIUS_LIMIT
    &&& valid_color(config.material.color)
    &&& valid_roughness(config.material.roughness)
    &&& config.material.roughness is Some <==> config.material.kind == MaterialKind::SpecularPhong
}

/// Settings that are resolved are in range.
pub proof fn lemma_resolved_settings_are_valid(
    file: BakeConfigFile,
    overrides: BakeOverrides,
    located: Option<PathBuf>,
    normalize: spec_fn(Vec3) -> Option<Vec3>,
)
    requires
        resolve_spec(file, overrides, located, normalize) is Ok,
    ensures
        is_valid(resolve_spec(file, overrides, located, normalize).unwrap()),
{
}

/// Only what the overrides leave open of a material is taken from the file.
proof fn lemma_material_overrides_take_precedence(
    first: MaterialConfigFile,
    second: MaterialConfigFile,
    overrides: BakeOverrides,
)
    requires
        overrides.material_kind is None ==> first.kind == second.kind,
        overrides.material_color is None ==> first.color == second.color,
        overrides.material_roughness is None ==> first.roughness == second.roughness,
    ensures
        resolve_material_spec(first, overrides) == resolve_material_spec(second, overrides),
{
    assert(either(overrides.material_kind, first.kind) == either(
        overrides.material_kind,
        second.kind,
    ));
    assert(either(overrides.material_color, first.color) == either(
        overrides.material_color,
        second.color,
    ));
    assert(either(overrides.material_roughness, first.roughness) == either(
        overrides.material_roughness,
        second.roughness,
    ));
}

/// Only what the overrides leave open is taken from the file: two files that
/// agree there are resolved alike.
pub proof fn lemma_overrides_take_precedence(
    first: BakeConfigFile,
    second: BakeConfigFile,
    overrides: BakeOverrides,
    located: Option<PathBuf>,
    normalize: spec_fn(Vec3) -> Option<Vec3>,
)
    requires
        overrides.width is None ==> first.width == second.width,
        overrides.height is None ==> first.height == second.height,
        overrides.mode is None ==> first.mode == second.mode,
        overrides.light_width is None ==> first.light_width == second.light_width,
        overrides.light_height is None ==> first.light_height == second.light_height,
        overrides.samples is None ==> first.samples == second.samples,
        overrides.tile_width is None ==> first.tile_width == second.tile_width,
        overrides.tile_depth is None ==> first.tile_depth == second.tile_depth,
        overrides.light is None ==> first.light == second.light,
        overrides.max_repeat_radius is None ==> first.max_repeat_radius
            == second.max_repeat_radius,
        overrides.sampler is None ==> first.sampler == second.sampler,
        overrides.enable_shadows is None ==> first.enable_shadows == second.enable_shadows,
        overrides.material_kind is None ==> first.material.kind == second.material.kind,
        overrides.material_color is None ==> first.material.color == second.material.color,
        overrides.material_roughness is None ==> first.material.roughness
            == second.material.roughness,
    ensures
        resolve_spec(first, overrides, located, normalize) == resolve_spec(
            second,
            overrides,
            located,
            normalize,
        ),
{
    lemma_material_overrides_take_precedence(first.material, second.material, overrides);
    assert(either(overrides.width, first.width) == either(overrides.width, second.width));
    assert(either(overrides.height, first.height) == either(overrides.height, second.height));
    assert(either(overrides.mode, first.mode) == either(overrides.mode, second.mode));
    assert(either(overrides.light_width, first.light_width) == either(
        overrides.light_width,
        second.light_width,
    ));
    assert(either(overrides.light_height, first.light_height) == either(
        overrides.light_height,
        second.light_height,
    ));
    assert(either(overrides.samples, first.samples) == either(overrides.samples, second.samples));
    assert(either(overrides.tile_width, first.tile_width) == either(
        overrides.tile_width,
        second.tile_width,
    ));
    assert(either(overrides.tile_depth, first.tile_depth) == either(
        overrides.tile_depth,
        second.tile_depth,
    ));
    assert(either(overrides.light, first.light) == either(overrides.light, second.light));
    assert(either(overrides.max_repeat_radius, first.max_repeat_radius) == either(
        overrides.max_repeat_radius,
        second.max_repeat_radius,
    ));
    assert(either(overrides.sampler, first.sampler) == either(overrides.sampler, second.sampler));
    assert(either(overrides.enable_shadows, first.enable_shadows) == either(
        overrides.enable_shadows,
        second.enable_shadows,
    ));
}

/// Text of lower-case ASCII letters, digits and marks is folded to itself.
proof fn lemma_folded_is_itself(text: Seq<char>)
    requires
        text.len() > 0,
        forall|i: int| 0 <= i < text.len() ==> 'Z' < #[trigger] text[i] <= 'z' || text[i] == '-'
            || '0' <= text[i] <= '9',
    ensures
        folded(text) == text,
{
    assert(!crate::text::is_white_space(text[0]));
    assert(!crate::text::is_white_space(text.last()));
    assert(trim_spec(text) == text);
    assert(ascii_lower_text(text) =~= text);
}

/// The name of a material kind is read as that kind.
pub proof fn lemma_material_names_round_trip(kind: MaterialKind)
    ensures
        MaterialKind::named(kind.name()) == Some(kind),
{
    reveal_strlit("lambertian");
    reveal_strlit("diffuse");
    reveal_strlit("specular_phong");
    lemma_folded_is_itself(kind.name());
}

/// The name of a sampler is read as that sampler.
pub proof fn lemma_sampler_names_round_trip(kind: SamplerKind)
    ensures
        SamplerKind::named(kind.name()) == Some(kind),
{
    reveal_strlit("halton");
    reveal_strlit("qmc");
    reveal_strlit("low_discrepancy");
    reveal_strlit("low-discrepancy");
    reveal_strlit("random");
    lemma_folded_is_itself(kind.name());
    assert("random"@[0] != "halton"@[0]);
}

/// The name of a bake mode is read as that mode.
pub proof fn lemma_mode_names_round_trip(mode: BakeMode)
    ensures
        BakeMode::named(mode.name()) == Some(mode),
{
    reveal_strlit("single");
    reveal_strlit("fixed");
    reveal_strlit("fixed_light");
    reveal_strlit("fixed-light");
    reveal_strlit("full");
    reveal_strlit("anisotropic");
    reveal_strlit("4d");
    reveal_strlit("isotropic");
    lemma_folded_is_itself(mode.name());
}

/// How sharp the lobe of a roughness `r` is: `2 / (r * r) - 2`.
pub open spec fn lobe_sharpness(math: ArithmeticModel, roughness: Scalar) -> Scalar {
    let two = Scalar { bits: TWO_BITS };
    math.difference(math.quotient(two, math.product(roughness, roughness)), two)
}

impl ResolvedMaterial {
    /// The roughness that the lobe is computed from.
    pub open spec fn effective_roughness(self) -> Scalar {
        value_or(self.roughness, Scalar { bits: DEFAULT_SPECULAR_ROUGHNESS_BITS }).clamp_spec(
            zero(),
            one(),
        ).max_spec(Scalar { bits: MIN_EFFECTIVE_ROUGHNESS_BITS })
    }

    /// The exponent of the lobe.
    pub open spec fn phong_exponent_spec(self, math: ArithmeticModel) -> Option<Scalar> {
        if self.kind != MaterialKind::SpecularPhong {
            None
        } else {
            Some(
                lobe_sharpness(math, self.effective_roughness()).clamp_spec(
                    one(),
                    Scalar { bits: MAX_PHONG_EXPONENT_BITS },
                ),
            )
        }
    }

    /// What the material is, in words.
    pub open spec fn description(self) -> Seq<char> {
        match self.kind {
            MaterialKind::Lambertian => "Lambertian diffuse BRDF"@,
            MaterialKind::SpecularPhong =>
                "normalized Phong reflection lobe around the mirror direction"@,
        }
    }

    /// The exponent of the lobe of a specular material.
    pub fn phong_exponent<
        F: Fn(Operation, Scalar, Scalar) -> Scalar,
        N: Fn(Vec3) -> Option<Vec3>,
    >(&self, math: &Arithmetic<F, N>) -> (exponent: Option<Scalar>)
        requires
            math.wf(),
        ensures
            exponent == self.phong_exponent_spec(math.model()),
    {
        if self.kind != MaterialKind::SpecularPhong {
            return None;
        }
        let given = pick(
            self.roughness,
            None,
            Scalar { bits: DEFAULT_SPECULAR_ROUGHNESS_BITS },
        );
        let roughness = given.clamp(Scalar::zero(), Scalar::one());
        let effective = roughness.max(Scalar { bits: MIN_EFFECTIVE_ROUGHNESS_BITS });
        let two = Scalar { bits: TWO_BITS };
        let exponent = math.difference(
            math.quotient(two, math.product(effective, effective)),
            two,
        );
        Some(exponent.clamp(Scalar::one(), Scalar { bits: MAX_PHONG_EXPONENT_BITS }))
    }

    /// What the material is, in words.
    pub fn model_description(&self) -> (description: String)
        ensures
            description@ == self.description(),
    {
        match self.kind {
            MaterialKind::Lambertian => "Lambertian diffuse BRDF".to_owned(),
            MaterialKind::SpecularPhong =>
                "normalized Phong reflection lobe around the mirror direction".to_owned(),
        }
    }
}

/// Whether rounding keeps the order of lobes: a larger roughness has no smaller
/// square, a larger square gives no larger quotient, a larger quotient no smaller
/// difference, and the square of the smallest roughness is positive.
pub open spec fn orders_lobes(math: ArithmeticModel) -> bool {
    let least = Scalar { bits: MIN_EFFECTIVE_ROUGHNESS_BITS };
    &&& math.keeps_order()
    &&& math.commutes()
    &&& math.orders_differences()
    &&& math.orders_divisors()
    &&& zero().lt_spec(math.product(least, least))
}

/// Of two roughnesses behind lobes, the larger one has no sharper lobe.
proof fn lemma_sharpness_falls(math: ArithmeticModel, smooth: Scalar, rough: Scalar)
    requires
        orders_lobes(math),
        (Scalar { bits: MIN_EFFECTIVE_ROUGHNESS_BITS }).le_spec(smooth),
        smooth.le_spec(rough),
        rough.le_spec(one()),
    ensures
        lobe_sharpness(math, rough).le_spec(lobe_sharpness(math, smooth)),
{
    let least = Scalar { bits: MIN_EFFECTIVE_ROUGHNESS_BITS };
    let two = Scalar { bits: TWO_BITS };
    assert(math.product(least, least).le_spec(math.product(least, smooth)));
    assert(math.product(least, smooth) == math.product(smooth, least));
    assert(math.product(smooth, least).le_spec(math.product(smooth, smooth)));
    assert(math.product(smooth, smooth).le_spec(math.product(smooth, rough)));
    assert(math.product(smooth, rough) == math.product(rough, smooth));
    assert(math.product(rough, smooth).le_spec(math.product(rough, rough)));
    assert(math.quotient(two, math.product(rough, rough)).le_spec(
        math.quotient(two, math.product(smooth, smooth)),
    ));
}

/// The roughness behind a lobe is never below a thousandth nor above one, so no
/// lobe is infinitely sharp, and the exponent is from one to a million.
pub proof fn lemma_lobe_is_finite(material: ResolvedMaterial, math: ArithmeticModel)
    requires
        finite_roughness(material.roughness),
        material.kind == MaterialKind::SpecularPhong,
        orders_lobes(math),
    ensures
        (Scalar { bits: MIN_EFFECTIVE_ROUGHNESS_BITS }).le_spec(material.effective_roughness()),
        material.effective_roughness().le_spec(one()),
        ({
            let exponent = material.phong_exponent_spec(math).unwrap();
            one().le_spec(exponent) && exponent.le_spec(Scalar { bits: MAX_PHONG_EXPONENT_BITS })
        }),
{
    let roughness = material.effective_roughness();
    lemma_sharpness_falls(math, roughness, roughness);
}

/// A rougher material is never sharper, and no lobe is infinitely sharp.
pub proof fn lemma_rougher_is_never_sharper(
    smooth: ResolvedMaterial,
    rough: ResolvedMaterial,
    math: ArithmeticModel,
)
    requires
        smooth.kind == MaterialKind::SpecularPhong,
        rough.kind == MaterialKind::SpecularPhong,
        smooth.roughness is Some && smooth.roughness.unwrap().is_finite_spec(),
        rough.roughness is Some && rough.roughness.unwrap().is_finite_spec(),
        smooth.roughness.unwrap().le_spec(rough.roughness.unwrap()),
        orders_lobes(math),
    ensures
        ({
            let sharp = smooth.phong_exponent_spec(math).unwrap();
            let dull = rough.phong_exponent_spec(math).unwrap();
            &&& one().le_spec(dull)
            &&& dull.le_spec(sharp)
            &&& sharp.le_spec(Scalar { bits: MAX_PHONG_EXPONENT_BITS })
        }),
{
    lemma_sharpness_falls(math, smooth.effective_roughness(), rough.effective_roughness());
}

/// Only specular materials have a lobe.  A roughness outside the range from zero
/// to one gives the lobe of the nearest one inside, and a missing one that of the
/// default.
pub proof fn lemma_lobe_follows_clamped_roughness(
    material: ResolvedMaterial,
    roughness: Scalar,
    math: ArithmeticModel,
)
    requires
        roughness.is_finite_spec(),
    ensures
        material.kind == MaterialKind::Lambertian ==> material.phong_exponent_spec(math) is None,
        (ResolvedMaterial { roughness: Some(roughness), ..material }).phong_exponent_spec(math) == (
        ResolvedMaterial {
            roughness: Some(roughness.clamp_spec(zero(), one())),
            ..material
        }).phong_exponent_spec(math),
        (ResolvedMaterial { roughness: None, ..material }).phong_exponent_spec(math) == (
        ResolvedMaterial {
            roughness: Some(Scalar { bits: DEFAULT_SPECULAR_ROUGHNESS_BITS }),
            ..material
        }).phong_exponent_spec(math),
{
}

/// The product of two numbers.
pub(crate) fn product(a: u32, b: u32) -> (product: u64)
    ensures
        product == a * b,
{
    assert(a * b <= 0xffff_ffff * 0xffff_ffff) by (nonlinear_arith)
        requires
            a <= 0xffff_ffff,
            b <= 0xffff_ffff,
    ;
    a as u64 * b as u64
}

impl ResolvedBakeConfig {
    /// Columns of a camera tile.
    pub open spec fn tile_columns(self) -> u32 {
        match self.mode {
            BakeMode::Isotropic => 1,
            _ => self.width,
        }
    }

    /// Columns of the grid of light directions.
    pub open spec fn light_columns(self) -> u32 {
        match self.mode {
            BakeMode::Single => 1,
            _ => self.light_width,
        }
    }

    /// Rows of the grid of light directions.
    pub open spec fn light_rows(self) -> u32 {
        match self.mode {
            BakeMode::Single => 1,
            _ => self.light_height,
        }
    }

    /// Columns of the atlas.
    pub open spec fn atlas_columns(self) -> int {
        self.tile_columns() * self.light_columns()
    }

    /// Rows of the atlas.
    pub open spec fn atlas_rows(self) -> int {
        self.height * self.light_rows()
    }

    /// Number of light directions.
    pub open spec fn lights(self) -> int {
        self.light_columns() * self.light_rows()
    }

    /// Whether the sizes of the atlas and the number of lights fit.
    pub open spec fn sizes_fit(self) -> bool {
        &&& self.atlas_columns() <= u32::MAX
        &&& self.atlas_rows() <= u32::MAX
        &&& self.lights() <= u32::MAX
    }

    /// The direction toward the light of a tile.
    pub open spec fn tile_light(
        self,
        light_x: int,
        light_y: int,
        direction: spec_fn(TexelCenter) -> Vec3,
    ) -> Vec3 {
        if self.mode == BakeMode::Single {
            self.light
        } else {
            direction(
                TexelCenter::of(
                    light_x,
                    light_y,
                    self.light_columns() as int,
                    self.light_rows() as int,
                ),
            )
        }
    }

    /// The settings for one tile.
    pub open spec fn tile_config(
        self,
        light_x: int,
        light_y: int,
        direction: spec_fn(TexelCenter) -> Vec3,
    ) -> ResolvedBakeConfig {
        ResolvedBakeConfig {
            width: self.tile_columns(),
            light: self.tile_light(light_x, light_y, direction),
            mode: BakeMode::Single,
            light_width: 1,
            light_height: 1,
            ..self
        }
    }

    pub fn camera_tile_width(&self) -> (width: u32)
        ensures
            width == self.tile_columns(),
    {
        match self.mode {
            BakeMode::Isotropic => 1,
            BakeMode::Single | BakeMode::Full => self.width,
        }
    }

    pub fn camera_tile_height(&self) -> (height: u32)
        ensures
            height == self.height,
    {
        self.height
    }

    pub fn atlas_width(&self) -> (width: u32)
        requires
            self.atlas_columns() <= u32::MAX,
        ensures
            width == self.atlas_columns(),
    {
        self.camera_tile_width() * self.effective_light_width()
    }

    pub fn atlas_height(&self) -> (height: u32)
        requires
            self.atlas_rows() <= u32::MAX,
        ensures
            height == self.atlas_rows(),
    {
        self.camera_tile_height() * self.effective_light_height()
    }

    pub fn effective_light_width(&self) -> (width: u32)
        ensures
            width == self.light_columns(),
    {
        match self.mode {
            BakeMode::Single => 1,
            BakeMode::Full | BakeMode::Isotropic => self.light_width,
        }
    }

    pub fn effective_light_height(&self) -> (height: u32)
        ensures
            height == self.light_rows(),
    {
        match self.mode {
            BakeMode::Single => 1,
            BakeMode::Full | BakeMode::Isotropic => self.light_height,
        }
    }

    pub fn light_count(&self) -> (count: u32)
        requires
            self.lights() <= u32::MAX,
        ensures
            count == self.lights(),
    {
        self.effective_light_width() * self.effective_light_height()
    }

    /// The direction toward the light of a tile: the one that is set in single
    /// mode, else that of the texel of the light grid.
    pub fn light_direction_for_tile<
        F: Fn(Operation, Scalar, Scalar) -> Scalar,
        N: Fn(Vec3) -> Option<Vec3>,
        S: Fn(Scalar) -> Scalar,
        C: Fn(Scalar) -> Scalar,
    >(
        &self,
        light_x: u32,
        light_y: u32,
        math: &LatlongMath<F, N, S, C>,
    ) -> (light: Vec3)
        requires
            math.wf(),
        ensures
            light == self.tile_light(light_x as int, light_y as int, math.model().directions()),
    {
        if self.mode == BakeMode::Single {
            return self.light;
        }
        hemisphere_latlong_direction(
            light_x,
            light_y,
            self.effective_light_width(),
            self.effective_light_height(),
            math,
        )
    }

    /// The settings for a single bake of one tile.
    pub fn config_for_tile<
        F: Fn(Operation, Scalar, Scalar) -> Scalar,
        N: Fn(Vec3) -> Option<Vec3>,
        S: Fn(Scalar) -> Scalar,
        C: Fn(Scalar) -> Scalar,
    >(
        &self,
        light_x: u32,
        light_y: u32,
        math: &LatlongMath<F, N, S, C>,
    ) -> (config: ResolvedBakeConfig)
        requires
            math.wf(),
        ensures
            config == self.tile_config(light_x as int, light_y as int, math.model().directions()),
    {
        ResolvedBakeConfig {
            obj: self.obj.clone(),
            width: self.camera_tile_width(),
            height: self.camera_tile_height(),
            mode: BakeMode::Single,
            light_width: 1,
            light_height: 1,
            samples: self.samples,
            tile_width_override: self.tile_width_override,
            tile_depth_override: self.tile_depth_override,
            light: self.light_direction_for_tile(light_x, light_y, math),
            max_repeat_radius: self.max_repeat_radius,
            sampler: self.sampler,
            enable_shadows: self.enable_shadows,
            material: self.material,
        }
    }

    /// Whether the sizes of the atlas and the number of lights fit.
    pub fn check_sizes(&self) -> (fit: bool)
        ensures
            fit == self.sizes_fit(),
    {
        let columns: u64 = product(self.camera_tile_width(), self.effective_light_width());
        let rows: u64 = product(self.camera_tile_height(), self.effective_light_height());
        let lights: u64 = product(self.effective_light_width(), self.effective_light_height());
        columns <= u32::MAX as u64 && rows <= u32::MAX as u64 && lights <= u32::MAX as u64
    }
}

/// The size of the atlas in each mode: one camera tile for a single light; a
/// grid of camera tiles over the light grid in full mode; tiles one column wide
/// in isotropic mode.
pub proof fn lemma_atlas_size_follows_mode(config: ResolvedBakeConfig)
    ensures
        config.mode == BakeMode::Single ==> config.atlas_columns() == config.width
            && config.atlas_rows() == config.height && config.lights() == 1,
        config.mode == BakeMode::Full ==> config.atlas_columns() == config.width
            * config.light_width && config.atlas_rows() == config.height * config.light_height,
        config.mode == BakeMode::Isotropic ==> config.atlas_columns() == config.light_width
            && config.atlas_rows() == config.height * config.light_height,
{
    assert(config.width * 1 == config.width && config.height * 1 == config.height && 1
        * config.light_width == config.light_width) by (nonlinear_arith);
}

/// The settings for one tile are a single bake of the size of a camera tile,
/// and taking them once more changes nothing.
pub proof fn lemma_tile_settings_are_single(
    config: ResolvedBakeConfig,
    light_x: int,
    light_y: int,
    direction: spec_fn(TexelCenter) -> Vec3,
)
    ensures
        ({
            let tile = config.tile_config(light_x, light_y, direction);
            &&& tile.mode == BakeMode::Single
            &&& tile.atlas_columns() == config.tile_columns()
            &&& tile.atlas_rows() == config.height
            &&& tile.lights() == 1
            &&& tile.tile_config(0, 0, direction) == tile
        }),
{
}

/// The first of three that is there: an override, what the file says, the default.
pub open spec fn first_given<T>(over: Option<T>, file: Option<T>, default: T) -> T {
    match (over, file) {
        (Some(value), _) => value,
        (None, Some(value)) => value,
        (None, None) => default,
    }
}

/// Whether `result` is what an override says, else what the file says, else the
/// default.
pub open spec fn is_chosen<T>(result: T, over: Option<T>, file: Option<T>, default: T) -> bool {
    &&& over is Some ==> result == over.unwrap()
    &&& over is None && file is Some ==> result == file.unwrap()
    &&& over is None && file is None ==> result == default
}

/// Each setting of a bake is what the overrides say; where they say nothing, what
/// the file says; and where that says nothing, the default.  The light is scaled to
/// unit length, and the mesh file is the one that was located.
pub proof fn lemma_settings_are_what_was_asked_for(
    file: BakeConfigFile,
    overrides: BakeOverrides,
    located: Option<PathBuf>,
    normalize: spec_fn(Vec3) -> Option<Vec3>,
)
    requires
        resolve_spec(file, overrides, located, normalize) is Ok,
    ensures
        ({
            let config = resolve_spec(file, overrides, located, normalize).unwrap();
            let down = Vec3 {
                x: Scalar { bits: 0 },
                y: Scalar { bits: 0x3f80_0000 },
                z: Scalar { bits: 0xbf80_0000 },
            };
            &&& located == Some(config.obj)
            &&& is_chosen(config.width, overrides.width, file.width, 256)
            &&& is_chosen(config.height, overrides.height, file.height, 64)
            &&& is_chosen(config.mode, overrides.mode, file.mode, BakeMode::Single)
            &&& is_chosen(config.light_width, overrides.light_width, file.light_width, 8)
            &&& is_chosen(config.light_height, overrides.light_height, file.light_height, 4)
            &&& is_chosen(config.samples, overrides.samples, file.samples, 64)
            &&& is_chosen(
                config.max_repeat_radius,
                overrides.max_repeat_radius,
                file.max_repeat_radius,
                2,
            )
            &&& is_chosen(config.sampler, overrides.sampler, file.sampler, SamplerKind::Halton)
            &&& is_chosen(
                config.enable_shadows,
                overrides.enable_shadows,
                file.enable_shadows,
                true,
            )
            &&& config.tile_width_override == if overrides.tile_width is Some {
                overrides.tile_width
            } else {
                file.tile_width
            }
            &&& config.tile_depth_override == if overrides.tile_depth is Some {
                overrides.tile_depth
            } else {
                file.tile_depth
            }
            &&& normalize(first_given(overrides.light, file.light, down)) == Some(config.light)
        }),
{
}

/// The material of a bake is what the overrides say of it, else what the file says,
/// else white and Lambertian.  A Lambertian material has no roughness; a specular
/// one has the one that is asked for, as far as that is from zero to one, the nearer
/// end of that range else, and one twentieth where none is asked for.
pub proof fn lemma_material_is_what_was_asked_for(
    file: MaterialConfigFile,
    overrides: BakeOverrides,
)
    requires
        resolve_material_spec(file, overrides) is Ok,
    ensures
        ({
            let material = resolve_material_spec(file, overrides).unwrap();
            let white = Vec3 {
                x: Scalar { bits: 0x3f80_0000 },
                y: Scalar { bits: 0x3f80_0000 },
                z: Scalar { bits: 0x3f80_0000 },
            };
            let asked = first_given(
                overrides.material_roughness,
                file.roughness,
                Scalar { bits: 0x3d4c_cccd },
            );
            &&& is_chosen(
                material.kind,
                overrides.material_kind,
                file.kind,
                MaterialKind::Lambertian,
            )
            &&& is_chosen(material.color, overrides.material_color, file.color, white)
            &&& material.kind == MaterialKind::Lambertian ==> material.roughness is None
            &&& material.kind == MaterialKind::SpecularPhong ==> {
                let kept = material.roughness.unwrap();
                &&& material.roughness is Some
                &&& 0 <= asked.rank() <= 0x3f80_0000 ==> kept == asked
                &&& asked.rank() < 0 ==> kept.bits == 0
                &&& asked.rank() > 0x3f80_0000 ==> kept.bits == 0x3f80_0000
            }
        }),
{
}

/// The material that is resolved is the one of the settings.
pub proof fn lemma_settings_have_their_material(
    file: BakeConfigFile,
    overrides: BakeOverrides,
    located: Option<PathBuf>,
    normalize: spec_fn(Vec3) -> Option<Vec3>,
)
    requires
        resolve_spec(file, overrides, located, normalize) is Ok,
    ensures
        resolve_material_spec(file.material, overrides) == Ok::<ResolvedMaterial, ConfigError>(
            resolve_spec(file, overrides, located, normalize).unwrap().material,
        ),
{
}

/// Whether a number is finite, by the bits of its exponent.
pub open spec fn has_finite_bits(number: Scalar) -> bool {
    number.bits < 0x7f80_0000 || 0x8000_0000 <= number.bits < 0xff80_0000
}

/// Whether a material is refused: a color with a component that is negative or not
/// finite, or a roughness that is not finite.
pub open spec fn asks_for_bad_color(file: MaterialConfigFile, overrides: BakeOverrides) -> bool {
    let white = Vec3 {
        x: Scalar { bits: 0x3f80_0000 },
        y: Scalar { bits: 0x3f80_0000 },
        z: Scalar { bits: 0x3f80_0000 },
    };
    let color = first_given(overrides.material_color, file.color, white);
    let bad = |c: Scalar| !has_finite_bits(c) || c.rank() < 0;
    bad(color.x) || bad(color.y) || bad(color.z)
}

/// Whether a roughness is asked for that is not finite.
pub open spec fn asks_for_bad_roughness(
    file: MaterialConfigFile,
    overrides: BakeOverrides,
) -> bool {
    let asked = first_given(
        overrides.material_roughness,
        file.roughness,
        Scalar { bits: 0x3d4c_cccd },
    );
    !has_finite_bits(asked)
}

/// Whether a size of a tile is asked for that is not finite or not above zero.
pub open spec fn asks_for_bad_size(over: Option<Scalar>, file: Option<Scalar>) -> bool {
    let asked = first_given(over, file, Scalar { bits: 0x3f80_0000 });
    !has_finite_bits(asked) || asked.rank() <= 0
}

/// Settings are refused exactly where one of them is out of range, and for the
/// first reason in this order: a color with a component that is negative or not
/// finite; a roughness that is not finite; no mesh file; an image or a grid of
/// lights without columns or rows; no samples; a tile of no size; a light that has
/// no direction or lies too low; copies of the tile too far out.
pub proof fn lemma_settings_are_refused_for_a_reason(
    file: BakeConfigFile,
    overrides: BakeOverrides,
    located: Option<PathBuf>,
    normalize: spec_fn(Vec3) -> Option<Vec3>,
)
    ensures
        ({
            let resolved = resolve_spec(file, overrides, located, normalize);
            let down = Vec3 {
                x: Scalar { bits: 0 },
                y: Scalar { bits: 0x3f80_0000 },
                z: Scalar { bits: 0xbf80_0000 },
            };
            let light = normalize(first_given(overrides.light, file.light, down));
            let bad_color = asks_for_bad_color(file.material, overrides);
            let bad_roughness = asks_for_bad_roughness(file.material, overrides);
            let no_mesh = located is None;
            let no_pixels = first_given(overrides.width, file.width, 256) == 0 || first_given(
                overrides.height,
                file.height,
                64,
            ) == 0 || first_given(overrides.light_width, file.light_width, 8) == 0 || first_given(
                overrides.light_height,
                file.light_height,
                4,
            ) == 0;
            let no_samples = first_given(overrides.samples, file.samples, 64) == 0;
            let bad_tile = asks_for_bad_size(overrides.tile_width, file.tile_width)
                || asks_for_bad_size(overrides.tile_depth, file.tile_depth);
            let bad_light = light is None || light.unwrap().y.is_nan_spec()
                || light.unwrap().y.rank() <= 0x38d1_b717;
            let bad_radius = first_given(overrides.max_repeat_radius, file.max_repeat_radius, 2)
                > 16;
            let refused = |error: ConfigError| resolved == Err::<
                ResolvedBakeConfig,
                ConfigError,
            >(error);
            &&& resolved is Ok <==> !bad_color && !bad_roughness && !no_mesh && !no_pixels
                && !no_samples && !bad_tile && !bad_light && !bad_radius
            &&& refused(ConfigError::InvalidMaterialColor) <==> bad_color
            &&& refused(ConfigError::InvalidMaterialRoughness) <==> bad_roughness && !bad_color
            &&& refused(ConfigError::MissingObj) <==> no_mesh && !bad_color && !bad_roughness
            &&& refused(ConfigError::InvalidResolution) <==> no_pixels && !bad_color
                && !bad_roughness && !no_mesh
            &&& refused(ConfigError::InvalidSamples) <==> no_samples && !bad_color
                && !bad_roughness && !no_mesh && !no_pixels
            &&& refused(ConfigError::InvalidTileOverride) <==> bad_tile && !bad_color
                && !bad_roughness && !no_mesh && !no_pixels && !no_samples
            &&& refused(ConfigError::InvalidLight) <==> bad_light && !bad_color && !bad_roughness
                && !no_mesh && !no_pixels && !no_samples && !bad_tile
            &&& refused(ConfigError::InvalidMaxRepeatRadius) <==> bad_radius && !bad_color
                && !bad_roughness && !no_mesh && !no_pixels && !no_samples && !bad_tile
                && !bad_light
        }),
{
}

/// The words for modes, trimmed and in lower case: each stands for one mode and
/// other words for none.
pub proof fn lemma_words_for_modes(text: Seq<char>)
    ensures
        ({
            let word = ascii_lower_text(trim_spec(text));
            &&& BakeMode::named(text) == Some(BakeMode::Single) <==> (word == "single"@ || word
                == "fixed"@ || word == "fixed_light"@ || word == "fixed-light"@)
            &&& BakeMode::named(text) == Some(BakeMode::Full) <==> (word == "full"@ || word
                == "anisotropic"@ || word == "4d"@)
            &&& BakeMode::named(text) == Some(BakeMode::Isotropic) <==> (word == "isotropic"@
                || word == "iso"@)
        }),
{
    reveal_strlit("single");
    reveal_strlit("fixed");
    reveal_strlit("fixed_light");
    reveal_strlit("fixed-light");
    reveal_strlit("full");
    reveal_strlit("anisotropic");
    reveal_strlit("4d");
    reveal_strlit("isotropic");
    reveal_strlit("iso");
    assert("single"@.len() == 6 && "single"@[0] == 's');
    assert("fixed"@.len() == 5 && "fixed"@[0] == 'f');
    assert("fixed_light"@.len() == 11 && "fixed_light"@[0] == 'f');
    assert("fixed-light"@.len() == 11 && "fixed-light"@[0] == 'f');
    assert("full"@.len() == 4 && "full"@[0] == 'f');
    assert("anisotropic"@.len() == 11 && "anisotropic"@[0] == 'a');
    assert("4d"@.len() == 2 && "4d"@[0] == '4');
    assert("isotropic"@.len() == 9 && "isotropic"@[0] == 'i');
    assert("iso"@.len() == 3 && "iso"@[0] == 'i');
}

/// The words for samplers, trimmed and in lower case: each stands for one sampler
/// and other words for none.
pub proof fn lemma_words_for_samplers(text: Seq<char>)
    ensures
        ({
            let word = ascii_lower_text(trim_spec(text));
            &&& SamplerKind::named(text) == Some(SamplerKind::Halton) <==> (word == "halton"@
                || word == "qmc"@ || word == "low_discrepancy"@ || word == "low-discrepancy"@)
            &&& SamplerKind::named(text) == Some(SamplerKind::Random) <==> (word == "random"@
                || word == "hashed"@ || word == "hash"@)
        }),
{
    reveal_strlit("halton");
    reveal_strlit("qmc");
    reveal_strlit("low_discrepancy");
    reveal_strlit("low-discrepancy");
    reveal_strlit("random");
    reveal_strlit("hashed");
    reveal_strlit("hash");
    assert("halton"@.len() == 6 && "halton"@[0] == 'h');
    assert("qmc"@.len() == 3 && "qmc"@[0] == 'q');
    assert("low_discrepancy"@.len() == 15 && "low_discrepancy"@[0] == 'l');
    assert("low-discrepancy"@.len() == 15 && "low-discrepancy"@[0] == 'l');
    assert("random"@.len() == 6 && "random"@[0] == 'r');
    assert("hashed"@.len() == 6 && "hashed"@[0] == 'h');
    assert("hash"@.len() == 4 && "hash"@[0] == 'h');
    assert("halton"@[2] == 'l' && "hashed"@[2] == 's');
}

/// The words for materials, trimmed and in lower case: each stands for one kind and
/// other words for none.
pub proof fn lemma_words_for_materials(text: Seq<char>)
    ensures
        ({
            let word = ascii_lower_text(trim_spec(text));
            &&& MaterialKind::named(text) == Some(MaterialKind::Lambertian) <==> (word
                == "lambertian"@ || word == "diffuse"@)
            &&& MaterialKind::named(text) == Some(MaterialKind::SpecularPhong) <==> (word
                == "specular"@ || word == "specular_phong"@ || word == "specular-phong"@ || word
                == "phong"@)
        }),
{
    reveal_strlit("lambertian");
    reveal_strlit("diffuse");
    reveal_strlit("specular");
    reveal_strlit("specular_phong");
    reveal_strlit("specular-phong");
    reveal_strlit("phong");
    assert("lambertian"@.len() == 10 && "lambertian"@[0] == 'l');
    assert("diffuse"@.len() == 7 && "diffuse"@[0] == 'd');
    assert("specular"@.len() == 8 && "specular"@[0] == 's');
    assert("specular_phong"@.len() == 14 && "specular_phong"@[0] == 's');
    assert("specular-phong"@.len() == 14 && "specular-phong"@[0] == 's');
    assert("phong"@.len() == 5 && "phong"@[0] == 'p');
}

/// A tile of an atlas is baked with the settings of the atlas, except for its size
/// and its light: it is as high as the settings say and as wide, or one column wide
/// where azimuths are left out, and a single light lights it.
pub proof fn lemma_tiles_keep_the_settings(
    config: ResolvedBakeConfig,
    light_x: int,
    light_y: int,
    direction: spec_fn(TexelCenter) -> Vec3,
)
    ensures
        ({
            let tile = config.tile_config(light_x, light_y, direction);
            &&& tile.obj == config.obj
            &&& tile.height == config.height
            &&& tile.samples == config.samples
            &&& tile.max_repeat_radius == config.max_repeat_radius
            &&& tile.sampler == config.sampler
            &&& tile.enable_shadows == config.enable_shadows
            &&& tile.material == config.material
            &&& tile.tile_width_override == config.tile_width_override
            &&& tile.tile_depth_override == config.tile_depth_override
            &&& tile.mode == BakeMode::Single
            &&& tile.light_width == 1 && tile.light_height == 1
            &&& config.mode == BakeMode::Isotropic ==> tile.width == 1
            &&& config.mode != BakeMode::Isotropic ==> tile.width == config.width
            &&& config.mode == BakeMode::Single ==> tile.light == config.light
            &&& config.mode != BakeMode::Single ==> tile.light == direction(
                TexelCenter {
                    u_num: (2 * light_x + 1) as u64,
                    u_den: (2 * config.light_width) as u64,
                    v_num: (2 * light_y + 1) as u64,
                    v_den: (2 * config.light_height) as u64,
                },
            )
        }),
{
}

/// How many tiles there are in each mode, and how large they are.
pub proof fn lemma_tiles_follow_mode(config: ResolvedBakeConfig)
    ensures
        config.mode == BakeMode::Single ==> config.tile_columns() == config.width
            && config.light_columns() == 1 && config.light_rows() == 1 && config.lights() == 1,
        config.mode == BakeMode::Full ==> config.tile_columns() == config.width
            && config.light_columns() == config.light_width && config.light_rows()
            == config.light_height && config.lights() == config.light_width * config.light_height,
        config.mode == BakeMode::Isotropic ==> config.tile_columns() == 1
            && config.light_columns() == config.light_width && config.light_rows()
            == config.light_height && config.lights() == config.light_width * config.light_height,
        config.sizes_fit() <==> config.tile_columns() * config.light_columns() <= 0xffff_ffff
            && config.height * config.light_rows() <= 0xffff_ffff && config.light_columns()
            * config.light_rows() <= 0xffff_ffff,
{
}

/// The lobe of a material: none for a Lambertian one; for a specular one, with its
/// roughness, or one twentieth where it has none, moved into the range from a
/// thousandth to one, twice the reciprocal of the square less two, moved into the
/// range from one to a million.
pub proof fn lemma_lobe_comes_from_roughness(material: ResolvedMaterial, math: ArithmeticModel)
    requires
        finite_roughness(material.roughness),
    ensures
        material.kind == MaterialKind::Lambertian ==> material.phong_exponent_spec(math) is None,
        material.kind == MaterialKind::SpecularPhong ==> {
            let given = match material.roughness {
                Some(roughness) => roughness,
                None => Scalar { bits: 0x3d4c_cccd },
            };
            let used = if given.rank() < 0x3a83_126f {
                Scalar { bits: 0x3a83_126f }
            } else if given.rank() > 0x3f80_0000 {
                Scalar { bits: 0x3f80_0000 }
            } else {
                given
            };
            let two = Scalar { bits: 0x4000_0000 };
            let square = (math.compute)(Operation::Product, used, used);
            let sharp = (math.compute)(
                Operation::Difference,
                (math.compute)(Operation::Quotient, two, square),
                two,
            );
            let exponent = material.phong_exponent_spec(math);
            &&& exponent is Some
            &&& !sharp.is_nan_spec() && sharp.rank() < 0x3f80_0000 ==> exponent.unwrap().bits
                == 0x3f80_0000
            &&& !sharp.is_nan_spec() && sharp.rank() > 0x4974_2400 ==> exponent.unwrap().bits
                == 0x4974_2400
            &&& !sharp.is_nan_spec() && 0x3f80_0000 <= sharp.rank() <= 0x4974_2400
                ==> exponent.unwrap() == sharp
        },
{
}

/// What is said of each reason for which settings are refused.
pub proof fn lemma_messages_name_the_reason(error: ConfigError)
    ensures
        error == ConfigError::MissingObj <==> error.message_spec()
            == "missing required OBJ path; set `obj` in the config or pass --obj"@,
        error == ConfigError::InvalidResolution <==> error.message_spec()
            == "width and height must both be greater than zero"@,
        error == ConfigError::InvalidSamples <==> error.message_spec()
            == "samples must be greater than zero"@,
        error == ConfigError::InvalidTileOverride <==> error.message_spec()
            == "tile width and depth overrides must be finite and greater than zero"@,
        error == ConfigError::InvalidLight <==> error.message_spec()
            == "light direction must be finite, non-zero, and above the +Y macro plane"@,
        error == ConfigError::InvalidMaxRepeatRadius <==> error.message_spec()
            == "max_repeat_radius must be in the 0..=16 range"@,
        error == ConfigError::InvalidMaterialColor <==> error.message_spec()
            == "material color must contain finite non-negative values"@,
        error == ConfigError::InvalidMaterialRoughness <==> error.message_spec()
            == "material roughness must be finite and in the 0..=1 range"@,
{
    reveal_strlit("missing required OBJ path; set `obj` in the config or pass --obj");
    reveal_strlit("width and height must both be greater than zero");
    reveal_strlit("samples must be greater than zero");
    reveal_strlit("tile width and depth overrides must be finite and greater than zero");
    reveal_strlit("light direction must be finite, non-zero, and above the +Y macro plane");
    reveal_strlit("max_repeat_radius must be in the 0..=16 range");
    reveal_strlit("material color must contain finite non-negative values");
    reveal_strlit("material roughness must be finite and in the 0..=1 range");
    assert("missing required OBJ path; set `obj` in the config or pass --obj"@[1] == 'i');
    assert("width and height must both be greater than zero"@[0] == 'w');
    assert("samples must be greater than zero"@[0] == 's');
    assert("tile width and depth overrides must be finite and greater than zero"@[0] == 't');
    assert("light direction must be finite, non-zero, and above the +Y macro plane"@[0] == 'l');
    assert("max_repeat_radius must be in the 0..=16 range"@[2] == 'x');
    assert("max_repeat_radius must be in the 0..=16 range"@[0] == 'm');
    assert("missing required OBJ path; set `obj` in the config or pass --obj"@[0] == 'm');
    assert("max_repeat_radius must be in the 0..=16 range"@[1] == 'a');
    assert("material color must contain finite non-negative values"@[0] == 'm');
    assert("material color must contain finite non-negative values"@[1] == 'a');
    assert("material color must contain finite non-negative values"@[2] == 't');
    assert("material color must contain finite non-negative values"@[9] == 'c');
    assert("material roughness must be finite and in the 0..=1 range"@[0] == 'm');
    assert("material roughness must be finite and in the 0..=1 range"@[1] == 'a');
    assert("material roughness must be finite and in the 0..=1 range"@[2] == 't');
    assert("material roughness must be finite and in the 0..=1 range"@[9] == 'r');
}

/// What is said of each kind of material.
pub proof fn lemma_descriptions_tell_the_material(material: ResolvedMaterial)
    ensures
        material.kind == MaterialKind::Lambertian ==> material.description()
            == "Lambertian diffuse BRDF"@,
        material.kind == MaterialKind::SpecularPhong ==> material.description()
            == "normalized Phong reflection lobe around the mirror direction"@,
{
}

} // verus!

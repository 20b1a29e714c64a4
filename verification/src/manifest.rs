//! The record of a bake that is written beside its image.

use crate::arithmetic::{Arithmetic, ArithmeticModel, Operation};
use crate::config::{
    BakeMode, MaterialKind, ResolvedBakeConfig, ResolvedMaterial, SamplerKind,
};
use crate::geometry::Mesh;
use crate::math::Vec3;
use crate::sampling::TexelCenter;
use crate::scalar::{Scalar, ONE_BITS, ZERO_BITS};
use std::path::PathBuf;
use vstd::prelude::*;

verus! {

#[derive(Debug, PartialEq, Eq)]
pub struct ToolInfo {
    pub name: String,
    pub version: String,
}

#[derive(Debug, PartialEq)]
pub struct InputInfo {
    pub obj: PathBuf,
    pub triangle_count: usize,
    pub color_source: String,
    pub height_offset_to_zero: Scalar,
    pub tile_min: (Scalar, Scalar),
    pub tile_size: (Scalar, Scalar),
    pub bounds_min: Vec3,
    pub bounds_max: Vec3,
    pub original_bounds_min: Vec3,
    pub original_bounds_max: Vec3,
}

#[derive(Debug, PartialEq, Eq)]
pub struct OutputInfo {
    pub image: String,
    pub format: String,
    pub channels: String,
    pub width: u32,
    pub height: u32,
    pub tile_width: u32,
    pub tile_height: u32,
}

#[derive(Debug, PartialEq)]
pub struct ConventionInfo {
    pub coordinate_system: String,
    pub macro_normal: Vec3,
    pub normal_shading: String,
    pub pano_domain: String,
    pub pano_center: Vec3,
    pub azimuth_positive_toward: Vec3,
    pub row_order: String,
    pub normalization: String,
}

#[derive(Debug, PartialEq)]
pub struct MaterialInfo {
    pub kind: MaterialKind,
    pub color: Vec3,
    pub roughness: Option<Scalar>,
    pub phong_exponent: Option<Scalar>,
    pub model: String,
}

#[derive(Debug, PartialEq)]
pub struct BakeInfo {
    pub mode: BakeMode,
    pub samples_per_direction: u32,
    pub max_repeat_radius: u32,
    pub camera_width: u32,
    pub camera_height: u32,
    pub light_width: u32,
    pub light_height: u32,
    pub light_count: u32,
    pub sampler: SamplerKind,
    pub enable_shadows: bool,
    pub light_direction_surface_to_light: Vec3,
    pub material: MaterialInfo,
    pub transport: String,
}

#[derive(Debug, PartialEq)]
pub struct Manifest {
    pub tool: ToolInfo,
    pub input: InputInfo,
    pub output: OutputInfo,
    pub convention: ConventionInfo,
    pub bake: BakeInfo,
}

impl InputInfo {
    /// The record of the mesh that was baked.
    pub open spec fn describes(self, config: ResolvedBakeConfig, mesh: Mesh) -> bool {
        &&& self.obj == config.obj
        &&& self.triangle_count == mesh.triangles@.len()
        &&& self.color_source@ == mesh.color_source.name()
        &&& self.height_offset_to_zero == mesh.y_offset_to_zero
        &&& self.tile_min == (mesh.tile_min_x, mesh.tile_min_z)
        &&& self.tile_size == (mesh.tile_width, mesh.tile_depth)
        &&& self.bounds_min == mesh.bounds.min
        &&& self.bounds_max == mesh.bounds.max
        &&& self.original_bounds_min == mesh.original_bounds.min
        &&& self.original_bounds_max == mesh.original_bounds.max
    }
}

impl OutputInfo {
    /// The record of the image.
    pub open spec fn describes(self, config: ResolvedBakeConfig) -> bool {
        &&& self.image@ == "xbrdf_view.exr"@
        &&& self.format@ == "OpenEXR"@
        &&& self.channels@ == "RGB f32"@
        &&& self.width == config.atlas_columns()
        &&& self.height == config.atlas_rows()
        &&& self.tile_width == config.tile_columns()
        &&& self.tile_height == config.height
    }
}

impl ConventionInfo {
    /// The record of the conventions.
    pub open spec fn is_standard(self) -> bool {
        let zero = Scalar { bits: ZERO_BITS };
        let one = Scalar { bits: ONE_BITS };
        &&& self.coordinate_system@ == "Houdini Y-up, sample tile in XZ"@
        &&& self.macro_normal == (Vec3 { x: zero, y: one, z: zero })
        &&& self.normal_shading@
            == "faceted geometric triangle normals; OBJ vertex normals and smoothing groups are ignored"@
        &&& self.pano_domain@ == "upper hemisphere only"@
        &&& self.pano_center == (Vec3 { x: zero, y: zero, z: one })
        &&& self.azimuth_positive_toward == (Vec3 { x: one, y: zero, z: zero })
        &&& self.row_order@ == "top row is zenith, bottom row approaches horizon"@
        &&& self.normalization@
            == "direct outgoing radiance divided by dot(+Y, light_direction_surface_to_light)"@
    }

    fn standard() -> (convention: ConventionInfo)
        ensures
            convention.is_standard(),
    {
        let zero = Scalar::zero();
        let one = Scalar::one();
        ConventionInfo {
            coordinate_system: "Houdini Y-up, sample tile in XZ".to_owned(),
            macro_normal: Vec3 { x: zero, y: one, z: zero },
            normal_shading:
                "faceted geometric triangle normals; OBJ vertex normals and smoothing groups are ignored".to_owned(),
            pano_domain: "upper hemisphere only".to_owned(),
            pano_center: Vec3 { x: zero, y: zero, z: one },
            azimuth_positive_toward: Vec3 { x: one, y: zero, z: zero },
            row_order: "top row is zenith, bottom row approaches horizon".to_owned(),
            normalization:
                "direct outgoing radiance divided by dot(+Y, light_direction_surface_to_light)".to_owned(),
        }
    }
}

impl MaterialInfo {
    /// The record of a material.
    pub open spec fn describes(
        self,
        material: ResolvedMaterial,
        math: ArithmeticModel,
    ) -> bool {
        &&& self.kind == material.kind
        &&& self.color == material.color
        &&& self.roughness == material.roughness
        &&& self.phong_exponent == material.phong_exponent_spec(math)
        &&& self.model@ == material.description()
    }
}

impl BakeInfo {
    /// The record of the settings.
    pub open spec fn describes(
        self,
        config: ResolvedBakeConfig,
        math: ArithmeticModel,
    ) -> bool {
        &&& self.mode == config.mode
        &&& self.samples_per_direction == config.samples
        &&& self.max_repeat_radius == config.max_repeat_radius
        &&& self.camera_width == config.tile_columns()
        &&& self.camera_height == config.height
        &&& self.light_width == config.light_columns()
        &&& self.light_height == config.light_rows()
        &&& self.light_count == config.lights()
        &&& self.sampler == config.sampler
        &&& self.enable_shadows == config.enable_shadows
        &&& self.light_direction_surface_to_light == config.light
        &&& self.material.describes(config.material, math)
        &&& self.transport@ == if config.enable_shadows {
            "direct lighting with visibility and shadow rays"@
        } else {
            "direct lighting with camera visibility only; shadow rays disabled"@
        }
    }
}

impl Manifest {
    /// Records a bake of `mesh` by version `version` of the tool.
    pub fn new<F: Fn(Operation, Scalar, Scalar) -> Scalar, N: Fn(Vec3) -> Option<Vec3>>(
        config: &ResolvedBakeConfig,
        mesh: &Mesh,
        version: &str,
        math: &Arithmetic<F, N>,
    ) -> (manifest: Manifest)
        requires
            config.sizes_fit(),
            math.wf(),
        ensures
            manifest.tool.name@ == "xbrdf-bake"@,
            manifest.tool.version@ == version@,
            manifest.input.describes(*config, *mesh),
            manifest.output.describes(*config),
            manifest.convention.is_standard(),
            manifest.bake.describes(*config, math.model()),
    {
        let transport = if config.enable_shadows {
            "direct lighting with visibility and shadow rays".to_owned()
        } else {
            "direct lighting with camera visibility only; shadow rays disabled".to_owned()
        };
        Manifest {
            tool: ToolInfo { name: "xbrdf-bake".to_owned(), version: version.to_owned() },
            input: InputInfo {
                obj: config.obj.clone(),
                triangle_count: mesh.triangles.len(),
                color_source: mesh.color_source.as_str().to_owned(),
                height_offset_to_zero: mesh.y_offset_to_zero,
                tile_min: (mesh.tile_min_x, mesh.tile_min_z),
                tile_size: (mesh.tile_width, mesh.tile_depth),
                bounds_min: mesh.bounds.min,
                bounds_max: mesh.bounds.max,
                original_bounds_min: mesh.original_bounds.min,
                original_bounds_max: mesh.original_bounds.max,
            },
            output: OutputInfo {
                image: "xbrdf_view.exr".to_owned(),
                format: "OpenEXR".to_owned(),
                channels: "RGB f32".to_owned(),
                width: config.atlas_width(),
                height: config.atlas_height(),
                tile_width: config.camera_tile_width(),
                tile_height: config.camera_tile_height(),
            },
            convention: ConventionInfo::standard(),
            bake: BakeInfo {
                mode: config.mode,
                samples_per_direction: config.samples,
                max_repeat_radius: config.max_repeat_radius,
                camera_width: config.camera_tile_width(),
                camera_height: config.camera_tile_height(),
                light_width: config.effective_light_width(),
                light_height: config.effective_light_height(),
                light_count: config.light_count(),
                sampler: config.sampler,
                enable_shadows: config.enable_shadows,
                light_direction_surface_to_light: config.light,
                material: MaterialInfo {
                    kind: config.material.kind,
                    color: config.material.color,
                    roughness: config.material.roughness,
                    phong_exponent: config.material.phong_exponent(math),
                    model: config.material.model_description(),
                },
                transport,
            },
        }
    }
}

/// The record holds every setting that a bake depends on: settings with the same
/// record bake the same tiles, from the same file and with the same lights,
/// samples and material, into an atlas of the same size.  The overrides for the
/// size of the mesh tile, which no bake reads, are not recorded.
pub proof fn lemma_manifest_reproduces_the_bake(
    manifest: Manifest,
    first: ResolvedBakeConfig,
    second: ResolvedBakeConfig,
    mesh: Mesh,
    math: ArithmeticModel,
    direction: spec_fn(TexelCenter) -> Vec3,
    light_x: int,
    light_y: int,
)
    requires
        manifest.input.describes(first, mesh),
        manifest.input.describes(second, mesh),
        manifest.output.describes(first),
        manifest.output.describes(second),
        manifest.bake.describes(first, math),
        manifest.bake.describes(second, math),
    ensures
        first.atlas_columns() == second.atlas_columns(),
        first.atlas_rows() == second.atlas_rows(),
        first.lights() == second.lights(),
        first.tile_config(light_x, light_y, direction) == (ResolvedBakeConfig {
            tile_width_override: first.tile_width_override,
            tile_depth_override: first.tile_depth_override,
            ..second.tile_config(light_x, light_y, direction)
        }),
{
}

/// What the record of a bake says, number by number: of the mesh its tile in x and in z, its
/// height and its bounds; of the image the sizes of the atlas and of a tile; of the settings
/// those that were baked.
pub proof fn lemma_manifest_says_what_was_baked(
    manifest: Manifest,
    config: ResolvedBakeConfig,
    mesh: Mesh,
    math: ArithmeticModel,
)
    requires
        manifest.input.describes(config, mesh),
        manifest.output.describes(config),
        manifest.convention.is_standard(),
        manifest.bake.describes(config, math),
    ensures
        manifest.input.obj == config.obj,
        manifest.input.triangle_count == mesh.triangles@.len(),
        manifest.input.height_offset_to_zero == mesh.y_offset_to_zero,
        manifest.input.tile_min.0 == mesh.tile_min_x,
        manifest.input.tile_min.1 == mesh.tile_min_z,
        manifest.input.tile_size.0 == mesh.tile_width,
        manifest.input.tile_size.1 == mesh.tile_depth,
        manifest.input.bounds_min == mesh.bounds.min,
        manifest.input.bounds_max == mesh.bounds.max,
        manifest.input.original_bounds_min == mesh.original_bounds.min,
        manifest.input.original_bounds_max == mesh.original_bounds.max,
        manifest.output.width == manifest.output.tile_width * manifest.bake.light_width,
        manifest.output.height == manifest.output.tile_height * manifest.bake.light_height,
        manifest.output.tile_width == manifest.bake.camera_width,
        manifest.output.tile_height == manifest.bake.camera_height,
        manifest.bake.mode == config.mode,
        manifest.bake.samples_per_direction == config.samples,
        manifest.bake.max_repeat_radius == config.max_repeat_radius,
        manifest.bake.camera_height == config.height,
        config.mode == BakeMode::Isotropic ==> manifest.bake.camera_width == 1,
        config.mode != BakeMode::Isotropic ==> manifest.bake.camera_width == config.width,
        config.mode == BakeMode::Single ==> manifest.bake.light_width == 1
            && manifest.bake.light_height == 1,
        config.mode != BakeMode::Single ==> manifest.bake.light_width == config.light_width
            && manifest.bake.light_height == config.light_height,
        manifest.bake.light_count == manifest.bake.light_width * manifest.bake.light_height,
        manifest.bake.sampler == config.sampler,
        manifest.bake.enable_shadows == config.enable_shadows,
        manifest.bake.light_direction_surface_to_light.x == config.light.x,
        manifest.bake.light_direction_surface_to_light.y == config.light.y,
        manifest.bake.light_direction_surface_to_light.z == config.light.z,
        manifest.bake.material.kind == config.material.kind,
        manifest.bake.material.color == config.material.color,
        manifest.bake.material.roughness == config.material.roughness,
        manifest.bake.material.phong_exponent == config.material.phong_exponent_spec(math),
        config.enable_shadows ==> manifest.bake.transport@
            == "direct lighting with visibility and shadow rays"@,
        !config.enable_shadows ==> manifest.bake.transport@
            == "direct lighting with camera visibility only; shadow rays disabled"@,
        manifest.convention.macro_normal.x.bits == 0,
        manifest.convention.macro_normal.y.bits == 0x3f80_0000,
        manifest.convention.macro_normal.z.bits == 0,
        manifest.convention.pano_center.x.bits == 0,
        manifest.convention.pano_center.y.bits == 0,
        manifest.convention.pano_center.z.bits == 0x3f80_0000,
        manifest.convention.azimuth_positive_toward.x.bits == 0x3f80_0000,
        manifest.convention.azimuth_positive_toward.y.bits == 0,
        manifest.convention.azimuth_positive_toward.z.bits == 0,
{
}

} // verus!

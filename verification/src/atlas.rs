//! The layout of a baked atlas and how directions address it.

use crate::arithmetic::{Arithmetic, ArithmeticModel, Operation};
use crate::config::{BakeMode, ResolvedBakeConfig};
use crate::kernel::{function1, function2, image1, image2, model1, model2};
use crate::math::Vec3;
use crate::sampling::{LatlongModel, TexelCenter, QUARTER_TURN_BITS};
use crate::scalar::{Scalar, HALF_BITS, ONE_BITS, TWO_PI_BITS, ZERO_BITS};
use vstd::prelude::*;

verus! {

/// The version of the layout that this library writes and reads.
pub const ARTIFACT_SCHEMA_VERSION: u32 = 1;

/// How an atlas is laid out.
#[derive(Clone, Copy, Debug, PartialEq, Eq, Structural)]
pub struct AtlasMetadata {
    pub schema_version: u32,
    pub mode: BakeMode,
    pub atlas_width: u32,
    pub atlas_height: u32,
    pub camera_width: u32,
    pub camera_height: u32,
    pub light_width: u32,
    pub light_height: u32,
    pub camera_azimuth_wraps: bool,
    pub elevation_clamps: bool,
    pub samples_are_texel_centered: bool,
    pub consumer_applies_macro_cosine: bool,
}

/// The rounding arithmetic behind texel positions: besides the operations on two
/// numbers, `arctangent` is the angle of the point `(b, a)` from the first axis,
/// `arcsine` is the angle with a given sine, and `remainder` is what whole
/// multiples of `b` leave of `a`, not negative.
pub struct AtlasMath<F, N, T, A, R> {
    pub operations: Arithmetic<F, N>,
    pub arctangent: T,
    pub arcsine: A,
    pub remainder: R,
}

/// The arithmetic of an [`AtlasMath`] as mathematical functions.
pub struct AtlasModel {
    pub operations: ArithmeticModel,
    pub arctangent: spec_fn(Scalar, Scalar) -> Scalar,
    pub arcsine: spec_fn(Scalar) -> Scalar,
    pub remainder: spec_fn(Scalar, Scalar) -> Scalar,
}

impl AtlasModel {
    /// The horizontal position of the azimuth of `(x, z)`: half a turn on from it,
    /// in turns.
    pub open spec fn column(self, x: Scalar, z: Scalar) -> Scalar {
        let turns = self.operations.quotient(
            (self.arctangent)(x, z),
            Scalar { bits: TWO_PI_BITS },
        );
        (self.remainder)(
            self.operations.sum(turns, Scalar { bits: HALF_BITS }),
            Scalar { bits: ONE_BITS },
        )
    }

    /// The vertical position of the elevation with the given sine: what it leaves
    /// of a quarter turn, in quarter turns.
    pub open spec fn row(self, sine: Scalar) -> Scalar {
        let quarters = self.operations.quotient(
            (self.arcsine)(sine),
            Scalar { bits: QUARTER_TURN_BITS },
        );
        self.operations.difference(Scalar { bits: ONE_BITS }, quarters)
    }

    /// The position in a grid of `size` cells, counted from the center of the
    /// first one.
    pub open spec fn texel(self, uv: Scalar, size: u32) -> Scalar {
        self.operations.difference(
            self.operations.product(uv, Scalar::of_count_spec(size as nat)),
            Scalar { bits: HALF_BITS },
        )
    }

    /// The position `local` in tile number `index` of tiles of `size` cells.
    pub open spec fn place(self, index: u32, size: u32, local: Scalar) -> Scalar {
        self.operations.sum(
            self.operations.product(
                Scalar::of_count_spec(index as nat),
                Scalar::of_count_spec(size as nat),
            ),
            local,
        )
    }
}

/// The position of a direction in an upper-hemisphere panorama, both ways from
/// zero to one.  There is none for a vector without a direction, nor below the
/// horizon.
pub open spec fn hemisphere_uv_spec(model: AtlasModel, direction: Vec3) -> Option<(Scalar, Scalar)> {
    match (model.operations.normalize)(direction) {
        Some(unit) => if unit.y.lt_spec(Scalar { bits: ZERO_BITS }) {
            None
        } else {
            let sine = unit.y.clamp_spec(Scalar { bits: ZERO_BITS }, Scalar { bits: ONE_BITS });
            Some((model.column(unit.x, unit.z), model.row(sine)))
        },
        None => None,
    }
}

impl AtlasMetadata {
    /// The layout that settings ask for.
    pub open spec fn of_config(config: ResolvedBakeConfig) -> AtlasMetadata {
        AtlasMetadata {
            schema_version: ARTIFACT_SCHEMA_VERSION,
            mode: config.mode,
            atlas_width: config.atlas_columns() as u32,
            atlas_height: config.atlas_rows() as u32,
            camera_width: config.tile_columns(),
            camera_height: config.height,
            light_width: config.light_columns(),
            light_height: config.light_rows(),
            camera_azimuth_wraps: config.mode != BakeMode::Isotropic,
            elevation_clamps: true,
            samples_are_texel_centered: true,
            consumer_applies_macro_cosine: true,
        }
    }

    /// Whether the atlas is a grid of camera tiles, one for each light.
    pub open spec fn is_tiled(self) -> bool {
        &&& self.atlas_width == self.camera_width * self.light_width
        &&& self.atlas_height == self.camera_height * self.light_height
    }

    /// Whether an image of this size can be read with this layout.
    pub open spec fn matches_size(self, width: u32, height: u32) -> bool {
        &&& self.schema_version == ARTIFACT_SCHEMA_VERSION
        &&& self.atlas_width == width
        &&& self.atlas_height == height
    }

    /// The position of an outgoing direction in the tile of a light.
    pub open spec fn texel_for_light_tile_spec(
        self,
        model: AtlasModel,
        outgoing: Vec3,
        light_x: u32,
        light_y: u32,
    ) -> Option<(Scalar, Scalar)> {
        if light_x >= self.light_width || light_y >= self.light_height {
            None
        } else {
            match hemisphere_uv_spec(model, outgoing) {
                Some(uv) => {
                    let local_x = if self.mode == BakeMode::Isotropic {
                        Scalar { bits: ZERO_BITS }
                    } else {
                        model.texel(uv.0, self.camera_width)
                    };
                    let local_y = model.texel(uv.1, self.camera_height);
                    Some(
                        (
                            model.place(light_x, self.camera_width, local_x),
                            model.place(light_y, self.camera_height, local_y),
                        ),
                    )
                },
                None => None,
            }
        }
    }

    /// The position of a direction in the grid of lights.
    pub open spec fn light_grid_position_spec(
        self,
        model: AtlasModel,
        light: Vec3,
    ) -> Option<(Scalar, Scalar)> {
        match hemisphere_uv_spec(model, light) {
            Some(uv) => Some(
                (
                    model.texel(uv.0, self.light_width),
                    model.texel(uv.1, self.light_height),
                ),
            ),
            None => None,
        }
    }

    /// The layout that settings ask for.
    pub fn from_config(config: &ResolvedBakeConfig) -> (metadata: AtlasMetadata)
        requires
            config.atlas_columns() <= u32::MAX,
            config.atlas_rows() <= u32::MAX,
        ensures
            metadata == AtlasMetadata::of_config(*config),
            metadata.is_tiled(),
    {
        AtlasMetadata {
            schema_version: ARTIFACT_SCHEMA_VERSION,
            mode: config.mode,
            atlas_width: config.atlas_width(),
            atlas_height: config.atlas_height(),
            camera_width: config.camera_tile_width(),
            camera_height: config.camera_tile_height(),
            light_width: config.effective_light_width(),
            light_height: config.effective_light_height(),
            camera_azimuth_wraps: config.mode != BakeMode::Isotropic,
            elevation_clamps: true,
            samples_are_texel_centered: true,
            consumer_applies_macro_cosine: true,
        }
    }

    /// Whether an image of this size can be read with this layout.
    pub fn dimensions_match(self, width: u32, height: u32) -> (result: bool)
        ensures
            result == self.matches_size(width, height),
    {
        self.schema_version == ARTIFACT_SCHEMA_VERSION && self.atlas_width == width
            && self.atlas_height == height
    }

    /// The position of an outgoing direction in the tile of a light, in texels
    /// of the atlas.
    pub fn texel_for_light_tile<F, N, T, A, R>(
        self,
        outgoing: Vec3,
        light_x: u32,
        light_y: u32,
        math: &AtlasMath<F, N, T, A, R>,
    ) -> (position: Option<(Scalar, Scalar)>) where
        F: Fn(Operation, Scalar, Scalar) -> Scalar,
        N: Fn(Vec3) -> Option<Vec3>,
        T: Fn(Scalar, Scalar) -> Scalar,
        A: Fn(Scalar) -> Scalar,
        R: Fn(Scalar, Scalar) -> Scalar,

        requires
            math.wf(),
        ensures
            position == self.texel_for_light_tile_spec(math.model(), outgoing, light_x, light_y),
    {
        if light_x >= self.light_width || light_y >= self.light_height {
            return None;
        }
        let (u, v) = match hemisphere_uv(outgoing, math) {
            Some(uv) => uv,
            None => return None,
        };
        let local_x = if self.mode == BakeMode::Isotropic {
            Scalar::zero()
        } else {
            math.texel(u, self.camera_width)
        };
        let local_y = math.texel(v, self.camera_height);
        Some(
            (
                math.place(light_x, self.camera_width, local_x),
                math.place(light_y, self.camera_height, local_y),
            ),
        )
    }

    /// The position of a direction in the grid of lights, in texels of the grid.
    pub fn light_grid_position<F, N, T, A, R>(
        self,
        light: Vec3,
        math: &AtlasMath<F, N, T, A, R>,
    ) -> (position: Option<(Scalar, Scalar)>) where
        F: Fn(Operation, Scalar, Scalar) -> Scalar,
        N: Fn(Vec3) -> Option<Vec3>,
        T: Fn(Scalar, Scalar) -> Scalar,
        A: Fn(Scalar) -> Scalar,
        R: Fn(Scalar, Scalar) -> Scalar,

        requires
            math.wf(),
        ensures
            position == self.light_grid_position_spec(math.model(), light),
    {
        match hemisphere_uv(light, math) {
            Some((u, v)) => Some(
                (math.texel(u, self.light_width), math.texel(v, self.light_height)),
            ),
            None => None,
        }
    }
}

impl<F, N, T, A, R> AtlasMath<F, N, T, A, R> where
    F: Fn(Operation, Scalar, Scalar) -> Scalar,
    N: Fn(Vec3) -> Option<Vec3>,
    T: Fn(Scalar, Scalar) -> Scalar,
    A: Fn(Scalar) -> Scalar,
    R: Fn(Scalar, Scalar) -> Scalar,
 {
    /// The closures are total functions.
    pub open spec fn wf(self) -> bool {
        &&& self.operations.wf()
        &&& function2(self.arctangent)
        &&& function1(self.arcsine)
        &&& function2(self.remainder)
    }

    /// The closures as mathematical functions.
    pub open spec fn model(self) -> AtlasModel {
        AtlasModel {
            operations: self.operations.model(),
            arctangent: model2(self.arctangent),
            arcsine: model1(self.arcsine),
            remainder: model2(self.remainder),
        }
    }

    /// The horizontal position of the azimuth of `(x, z)`.
    fn column(&self, x: Scalar, z: Scalar) -> (u: Scalar)
        requires
            self.wf(),
        ensures
            u == self.model().column(x, z),
    {
        let angle = (self.arctangent)(x, z);
        assert(angle == image2(self.arctangent, x, z));
        let turns = self.operations.quotient(angle, Scalar { bits: TWO_PI_BITS });
        let shifted = self.operations.sum(turns, Scalar { bits: HALF_BITS });
        let one = Scalar::one();
        let u = (self.remainder)(shifted, one);
        assert(u == image2(self.remainder, shifted, one));
        u
    }

    /// The vertical position of the elevation with the given sine.
    fn row(&self, sine: Scalar) -> (v: Scalar)
        requires
            self.wf(),
        ensures
            v == self.model().row(sine),
    {
        let angle = (self.arcsine)(sine);
        assert(angle == image1(self.arcsine, sine));
        let quarters = self.operations.quotient(angle, Scalar { bits: QUARTER_TURN_BITS });
        self.operations.difference(Scalar::one(), quarters)
    }

    /// The position in a grid of `size` cells, counted from the center of the
    /// first one.
    fn texel(&self, uv: Scalar, size: u32) -> (position: Scalar)
        requires
            self.wf(),
        ensures
            position == self.model().texel(uv, size),
    {
        self.operations.difference(
            self.operations.product(uv, Scalar::of_count(size as u64)),
            Scalar { bits: HALF_BITS },
        )
    }

    /// The position `local` in tile number `index` of tiles of `size` cells.
    fn place(&self, index: u32, size: u32, local: Scalar) -> (position: Scalar)
        requires
            self.wf(),
        ensures
            position == self.model().place(index, size, local),
    {
        self.operations.sum(
            self.operations.product(Scalar::of_count(index as u64), Scalar::of_count(size as u64)),
            local,
        )
    }
}

/// The position of a direction in an upper-hemisphere panorama, both ways from
/// zero to one.
pub fn hemisphere_uv<F, N, T, A, R>(direction: Vec3, math: &AtlasMath<F, N, T, A, R>) -> (uv:
    Option<(Scalar, Scalar)>) where
    F: Fn(Operation, Scalar, Scalar) -> Scalar,
    N: Fn(Vec3) -> Option<Vec3>,
    T: Fn(Scalar, Scalar) -> Scalar,
    A: Fn(Scalar) -> Scalar,
    R: Fn(Scalar, Scalar) -> Scalar,

    requires
        math.wf(),
    ensures
        uv == hemisphere_uv_spec(math.model(), direction),
{
    let unit = match math.operations.normalized(direction) {
        Some(unit) => unit,
        None => return None,
    };
    if unit.y.less_than(Scalar::zero()) {
        return None;
    }
    let sine = unit.y.clamp(Scalar::zero(), Scalar::one());
    Some((math.column(unit.x, unit.z), math.row(sine)))
}

/// The layout that settings ask for fits images of the size of their atlas and no
/// others, and a layout of another version fits no image.
pub proof fn lemma_layout_fits_its_atlas(
    config: ResolvedBakeConfig,
    metadata: AtlasMetadata,
    width: u32,
    height: u32,
)
    requires
        config.atlas_columns() <= u32::MAX,
        config.atlas_rows() <= u32::MAX,
    ensures
        AtlasMetadata::of_config(config).matches_size(width, height) <==> width
            == config.atlas_columns() && height == config.atlas_rows(),
        metadata.schema_version != ARTIFACT_SCHEMA_VERSION ==> !metadata.matches_size(
            width,
            height,
        ),
{
    assert(config.atlas_columns() >= 0 && config.atlas_rows() >= 0) by (nonlinear_arith)
        requires
            config.atlas_columns() == config.tile_columns() * config.light_columns(),
            config.atlas_rows() == config.height * config.light_rows(),
    ;
}

/// Whether no step rounds on the way from the center of a texel to its direction
/// and back: the direction has unit length, its angles are found again, and each
/// sum, product and quotient is undone by its opposite.
pub open spec fn steps_are_exact(
    model: AtlasModel,
    directions: LatlongModel,
    center: TexelCenter,
) -> bool {
    let math = directions.operations;
    let zero = Scalar { bits: ZERO_BITS };
    let half = Scalar { bits: HALF_BITS };
    let one = Scalar { bits: ONE_BITS };
    let column = Scalar::of_count_spec((center.u_num / 2) as nat);
    let columns = Scalar::of_count_spec((center.u_den / 2) as nat);
    let row = Scalar::of_count_spec((center.v_num / 2) as nat);
    let rows = Scalar::of_count_spec((center.v_den / 2) as nat);
    let u = directions.operations.fraction(center.u_num, center.u_den);
    let v = directions.operations.fraction(center.v_num, center.v_den);
    let azimuth = directions.azimuth(center.u_num, center.u_den);
    let elevation = directions.elevation(center.v_num, center.v_den);
    let direction = directions.direction_spec(center);
    &&& model.operations == math
    &&& (math.normalize)(direction) == Some(direction)
    &&& zero.le_spec(direction.y) && direction.y.le_spec(one)
    &&& (model.arctangent)(direction.x, direction.z) == azimuth
    &&& (model.arcsine)(direction.y) == elevation
    &&& math.quotient(azimuth, Scalar { bits: TWO_PI_BITS }) == math.difference(u, half)
    &&& math.sum(math.difference(u, half), half) == u
    &&& (model.remainder)(u, one) == u
    &&& math.quotient(elevation, Scalar { bits: QUARTER_TURN_BITS }) == math.difference(one, v)
    &&& math.difference(one, math.difference(one, v)) == v
    &&& math.product(u, columns) == math.sum(column, half)
    &&& math.difference(math.sum(column, half), half) == column
    &&& math.product(v, rows) == math.sum(row, half)
    &&& math.difference(math.sum(row, half), half) == row
}

/// The direction of the center of a texel addresses that texel again, where no
/// step rounds.
pub proof fn lemma_texel_centers_round_trip(
    model: AtlasModel,
    directions: LatlongModel,
    x: u32,
    y: u32,
    width: u32,
    height: u32,
)
    requires
        x < width,
        y < height,
        steps_are_exact(
            model,
            directions,
            TexelCenter::of(x as int, y as int, width as int, height as int),
        ),
    ensures
        ({
            let center = TexelCenter::of(x as int, y as int, width as int, height as int);
            let uv = hemisphere_uv_spec(model, directions.direction_spec(center));
            &&& uv == Some(
                (
                    directions.operations.fraction(center.u_num, center.u_den),
                    directions.operations.fraction(center.v_num, center.v_den),
                ),
            )
            &&& model.texel(uv.unwrap().0, width) == Scalar::of_count_spec(x as nat)
            &&& model.texel(uv.unwrap().1, height) == Scalar::of_count_spec(y as nat)
        }),
{
    let center = TexelCenter::of(x as int, y as int, width as int, height as int);
    assert(center.u_num / 2 == x && center.u_den / 2 == width);
    assert(center.v_num / 2 == y && center.v_den / 2 == height);
}

/// Directions below the horizon have no place in an atlas, whatever the light.
pub proof fn lemma_lower_hemisphere_is_not_addressable(
    metadata: AtlasMetadata,
    model: AtlasModel,
    direction: Vec3,
    light_x: u32,
    light_y: u32,
)
    requires
        (model.operations.normalize)(direction) is Some,
        (model.operations.normalize)(direction).unwrap().y.lt_spec(Scalar { bits: ZERO_BITS }),
    ensures
        hemisphere_uv_spec(model, direction) is None,
        metadata.texel_for_light_tile_spec(model, direction, light_x, light_y) is None,
        metadata.light_grid_position_spec(model, direction) is None,
{
}

/// What the layout of an atlas says: the sizes of its tiles, as wide as the image or one
/// pixel where the view does not depend on the azimuth, of the grid of lights, which in
/// single mode is a single place, and of the whole; and the conventions, of which only the
/// wrapping depends on the mode.
pub proof fn lemma_layouts_say_what_is_baked(config: ResolvedBakeConfig)
    requires
        config.atlas_columns() <= u32::MAX,
        config.atlas_rows() <= u32::MAX,
    ensures
        ({
            let layout = AtlasMetadata::of_config(config);
            &&& layout.schema_version == 1
            &&& layout.mode == config.mode
            &&& layout.camera_height == config.height
            &&& config.mode == BakeMode::Isotropic ==> layout.camera_width == 1
                && !layout.camera_azimuth_wraps
            &&& config.mode != BakeMode::Isotropic ==> layout.camera_width == config.width
                && layout.camera_azimuth_wraps
            &&& config.mode == BakeMode::Single ==> layout.light_width == 1
                && layout.light_height == 1
            &&& config.mode != BakeMode::Single ==> layout.light_width == config.light_width
                && layout.light_height == config.light_height
            &&& layout.atlas_width == layout.camera_width * layout.light_width
            &&& layout.atlas_height == layout.camera_height * layout.light_height
            &&& layout.elevation_clamps
            &&& layout.samples_are_texel_centered
            &&& layout.consumer_applies_macro_cosine
        }),
{
    assert(config.atlas_columns() >= 0 && config.atlas_rows() >= 0) by (nonlinear_arith)
        requires
            config.atlas_columns() == config.tile_columns() * config.light_columns(),
            config.atlas_rows() == config.height * config.light_rows(),
    ;
}

/// Where directions are found in an atlas.  With `u` half a turn on from the angle of the
/// direction from +Z toward +X, in turns, and `v` what its elevation leaves of a quarter
/// turn, in quarter turns: in a tile of the camera at `u` and `v` of its size, less half a
/// texel, behind the tiles of the lights before it; among the lights at `u` and `v` of
/// their grid.  Where the view does not depend on the azimuth all directions share a
/// column.
pub proof fn lemma_directions_are_found_at_their_angles(
    layout: AtlasMetadata,
    model: AtlasModel,
    direction: Vec3,
    light_x: u32,
    light_y: u32,
)
    ensures
        (model.operations.normalize)(direction) is None ==> hemisphere_uv_spec(model, direction)
            is None,
        (model.operations.normalize)(direction) matches Some(unit) ==> {
            let number = |n: u32| Scalar::of_count_spec(n as nat);
            let half = Scalar { bits: 0x3f00_0000 };
            let one = Scalar { bits: 0x3f80_0000 };
            let plus = |a: Scalar, b: Scalar| (model.operations.compute)(Operation::Sum, a, b);
            let minus = |a: Scalar, b: Scalar|
                (model.operations.compute)(Operation::Difference, a, b);
            let times = |a: Scalar, b: Scalar|
                (model.operations.compute)(Operation::Product, a, b);
            let over = |a: Scalar, b: Scalar|
                (model.operations.compute)(Operation::Quotient, a, b);
            let turns = over((model.arctangent)(unit.x, unit.z), Scalar { bits: 0x40c9_0fdb });
            let u = (model.remainder)(plus(turns, half), one);
            let v = |sine: Scalar| minus(
                one,
                over((model.arcsine)(sine), Scalar { bits: 0x3fc9_0fdb }),
            );
            &&& !unit.y.is_nan_spec() ==> (hemisphere_uv_spec(model, direction) is None <==>
                unit.y.rank() < 0)
            &&& !unit.y.is_nan_spec() && 0 < unit.y.rank() <= 0x3f80_0000 ==> {
                let row = v(unit.y);
                &&& hemisphere_uv_spec(model, direction) == Some((u, row))
                &&& layout.light_grid_position_spec(model, direction) == Some(
                    (
                        minus(times(u, number(layout.light_width)), half),
                        minus(times(row, number(layout.light_height)), half),
                    ),
                )
                &&& light_x >= layout.light_width || light_y >= layout.light_height
                    ==> layout.texel_for_light_tile_spec(model, direction, light_x, light_y)
                    is None
                &&& light_x < layout.light_width && light_y < layout.light_height ==> {
                    let place = layout.texel_for_light_tile_spec(
                        model,
                        direction,
                        light_x,
                        light_y,
                    );
                    let across = if layout.mode == BakeMode::Isotropic {
                        Scalar { bits: 0 }
                    } else {
                        minus(times(u, number(layout.camera_width)), half)
                    };
                    &&& place is Some
                    &&& place.unwrap().0 == plus(
                        times(number(light_x), number(layout.camera_width)),
                        across,
                    )
                    &&& place.unwrap().1 == plus(
                        times(number(light_y), number(layout.camera_height)),
                        minus(times(row, number(layout.camera_height)), half),
                    )
                }
            }
            &&& !unit.y.is_nan_spec() && unit.y.rank() > 0x3f80_0000 ==> hemisphere_uv_spec(
                model,
                direction,
            ) == Some((u, v(one)))
        },
{
}

/// An image fits a layout of this version with its size, and no other.
pub proof fn lemma_images_fit_by_size_and_version(layout: AtlasMetadata, width: u32, height: u32)
    ensures
        layout.matches_size(width, height) <==> layout.schema_version == 1 && layout.atlas_width
            == width && layout.atlas_height == height,
        layout.is_tiled() <==> layout.atlas_width == layout.camera_width * layout.light_width
            && layout.atlas_height == layout.camera_height * layout.light_height,
{
}

} // verus!

//! Settings, geometry preparation, dispatch planning and session state of the
//! xBRDF baker.

pub mod agreement;
pub mod arithmetic;
pub mod atlas;
pub mod bake;
pub mod bvh;
pub mod choice;
pub mod config;
pub mod control;
pub mod conversion;
pub mod dispatch;
pub mod double;
pub mod fbx;
pub mod geometry;
pub mod image;
pub mod kernel;
pub mod manifest;
pub mod math;
pub mod obj;
pub mod params;
pub mod paths;
pub mod preview;
pub mod preview_mesh;
pub mod progress;
pub mod reference;
pub mod report;
pub mod sah;
pub mod scalar;
pub mod sampling;
pub mod scene_key;
pub mod schedule;
pub mod select;
pub mod session;
pub mod settings;
pub mod stats;
pub mod text;
pub mod timer;

//! Readers and writers for the Volition (Saints Row 2) packfile and static mesh formats.

pub mod app_data;
pub mod error;
pub mod geometry;
pub mod gltf_import;
pub mod material;
pub mod mesh;
pub mod pack;
pub mod packfile;
pub mod unpack;
pub mod static_mesh;
pub mod strip;
pub mod util;
pub mod viewer_widgets;
pub mod wavefront;
pub mod widgets;

pub use error::VolitionError;
pub use packfile::{Packfile, PackfileEntry};

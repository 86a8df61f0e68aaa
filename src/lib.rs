//! Background rendering for a Wayland desktop: per-output resolution
//! tracking, the five layout modes, the premultiplied ARGB pixel encoding
//! and the shared-memory buffer layout, all with verified contracts.

pub mod color;
pub mod encode;
pub mod layout;
pub mod raster;
pub mod resolution;
pub mod session;
pub mod shm;
pub mod text;

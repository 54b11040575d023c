pub mod capture;
pub mod context;
pub mod external;
pub mod frame;
pub mod glyph_atlas;
pub mod image_atlas;
pub mod instance;
pub mod layer;
pub mod packer;
pub mod picture;
pub mod shapes;
pub mod timing;
pub mod upload;

pub use image_atlas::ImageHandle;

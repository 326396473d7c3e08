//! Reader and writer for sprite-set containers: relocatable, offset-based
//! binary files that bundle GPU textures with named sprite rectangles.
pub mod bytes;
pub mod format;
pub mod model;
pub mod reader;
pub mod image;
pub mod entries;
pub mod set;
pub mod order;
pub mod writer;

pub use format::{ScreenMode, TextureFormat};
pub use image::Image;
pub use model::Vec4;
pub use set::{get_spr_db_set, DbEntry, DbSet, SprDb, SprSet, Sprite, SpriteError};

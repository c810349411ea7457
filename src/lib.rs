//! Finds near-duplicate images by grouping files whose perceptual hashes and
//! pixel dimensions coincide.

pub mod config;
pub mod groups;
pub mod hashing;
pub mod ignore;
pub mod index;
pub mod report;

pub use config::{ConfigError, HashConfig, DEFAULT_RESOLUTION, MAX_RESOLUTION};
pub use groups::{find_collisions, group_images, CollisionGroup, HashedImage};
pub use hashing::{hash_file, hash_image_bytes, keep_hashed, DecodedImage, ImageHasher};
pub use ignore::{apply_ignore, ignore_lines, IgnoreSet};
pub use report::render_report;

//! Triangle meshes for block-letter glyphs, and the textures drawn on them.
//!
//! [`letters`] holds the mesh type and the operators that build and combine
//! meshes, [`geometry`] what is proved of them, [`alphabet`] the twenty-six
//! glyphs made with them, [`texture`] a raster in memory and [`noise`] the
//! textures that are generated, from the numbers of [`pcg`]. Positions are
//! fixed-point numbers, see [`fixed`].

pub mod alphabet;
pub mod error;
pub mod fixed;
pub mod geometry;
pub mod letters;
pub mod noise;
pub mod pcg;
pub mod texture;

pub use alphabet::{create_alphabet_models, letter_index};
pub use error::Error;
pub use letters::{
    mirror_back_slash, mirror_forward_slash, mirror_x, mirror_y, Mesh, Model, Vert,
};
pub use noise::{create_fractal_static_texture, create_letter_texture, create_static_texture};
pub use texture::{PixelFormat, RgbaTexture};

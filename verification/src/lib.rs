//! Keeps a game that asks for too new an OpenGL compatibility profile running
//! on a driver that does not offer it.
//!
//! The attributes of a GLX context request are a terminated list of key/value
//! records. This library reads such a list through a cursor, decides from the
//! requested version, the profile mask, the driver's ceiling and the
//! environment whether the request has to be rewritten, and rewrites it in
//! place. It also answers whether a name is in a list of extension names, and
//! tells for which program the driver's version override is to be set.

pub mod attrib;
pub mod attrib_list;
pub mod extension;
pub mod init;
pub mod option_ext;
pub mod query_renderer;
pub mod text;
pub mod version_hack;

pub use attrib::Attrib;
pub use attrib_list::{glxdrv_attrib_list_get, AttribList};
pub use extension::{glxdrv_has_extension, has_extension};
pub use init::{glxdrv_init_lol, InitAction};
pub use query_renderer::{ProfileVersion, QueryRenderer};
pub use version_hack::{glxdrv_apply_version_hack, version_policy, HackConfig, HackMethod, Rewrite};

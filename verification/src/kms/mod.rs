//! The backend that drives a screen through kernel mode setting.

pub mod arcs;
pub mod compose;
pub mod compose_laws;
pub mod cursor_plane;
pub mod drawing;
pub mod drawing_laws;
pub mod events;
pub mod face;
pub mod fonts;
pub mod image;
pub mod image_laws;
pub mod input;
pub mod laws;
pub mod paint;
pub mod pictures;
pub mod raster;
pub mod raster_laws;
pub mod render_node;
pub mod replies;
pub mod scheduler;
pub mod state;
pub mod text;
pub mod text_laws;
pub mod typeset;
pub mod window_laws;
pub mod windows;
pub mod xkb;

//! Core logic of a small X11 display server.
pub mod backend;
pub mod cli;
pub mod clock;
pub mod crossing_laws;
pub mod crossings;
pub mod destroy_laws;
pub mod filters;
pub mod host_laws;
pub mod host_x11;
pub mod kms;
pub mod maps;
pub mod protocol;
pub mod request_lengths;
pub mod resource_laws;
pub mod resources;
pub mod server;
pub mod strings;
pub mod view_laws;
pub mod wire;

pub mod animation_system;
pub mod thin_plate_spline;
pub mod image_source;

pub mod colored_plane;
pub mod colored_plane_new;
pub mod filled_circle;
pub mod outlined_circle;
pub mod rounded_rect;
pub mod svg;

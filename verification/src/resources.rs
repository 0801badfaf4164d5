pub mod mesh_2d;
pub mod mesh_2d_new;
pub mod polyline;

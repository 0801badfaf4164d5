pub mod graphics_context;
pub mod instances;
pub mod memory;
pub mod memory_new;
pub mod lazy_graphics_resource;
pub mod renderer;
pub mod resources;
pub mod svg;
pub mod view;

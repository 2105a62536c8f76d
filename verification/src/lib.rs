pub mod laws;
pub mod model;
pub mod pos_set;
pub mod render;

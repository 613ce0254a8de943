pub mod edge;
pub mod geom;
pub mod resolution;
pub mod within_threshold;
pub mod path;
pub mod nearest;

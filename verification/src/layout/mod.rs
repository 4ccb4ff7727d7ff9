pub mod assets;
pub mod graph;
pub mod route;
pub mod step;

pub mod assets;
pub mod geometry;
pub mod lemmas;
pub mod naming;
pub mod system;

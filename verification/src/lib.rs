pub mod models;
pub mod map;
pub mod course;
pub mod demo;
pub mod levels;

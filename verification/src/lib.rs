pub mod algebra;
pub mod models;
pub mod preprocessing;
pub mod stats;

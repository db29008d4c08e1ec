pub mod error;
pub mod flatlander;
pub mod merge;
pub mod shadow;
pub mod world;

//! Items reached both through their defining module and through a re-export.
pub mod b;
pub mod c;

pub use self::c::Bar;

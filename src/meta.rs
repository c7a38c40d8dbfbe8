mod size;

/// The capability that every size of a stamp provides.
pub mod traits;

/// The size of a stamp, held at run time.
pub mod dynamic;

pub use size::Size;

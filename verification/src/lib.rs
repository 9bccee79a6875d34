//! Exact summation of integer ranges split across workers, with a few small
//! text, number and shape helpers.

pub mod aggregate;
pub mod decimal;
pub mod error;
pub mod numeric;
pub mod partition;
pub mod range;
pub mod reduce;
pub mod shapes;
pub mod summary;
pub mod text;

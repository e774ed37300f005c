//! Numerical analysis: the taxonomy of critical points and the choice of
//! root-finding method.

pub mod critical_points;
pub mod methods;

pub use critical_points::ArithmosCriticalPointKind;
pub use methods::ArithmosNumericalMethod;

//! Fourier transform configuration: the window functions.

use vstd::prelude::*;

verus! {

/// Window function used by the discrete transform.
#[derive(Debug, Clone, Copy, PartialEq, Eq, Hash, Structural)]
pub enum ArithmaFourierWindow {
    Rectangular,
    Hann,
    Hamming,
    Blackman,
    BlackmanHarris,
    Gaussian,
}

} // verus!

pub use self::ArithmaFourierWindow as ArithmosFourierWindow;

//! Fourier epicycle animation core: exact fixed-point models of the
//! signal decoding, spectrum addressing, epicycle geometry, and the
//! animation clock that drives frame production.

pub mod clock;
pub mod cpx;
pub mod decode;
pub mod driver;
pub mod engine;
pub mod fx;
pub mod rot;
pub mod spectrum;

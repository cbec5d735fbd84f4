//! Encoding of short byte messages into QR symbols (versions 1 and 2,
//! error-correction level Q, byte mode).

pub mod encoder;
pub mod grid;
pub mod laws;
pub mod mask;
pub mod penalty;
pub mod placement;
pub mod qr;

//! Envelope tooling around `age`: the passphrase frame on stdin, ISO/IEC 7816-4
//! padding, command-line parsing and validation, and the classification of
//! failures into exit codes.

pub mod error;
pub mod relleno;
pub mod texto;
pub mod clave;
pub mod argumentos;
pub mod llaves;

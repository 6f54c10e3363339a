//! Prepare Boolean constraints for counting and circuit compilation: the CNF
//! types, the DIMACS reader and writer, the component split, and the
//! configuration and reporting vocabulary of a preprocessing run.

pub mod budget;
pub mod candidates;
pub mod bundle;
pub mod clock;
pub mod cnf;
pub mod component;
pub mod config;
pub mod error;
pub mod exit;
pub mod preprocess;
pub mod status;
mod text;

pub use error::VitriError;

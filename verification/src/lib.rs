//! Simulation of the current signal that a nanopore sequencer produces for a
//! nucleotide sequence, from a table of per-k-mer signal statistics, with
//! verified contracts.
//!
//! The library cuts text into lines and fields, keeps the model table,
//! gives the events of a sequence, thins out streams of events and reads
//! predictions. Numbers that are 32-bit floating-point values in the data
//! are carried as their IEEE 754 bit patterns ([`Binary32`]): the library
//! compares them and hands them on, and does no arithmetic with them. What
//! number a text denotes is for the caller to say, field by field, before
//! the lines of a source are handed to [`Squiggler::new`] or
//! [`prediction::parse`].

pub mod binary32;
pub mod event;
pub mod fasta;
pub mod field;
pub mod filter;
pub mod kmer;
pub mod loading;
pub mod model;
pub mod prediction;
pub mod squiggler;
pub mod text;

pub use binary32::Binary32;
pub use event::Event;
pub use field::{fields, Field};
pub use filter::clipping;
pub use loading::SquigglerError;
pub use model::SignalModel;
pub use prediction::{parse, Signal};
pub use squiggler::Squiggler;

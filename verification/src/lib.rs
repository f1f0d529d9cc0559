//! Decoder for a fixed-signature binary input-method dictionary container
//! (the Sogou `.scel` format) that re-serializes its contents as a
//! line-oriented text dictionary.
//!
//! The pipeline runs strictly in order: the container validator checks the
//! overall length and the magic signature and exposes the fixed byte ranges;
//! the symbol-table decoder parses the phonetic section into an ordered table
//! of strings; the entry-table decoder parses the word section into entries
//! that reference symbol-table positions; the emitter resolves those
//! references and produces the output text, one line per entry.

use vstd::prelude::*;

pub mod byteread;
pub mod container;
pub mod emit;
pub mod errors;
pub mod pinyin;
pub mod pipeline;
pub mod textenc;
pub mod words;

verus! {

/// Input and output file names for one conversion run, as the surrounding
/// command line hands them to the pipeline.
pub struct Config {
    pub inputfile: String,
    pub outputfile: String,
}

} // verus!

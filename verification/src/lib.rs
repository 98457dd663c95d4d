//! Verified core of the jxl-art playground: the tree-program model, its
//! text format (printer and parser), the mutation engine, the decoder's PAM
//! output and its fitting, the payloads sent to the browser, and the
//! curated gallery.

pub mod text;
pub mod tree;
pub mod parse;
pub mod random;
pub mod edit;
pub mod prune;
pub mod mutations;
pub mod roundtrip;
pub mod mutation_laws;
pub mod codec;
pub mod payload;
pub mod gallery;
pub mod pipeline;

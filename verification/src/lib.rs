#![verifier::loop_isolation(false)]
//! Turns a source repository's files into annotated markdown documents with
//! bounded, identifier-tagged text chunks, and parses such documents back
//! into structured records. The chunking, header rendering, assembling and
//! parsing are verified; the surrounding git, filesystem and console glue
//! lives outside the library.

pub mod assemble;
pub mod chunker;
pub mod contrib;
pub mod digits;
pub mod errors;
pub mod ids;
pub mod lang;
pub mod metadata;
pub mod parse;
pub mod repo;
pub mod roundtrip;
pub mod text;

//! Migration of records from textual database dumps into vector stores.
//!
//! The library covers the computational core of the migration pipeline:
//! format detection, the dialect parsers that recover typed records from a
//! dump, the record cleaning rules, the embedding bookkeeping (chunking,
//! dimension checks, pairing records with vectors), and the per-backend
//! payload shaping and batching used by the vector-store drivers.  All I/O
//! (file reading, HTTP, wire protocols) lives outside the library; callers
//! hand in plain values and receive plain values back.

pub mod chars;
pub mod value;
pub mod json;
pub mod jsonp;
pub mod detect;
pub mod html;
pub mod record;
pub mod parser;
pub mod embed;
pub mod batch;
pub mod db;
pub mod exclude;
pub mod reader;
pub mod workflow;

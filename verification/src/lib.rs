//! Streaming extraction of articles and their internal links from an XML
//! encyclopedia dump.
//!
//! The crate has two parts. The page assembler ([`assembler`]) is a state
//! machine that folds a flat stream of XML events into [`article::Article`]
//! records without buffering the document. The link extractor ([`links`]) is
//! a lenient, forward-only scanner that finds `[[target]]` and
//! `[[target|description]]` markers in wiki markup.
//!
//! Opening the dump, decompressing it and tokenizing the bytes into events
//! are external collaborators: the assembler consumes plain event values and
//! hands each finished article back to its caller.

pub mod article;
pub mod assembler;
pub mod links;

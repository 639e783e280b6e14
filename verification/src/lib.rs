//! A literate-runbook library: it parses an outline-structured text document
//! (nested headings with fenced code blocks) into an addressable tree,
//! resolves fuzzy hierarchical path queries against the heading names, and
//! assembles the code found along a root-to-node chain into one runnable
//! script per language.

pub mod code_doc;
pub mod org_parser;
pub mod strutil;

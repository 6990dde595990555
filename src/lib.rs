//! Extraction of typed values from web pages by CSS selector paths.
//!
//! The library holds the logic of the tool: the configuration model
//! (resources and their selectors), parameter substitution in URL templates,
//! matching selectors against a parsed document, typing the matched text, the
//! normalisation of noisy numeric text, and the order-preserving collection
//! of a batch's results. Fetching pages, files and terminal interaction are
//! left to the program around it.
use vstd::prelude::*;

pub mod batch;
pub mod document;
pub mod extract;
pub mod numeric;
pub mod structure;
pub mod text;

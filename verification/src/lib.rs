//! Tagged regions of source code for the chapters of a book.
//!
//! Source files carry markers in comments that open and close named regions;
//! the chapters of the documentation refer to the regions by name. This
//! library builds the catalog of the regions from the chapters, follows the
//! markers of each source file while a scanner keeps track of the type and the
//! function that enclose each line, gathers for every region the snippet of
//! lines that it adds and removes together with some lines of context, and puts
//! the snippets into the chapters in place of the references, each with a
//! breadcrumb that tells the reader where the snippet goes.
//!
//! Every function is verified against a contract over a model of the data:
//! texts are sequences of characters, and every type has a view. What a regular
//! expression matches is taken from the `regex` crate; the module `pattern`
//! says how.
pub mod breadcrumb;
pub mod catalog;
pub mod config;
pub mod gather;
pub mod laws;
pub mod location;
pub mod parser;
pub mod pattern;
pub mod references;
pub mod render;
pub mod scanner;
pub mod snippet;
pub mod text;

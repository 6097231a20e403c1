//! Harvesting of page records from a paginated, rate-limited GraphQL service,
//! their enrichment from rendered documents, and the projection of the result.
//!
//! Everything here computes on plain values: the program around the library
//! sends the requests, sleeps and writes the files. It asks the library what
//! to send next and hands back what came of it.
//!
//! - [`field_tree`] turns a list of dotted field paths into a forest of named
//!   nodes and the forest into query text; [`field_laws`] proves that the
//!   result depends only on which paths the list holds.
//! - [`record`] is the tree of values that the service answers with.
//! - [`query`] writes the text of the requests.
//! - [`retry`] counts failed attempts, [`rate_limit`] keeps the quota, and
//!   [`crom`] is the client of the service as a machine of states, with the
//!   quota probe before every request.
//! - [`pagination`] walks the pages of a listing.
//! - [`enrichment`], [`html`], [`file_size`] and [`document_fetch`] say what is
//!   fetched for a record and what is read out of it.
//! - [`projection`] drops records by patterns on their source and fields by a
//!   forest of names.
//! - [`list_pages`] ties these together for one listing; [`params`] and
//!   [`cli`] hold what the caller asks for.
//! - [`txm`] writes the export for text analysis, [`forum`] the addresses and
//!   numbers met on the pages of a forum, [`text`] the operations on text that
//!   all of them are built from.
pub mod cli;
pub mod crom;
pub mod document_fetch;
pub mod enrichment;
pub mod field_laws;
pub mod field_tree;
pub mod file_size;
pub mod forum;
pub mod html;
pub mod list_pages;
pub mod pagination;
pub mod params;
pub mod projection;
pub mod query;
pub mod rate_limit;
pub mod record;
pub mod retry;
pub mod script_data;
pub mod text;
pub mod txm;

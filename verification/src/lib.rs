//! Inlines the external resources of an HTML document: stylesheets, scripts,
//! images, favicons, nested CSS imports and `url()` references become inline
//! content or `data:` URIs.
//!
//! The library holds the verified core: the CSS scanner and rewriter, MIME
//! determination, data-URI construction, and the node handlers with their
//! dispatcher, all working on a plain model of the document tree and on a
//! table of fetched resources. Fetching itself (file reads, HTTP requests)
//! is left to the caller, which hands the outcomes in.

pub mod bytes;
pub mod css;
pub mod rewrite;
pub mod dom;
pub mod encode;
pub mod handlers;
pub mod errors;
pub mod mime;
pub mod pipeline;
pub mod resources;

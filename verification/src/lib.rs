//! Conversion of noisy real-world HTML into Markdown-flavored text: a parsed
//! document is pre-filtered through a skip-set of clutter and hidden
//! subtrees, a main-content root is located, the tree is rendered tag by tag
//! into Markdown (with a layout-versus-data table heuristic), the text is
//! cleaned, a sparse result triggers one full-document fallback pass, and the
//! final text yields citation, reference, plain and readable variants with
//! link and image lists.

pub mod chars;
pub mod cite;
pub mod clean;
pub mod dom;
pub mod locate;
pub mod pipeline;
pub mod skipset;
pub mod urlres;
pub mod walker;

//! Block-wise entropy scanning, verified.
//!
//! A file is read in blocks of a fixed size; each block gets one entropy
//! value, and the values are shown as a table or as a strip image. This
//! library holds everything of that which is decided in integers and text:
//!
//! - [`histogram`] counts the bytes of a block, which is all that the
//!   entropy of the block depends on;
//! - [`scan`] keeps the books of a scan: which bytes of a buffer form a
//!   block, when the scan ends, and what the report holds;
//! - [`table`] and [`image`] lay out the two renderings of a report, and
//!   [`render`] chooses between them;
//! - [`decimal`] writes the numbers that both renderings need.
//!
//! Reading the file, the logarithms of the entropy and writing the output
//! are left to the caller.

pub mod decimal;
pub mod histogram;
pub mod image;
pub mod render;
pub mod scan;
pub mod table;

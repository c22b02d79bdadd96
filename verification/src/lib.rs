//! Verified core of a chapter-image acquirer: resolving image references
//! against their containing page, extracting ordered image URLs from a
//! chapter page, classifying fetch outcomes, and assembling per-chapter and
//! whole-run results in document order.

pub mod bytes;
pub mod chapter;
pub mod extract;
pub mod images;
pub mod output;
pub mod resolve;
pub mod run;

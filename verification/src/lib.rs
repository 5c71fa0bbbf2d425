//! Geometric layout analysis of positioned text objects.
//!
//! A document is a tree of blocks, texts and tokens. Every object carries page
//! coordinates and a size, all measured in thousandths of a point. The crate
//! computes bounding boxes, uniform styles, alignment classes and spacing
//! statistics over ordered sets of such objects.

pub mod traits;
pub mod frame;
pub mod alignment;
pub mod spacing;
pub mod style;
pub mod sets;
pub mod raw_document;

pub use frame::{Frame, Outline};
pub use alignment::ObjectAlignement;
pub use raw_document::{Block, DeserizalizationTokens, Document, Text, Token, Tokens};
pub use traits::{Alignement, Coordinates, Shape, Spacing, Style};

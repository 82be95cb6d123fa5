//! Read-level support statistics for a single genomic variant.
//!
//! A [`Variant`] is parsed from its `CHROM:POS REF>ALT` text form. Each read
//! aligned over the variant is classified into a [`Support`] verdict from its
//! aligned-base observations, full alternate support is refined by mapping
//! quality and distance to the ends of the alignment, and the verdicts are
//! counted in a [`Summary`].

pub mod error;
pub mod record;
pub mod seq;
pub mod summary;
pub mod variant;

pub use crate::error::{err, opterr, Error, ErrorKind};
pub use crate::record::{classify, decide, find_anchor, walk, Evidence, Read, VariantValidate, Walk};
pub use crate::seq::{compare, Base, CigarOp, Ordering, QueryBase, Support};
pub use crate::summary::{ratio_bp, refine, Config, Summary, Tier};
pub use crate::variant::Variant;

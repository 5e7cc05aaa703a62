//! SigMF recordings: where annotations of a recording land in the stream of samples.

pub mod sigmf_source;

pub use sigmf_source::{annotation_tags, AnnotationTags};

use vstd::prelude::*;

pub mod annotation;
pub mod declared;
pub mod document;
pub mod entries;
pub mod quote;
pub mod source;
pub mod toml_text;

pub use annotation::{Annotation, AnnotationKind, AnnotationLevel, AnnotationSet, Format};
pub use declared::{declared_annotations, Specs};
pub use document::{Error, Field, TomlValue};
pub use entries::{Exception, Spec, Todo};
pub use quote::normalize_quote;
pub use source::{Pattern, SourceFile};
pub use toml_text::annotations_from_text;

verus! {

} // verus!

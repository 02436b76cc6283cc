use vstd::prelude::*;

verus! {

/// The comment prefixes that mark annotations in a scanned file: one for
/// the annotation's metadata lines, one for its quoted text.
#[derive(Debug)]
pub struct Pattern {
    pub meta: String,
    pub content: String,
}

/// A file that yields annotations: scanned for comments that follow a
/// pattern, or read as a declaration document.
#[derive(Debug)]
pub enum SourceFile {
    Text(Pattern, String),
    Spec(String),
}

impl SourceFile {
    /// The path of the file.
    pub fn path(&self) -> (r: &String)
        ensures
            match self {
                SourceFile::Text(_, p) => r == p,
                SourceFile::Spec(p) => r == p,
            },
    {
        match self {
            SourceFile::Text(_, p) => p,
            SourceFile::Spec(p) => p,
        }
    }
}

} // verus!

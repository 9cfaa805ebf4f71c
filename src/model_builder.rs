//! Which extractor reads a source file, by its extension.
use vstd::prelude::*;

verus! {

/// The source languages that have an extractor.
#[derive(Clone, Copy, Debug, PartialEq, Eq, Structural)]
pub enum SourceLanguage {
    Java,
    JavaScript,
    Rust,
    CSharp,
}

/// The language of files with extension `ext`.
pub open spec fn language_spec(ext: Seq<char>) -> Option<SourceLanguage> {
    if ext == "java"@ {
        Some(SourceLanguage::Java)
    } else if ext == "js"@ {
        Some(SourceLanguage::JavaScript)
    } else if ext == "rs"@ {
        Some(SourceLanguage::Rust)
    } else if ext == "cs"@ {
        Some(SourceLanguage::CSharp)
    } else {
        None
    }
}

/// Builds the structural model of source files.
pub struct ModelBuilder {}

impl ModelBuilder {
    /// The extractor for a file extension; `None` for files that are not read.
    pub fn language_of(ext: &str) -> (r: Option<SourceLanguage>)
        ensures
            r == language_spec(ext@),
    {
        let e = ext.to_owned();
        if e == "java".to_owned() {
            Some(SourceLanguage::Java)
        } else if e == "js".to_owned() {
            Some(SourceLanguage::JavaScript)
        } else if e == "rs".to_owned() {
            Some(SourceLanguage::Rust)
        } else if e == "cs".to_owned() {
            Some(SourceLanguage::CSharp)
        } else {
            None
        }
    }
}

} // verus!

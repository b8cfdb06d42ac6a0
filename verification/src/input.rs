//! A loaded source file: its logical name and its text as a character
//! sequence, owned by the value itself.

use vstd::prelude::*;

verus! {

/// One registered source: a logical file name and the characters of
/// its text. The loader is expected to have normalized tabs to spaces
/// and ended the text with a newline before constructing this.
pub struct SourceFile {
    pub path: String,
    pub content: Vec<char>,
}

impl SourceFile {
    pub fn new(path: String, content: Vec<char>) -> (r: SourceFile)
        ensures
            r.path == path,
            r.content == content,
    {
        SourceFile { path, content }
    }

    pub fn get_source(&self) -> (r: &Vec<char>)
        ensures
            r == &self.content,
    {
        &self.content
    }
}

} // verus!

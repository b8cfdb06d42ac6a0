//! The source registry: the single owner of all source text for the
//! run's lifetime, resolved by logical file name.

use vstd::prelude::*;

use crate::input::SourceFile;

verus! {

/// A plain reference into a named source: a half-open character
/// range, kept for callers that record locations without holding a
/// token.
pub struct SourceRef {
    pub file: String,
    pub start: usize,
    pub end: usize,
}

/// The registered sources, in registration order. Content is never
/// mutated after registration; lookups resolve to the first entry
/// with the requested name.
pub struct Sources {
    pub files: Vec<SourceFile>,
}

/// The content of the first registered source named `name`, if any.
pub open spec fn source_lookup(files: Seq<SourceFile>, name: Seq<char>) -> Option<Seq<char>>
    decreases files.len(),
{
    if files.len() == 0 {
        None
    } else if files[0].path@ == name {
        Some(files[0].content@)
    } else {
        source_lookup(files.drop_first(), name)
    }
}

impl Sources {
    pub fn new() -> (r: Sources)
        ensures
            r.files@ == Seq::<SourceFile>::empty(),
    {
        Sources { files: Vec::new() }
    }

    pub fn push_source(&mut self, file_name: String, source: Vec<char>)
        ensures
            final(self).files@ == old(self).files@.push(
                SourceFile { path: file_name, content: source },
            ),
    {
        self.files.push(SourceFile { path: file_name, content: source });
    }

    /// Resolves a name to the content it was registered with; fails
    /// exactly when no source of that name was registered.
    pub fn source_by_name(&self, name: String) -> (r: Option<&Vec<char>>)
        ensures
            match r {
                Some(c) => source_lookup(self.files@, name@) == Some(c@),
                None => source_lookup(self.files@, name@) is None,
            },
    {
        let n = self.files.len();
        let mut i: usize = 0;
        proof {
            assert(self.files@.skip(0) =~= self.files@);
        }
        while i < n
            invariant
                i <= n,
                n == self.files@.len(),
                source_lookup(self.files@, name@) == source_lookup(
                    self.files@.skip(i as int),
                    name@,
                ),
            decreases n - i,
        {
            if self.files[i].path == name {
                proof {
                    assert(self.files@.skip(i as int)[0] == self.files@[i as int]);
                }
                return Some(&self.files[i].content);
            }
            proof {
                assert(self.files@.skip(i as int)[0] == self.files@[i as int]);
                assert(self.files@.skip(i as int).drop_first() =~= self.files@.skip(i as int + 1));
            }
            i += 1;
        }
        proof {
            assert(self.files@.skip(n as int) =~= Seq::<SourceFile>::empty());
        }
        None
    }
}

} // verus!

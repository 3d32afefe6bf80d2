use vstd::prelude::*;

use crate::tokenizer::spec_tokenize;
use crate::tokenizer::tokenize_error_matches;
use crate::tokenizer::GlotLine;
use crate::Error;

verus! {

/// A program under tokenization: the name of its source, and the lines
/// tokenized so far, in order.
///
/// The core never touches the file system: the surrounding program reads
/// the source named here and hands its text over line by line.
#[derive(Debug, Clone)]
pub struct Glotter {
    pub source: String,
    pub lines: Vec<GlotLine>,
}

impl Glotter {
    /// Prepares tokenization of a named source file, with no line read yet.
    pub fn new_from_file(source_path: &str) -> (r: Result<Glotter, Error>)
        ensures
            r is Ok,
            r->Ok_0.source@ == source_path@,
            r->Ok_0.lines@.len() == 0,
    {
        Ok(
            Glotter {
                source: source_path.to_owned(),
                lines: Vec::new(),
            },
        )
    }

    /// Tokenizes the given lines of source text in order, appending one
    /// tokenized line for each until the first line that fails.
    ///
    /// On success every line tokenized and all were appended; on failure the
    /// appended lines say exactly how far tokenization came, every line
    /// before the failing one tokenized, and the error is the failing
    /// line's own.
    pub fn tokenize(&mut self, lines: &Vec<String>) -> (r: Result<(), Error>)
        ensures
            final(self).source == old(self).source,
            old(self).lines@.len() <= final(self).lines@.len(),
            forall|k: int|
                0 <= k < old(self).lines@.len() ==> final(self).lines@[k] == old(self).lines@[k],
            match r {
                Ok(()) => {
                    &&& final(self).lines@.len() == old(self).lines@.len() + lines@.len()
                    &&& forall|k: int|
                        0 <= k < lines@.len() ==> spec_tokenize(lines@[k]@) is Ok
                    &&& forall|k: int|
                        0 <= k < lines@.len() ==> final(self).lines@[old(self).lines@.len()
                            + k].tokens@ == spec_tokenize(lines@[k]@)->Ok_0
                },
                Err(e) => {
                    let j = final(self).lines@.len() - old(self).lines@.len();
                    &&& 0 <= j < lines@.len()
                    &&& forall|k: int| 0 <= k < j ==> spec_tokenize(lines@[k]@) is Ok
                    &&& forall|k: int|
                        0 <= k < j ==> final(self).lines@[old(self).lines@.len() + k].tokens@
                            == spec_tokenize(lines@[k]@)->Ok_0
                    &&& spec_tokenize(lines@[j]@) is Err
                    &&& tokenize_error_matches(e, spec_tokenize(lines@[j]@)->Err_0)
                },
            },
    {
        let mut i: usize = 0;
        while i < lines.len()
            invariant
                i <= lines@.len(),
                self.source == old(self).source,
                self.lines@.len() == old(self).lines@.len() + i,
                forall|k: int|
                    0 <= k < old(self).lines@.len() ==> self.lines@[k] == old(self).lines@[k],
                forall|k: int| 0 <= k < i ==> spec_tokenize(lines@[k]@) is Ok,
                forall|k: int|
                    0 <= k < i ==> self.lines@[old(self).lines@.len() + k].tokens@
                        == spec_tokenize(lines@[k]@)->Ok_0,
            decreases lines@.len() - i,
        {
            let line = match GlotLine::new(lines[i].as_str()) {
                Ok(gl) => gl,
                Err(e) => {
                    return Err(e);
                },
            };
            self.lines.push(line);
            i += 1;
        }
        Ok(())
    }
}

} // verus!

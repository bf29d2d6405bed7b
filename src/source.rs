use vstd::prelude::*;

use crate::text::same_text;

verus! {

/// One file of a source tree: its path relative to the root, and its bytes.
pub struct SourceFile {
    pub path: String,
    pub contents: Vec<u8>,
}

/// A read-only listing of a project directory.
pub struct SourceTree {
    pub files: Vec<SourceFile>,
}

/// File `i` is the first one in `files` whose path is `name`.
pub open spec fn first_named(files: Seq<SourceFile>, name: Seq<char>, i: int) -> bool {
    &&& 0 <= i < files.len()
    &&& files[i].path@ == name
    &&& forall|j: int| 0 <= j < i ==> files[j].path@ != name
}

/// Some file of `files` has the path `name`.
pub open spec fn has_named(files: Seq<SourceFile>, name: Seq<char>) -> bool {
    exists|i: int| 0 <= i < files.len() && #[trigger] files[i].path@ == name
}

/// The contents of the first file named `name`, if there is one.
pub open spec fn contents_named(files: Seq<SourceFile>, name: Seq<char>) -> Option<Seq<u8>> {
    if has_named(files, name) {
        Some(files[choose|i: int| first_named(files, name, i)].contents@)
    } else {
        None
    }
}

/// The first file with a given name is unique, and exists whenever a file has that name.
pub proof fn lemma_first_named(files: Seq<SourceFile>, name: Seq<char>)
    ensures
        has_named(files, name) <==> exists|i: int| first_named(files, name, i),
        forall|i: int, j: int|
            first_named(files, name, i) && first_named(files, name, j) ==> i == j,
{
    if has_named(files, name) {
        let k = choose|i: int| 0 <= i < files.len() && #[trigger] files[i].path@ == name;
        lemma_first_below(files, name, k);
    }
}

proof fn lemma_first_below(files: Seq<SourceFile>, name: Seq<char>, k: int)
    requires
        0 <= k < files.len(),
        files[k].path@ == name,
    ensures
        exists|i: int| first_named(files, name, i),
    decreases k,
{
    if exists|j: int| 0 <= j < k && files[j].path@ == name {
        let j = choose|j: int| 0 <= j < k && files[j].path@ == name;
        lemma_first_below(files, name, j);
    } else {
        assert(first_named(files, name, k));
    }
}

impl SourceTree {
    /// Index of the first file whose path is `name`.
    pub fn find(&self, name: &str) -> (r: Option<usize>)
        ensures
            match r {
                Some(i) => first_named(self.files@, name@, i as int),
                None => !has_named(self.files@, name@),
            },
    {
        let mut i: usize = 0;
        while i < self.files.len()
            invariant
                i <= self.files@.len(),
                forall|j: int| 0 <= j < i ==> self.files@[j].path@ != name@,
            decreases self.files@.len() - i,
        {
            if same_text(self.files[i].path.as_str(), name) {
                return Some(i);
            }
            i = i + 1;
        }
        None
    }

    /// Whether a file named `name` is present.
    pub fn has_file(&self, name: &str) -> (r: bool)
        ensures
            r == has_named(self.files@, name@),
    {
        match self.find(name) {
            Some(_) => true,
            None => false,
        }
    }

    /// The contents of the first file named `name`.
    pub fn file_contents(&self, name: &str) -> (r: Option<&Vec<u8>>)
        ensures
            match r {
                Some(c) => contents_named(self.files@, name@) == Some(c@),
                None => contents_named(self.files@, name@) is None,
            },
    {
        proof {
            lemma_first_named(self.files@, name@);
        }
        match self.find(name) {
            Some(i) => Some(&self.files[i].contents),
            None => None,
        }
    }
}

} // verus!

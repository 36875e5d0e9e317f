//! An in-memory image of the document store: a directory tree in which every
//! document has already been parsed into a [`DataValue`].
//!
//! Each directory may carry its own default document (the index document) and
//! any number of named children; a child may exist as a document, as a
//! subdirectory, or as both at once.  A document that was absent, unreadable
//! or unparseable on disk is represented as `None`: inside the engine those
//! conditions are indistinguishable from absence.

use vstd::prelude::*;

verus! {

use crate::values::DataValue;

/// A directory of the store.
pub struct Tree {
    /// The directory's own default document, if it exists and parses.
    pub index: Option<DataValue>,
    /// The named children, in enumeration order.
    pub entries: Vec<TreeEntry>,
}

/// One named child of a directory.
pub struct TreeEntry {
    /// The child's name: a file stem or directory name, extension stripped.
    pub name: String,
    /// The child's own document, if it exists and parses.
    pub doc: Option<DataValue>,
    /// The child as a subdirectory, if the directory exists.
    pub sub: Option<Tree>,
}

/// Index of the first entry named `name`, or `-1` if there is none.
pub open spec fn spec_entry_index(entries: Seq<TreeEntry>, name: Seq<char>) -> int
    decreases entries,
{
    if entries.len() == 0 {
        -1
    } else if entries.first().name@ == name {
        0
    } else {
        let r = spec_entry_index(entries.drop_first(), name);
        if r < 0 {
            -1
        } else {
            r + 1
        }
    }
}

pub proof fn lemma_entry_index_at(entries: Seq<TreeEntry>, name: Seq<char>, j: int)
    requires
        0 <= j < entries.len(),
        entries[j].name@ == name,
        forall|i: int| 0 <= i < j ==> (#[trigger] entries[i]).name@ != name,
    ensures
        spec_entry_index(entries, name) == j,
    decreases entries,
{
    if j > 0 {
        assert(forall|i: int| 1 <= i < entries.len() ==> #[trigger] entries.drop_first()[i - 1]
            == entries[i]);
        lemma_entry_index_at(entries.drop_first(), name, j - 1);
    }
}

pub proof fn lemma_entry_index_none(entries: Seq<TreeEntry>, name: Seq<char>)
    requires
        forall|i: int| 0 <= i < entries.len() ==> (#[trigger] entries[i]).name@ != name,
    ensures
        spec_entry_index(entries, name) == -1,
    decreases entries,
{
    if entries.len() > 0 {
        assert(forall|i: int| 1 <= i < entries.len() ==> #[trigger] entries.drop_first()[i - 1]
            == entries[i]);
        lemma_entry_index_none(entries.drop_first(), name);
    }
}

/// The subdirectory reached from `t` by following `path`, if every segment
/// names an entry that is a directory.
pub open spec fn spec_dir_at(t: Tree, path: Seq<Seq<char>>) -> Option<Tree>
    decreases path.len(),
{
    if path.len() == 0 {
        Some(t)
    } else {
        let j = spec_entry_index(t.entries@, path.first());
        if j < 0 {
            None
        } else {
            match t.entries@[j].sub {
                Some(sub) => spec_dir_at(sub, path.drop_first()),
                None => None,
            }
        }
    }
}

/// The document of the entry that `path` names: the last segment is looked up
/// as an entry of the directory the other segments lead to.
pub open spec fn spec_file_doc(t: Tree, path: Seq<Seq<char>>) -> Option<DataValue>
    recommends
        path.len() > 0,
{
    match spec_dir_at(t, path.drop_last()) {
        Some(d) => {
            let j = spec_entry_index(d.entries@, path.last());
            if j < 0 {
                None
            } else {
                d.entries@[j].doc
            }
        },
        None => None,
    }
}

/// The entry names of a directory, in order.
pub open spec fn spec_entry_names(entries: Seq<TreeEntry>) -> Seq<Seq<char>> {
    Seq::new(entries.len(), |i: int| entries[i].name@)
}

/// Index of the first entry named `name`, if any.
pub(crate) fn entry_index_of(entries: &Vec<TreeEntry>, name: &String) -> (r: Option<usize>)
    ensures
        match r {
            Some(j) => j < entries@.len() && spec_entry_index(entries@, name@) == j as int,
            None => spec_entry_index(entries@, name@) == -1,
        },
{
    let mut i: usize = 0;
    while i < entries.len()
        invariant
            i <= entries@.len(),
            forall|j: int| 0 <= j < i ==> (#[trigger] entries@[j]).name@ != name@,
        decreases entries@.len() - i,
    {
        if entries[i].name == *name {
            proof {
                lemma_entry_index_at(entries@, name@, i as int);
            }
            return Some(i);
        }
        i = i + 1;
    }
    proof {
        lemma_entry_index_none(entries@, name@);
    }
    None
}

/// Walk the path segments `from .. upto` downward from `t`.
pub(crate) fn dir_walk<'a>(t: &'a Tree, path: &Vec<String>, from: usize, upto: usize) -> (r: Option<
    &'a Tree,
>)
    requires
        from <= upto <= path@.len(),
    ensures
        match r {
            Some(d) => spec_dir_at(*t, path.deep_view().subrange(from as int, upto as int))
                == Some(*d),
            None => spec_dir_at(*t, path.deep_view().subrange(from as int, upto as int)) is None,
        },
    decreases upto - from,
{
    let ghost rest = path.deep_view().subrange(from as int, upto as int);
    if from == upto {
        return Some(t);
    }
    proof {
        assert(rest.first() == path.deep_view()[from as int]);
        assert(rest.drop_first() =~= path.deep_view().subrange(from as int + 1, upto as int));
    }
    match entry_index_of(&t.entries, &path[from]) {
        Some(j) => match &t.entries[j].sub {
            Some(sub) => dir_walk(sub, path, from + 1, upto),
            None => None,
        },
        None => None,
    }
}

} // verus!

//! The cursor: a position in the document store while resolving data.
//!
//! Resolution starts at the root with the full address and repeatedly
//! descends, alternating between a file position (`base.<ext>` is consulted)
//! and a directory position (`base/index.<ext>` is consulted), consuming one
//! address segment per directory step.  Reads closer to the root see the
//! remaining address as a path into their document, so broad documents can
//! carry data for deep addresses.

use vstd::prelude::*;

verus! {

use crate::DataResolverError;
use crate::SpecErr;
use crate::tree::Tree;
use crate::tree::dir_walk;
use crate::tree::entry_index_of;
use crate::tree::spec_dir_at;
use crate::tree::spec_entry_names;
use crate::tree::spec_file_doc;
use crate::values::SpecValue;
use crate::values::DataValue;
use crate::values::get_sub_value_at_address;
use crate::values::spec_get_sub;

/// Whether the cursor stands on a document position or a directory position.
#[derive(Clone, Copy, Debug, PartialEq, Eq, Structural)]
pub enum Level {
    Dir,
    File,
}

/// A position in the document store: the path walked so far, the address
/// still to be consumed, and the file-or-directory phase.
#[derive(Debug)]
pub struct DataPath {
    pub level: Level,
    pub path: Vec<String>,
    pub address: Vec<String>,
}

/// What a read at the given position yields: the document visible there,
/// narrowed to the remaining address.
pub open spec fn spec_value_at(
    t: Tree,
    level: Level,
    path: Seq<Seq<char>>,
    addr: Seq<Seq<char>>,
) -> Result<SpecValue, SpecErr> {
    match level {
        Level::Dir => match spec_dir_at(t, path) {
            Some(d) => match d.index {
                Some(doc) => match spec_get_sub(doc@, addr) {
                    Ok(v) => Ok(v),
                    Err(k) => Err(SpecErr::KeyNotFound(k)),
                },
                None => Err(SpecErr::DataNotFound),
            },
            None => Err(SpecErr::DataNotFound),
        },
        Level::File => {
            if path.len() == 0 {
                Err(SpecErr::EmptyPathAccess)
            } else {
                match spec_file_doc(t, path) {
                    Some(doc) => match spec_get_sub(doc@, addr) {
                        Ok(v) => Ok(v),
                        Err(k) => Err(SpecErr::KeyNotFound(k)),
                    },
                    None => Err(SpecErr::DataNotFound),
                }
            }
        },
    }
}

impl DataPath {
    /// A cursor is exhausted when it stands on a directory position with no
    /// address left: only a whole-document or a directory read remains.
    pub open spec fn spec_done(&self) -> bool {
        self.level is Dir && self.address@.len() == 0
    }

    /// Descent steps still possible: one per remaining address segment plus
    /// the pending file-to-directory switch.
    pub open spec fn measure(&self) -> int {
        2 * self.address@.len() + if self.level is File {
            1int
        } else {
            0int
        }
    }

    /// A fresh cursor: directory position at the store root, full address.
    pub fn new(address: Vec<String>) -> (r: DataPath)
        ensures
            r.level is Dir,
            r.path@.len() == 0,
            r.address == address,
    {
        DataPath { level: Level::Dir, path: Vec::new(), address }
    }

    /// Whether this cursor is exhausted.
    pub fn done(&self) -> (r: bool)
        ensures
            r == self.spec_done(),
    {
        match self.level {
            Level::File => false,
            Level::Dir => self.address.len() == 0,
        }
    }

    /// Step to the next position in place: a file position re-enters its
    /// directory, a directory position consumes one address segment, and an
    /// exhausted cursor stays put.
    pub fn next(&mut self)
        ensures
            old(self).level is File ==> final(self).level is Dir
                && final(self).path == old(self).path
                && final(self).address == old(self).address,
            old(self).level is Dir && old(self).address@.len() > 0 ==> final(self).level is File
                && final(self).path@ == old(self).path@.push(old(self).address@[0])
                && final(self).address@ == old(self).address@.drop_first(),
            old(self).spec_done() ==> *final(self) == *old(self),
    {
        match self.level {
            Level::File => {
                self.level = Level::Dir;
            },
            Level::Dir => {
                if self.address.len() > 0 {
                    let head = self.address.remove(0);
                    self.path.push(head);
                    self.level = Level::File;
                    proof {
                        assert(final(self).address@ =~= old(self).address@.drop_first());
                    }
                }
            },
        }
    }

    /// Step to the next position, detecting dead ends: a file position whose
    /// path is not a directory of `tree` has nothing further to offer, and an
    /// exhausted cursor has nowhere to go.
    pub fn descend(self, tree: &Tree) -> (r: Option<DataPath>)
        ensures
            self.spec_done() ==> r is None,
            self.level is File && spec_dir_at(*tree, self.path.deep_view()) is None ==> r is None,
            self.level is File && spec_dir_at(*tree, self.path.deep_view()) is Some ==> (r
                matches Some(d) && d.level is Dir && d.path == self.path && d.address
                == self.address),
            self.level is Dir && self.address@.len() > 0 ==> (r matches Some(d) && d.level is File
                && d.path@ == self.path@.push(self.address@[0]) && d.address@
                == self.address@.drop_first()),
    {
        let mut s = self;
        match s.level {
            Level::File => {
                proof {
                    assert(s.path.deep_view().subrange(0, s.path@.len() as int)
                        =~= s.path.deep_view());
                }
                match dir_walk(tree, &s.path, 0, s.path.len()) {
                    Some(_) => {
                        s.level = Level::Dir;
                        Some(s)
                    },
                    None => None,
                }
            },
            Level::Dir => {
                if s.address.len() > 0 {
                    let ghost s0 = s;
                    let head = s.address.remove(0);
                    s.path.push(head);
                    s.level = Level::File;
                    proof {
                        assert(s.address@ =~= s0.address@.drop_first());
                    }
                    Some(s)
                } else {
                    None
                }
            },
        }
    }

    /// A file-position cursor one name below this one, with the same address:
    /// the root of an independently resolved child.
    pub fn join(&self, tail: &str) -> (r: DataPath)
        ensures
            r.level is File,
            r.path.deep_view() == self.path.deep_view().push(tail@),
            r.address.deep_view() == self.address.deep_view(),
            r.address@.len() == self.address@.len(),
    {
        let mut path = clone_strings(&self.path);
        path.push(tail.to_owned());
        let address = clone_strings(&self.address);
        let r = DataPath { level: Level::File, path, address };
        proof {
            assert(r.path.deep_view() =~= self.path.deep_view().push(tail@));
            assert(r.address.deep_view() =~= self.address.deep_view());
        }
        r
    }

    /// Read the document visible at the current position, narrowed to the
    /// remaining address.  Absence of a directory or document on the way is
    /// reported as [`DataResolverError::DataNotFound`]; a missing address key
    /// inside the document names that key.
    pub fn value(&self, tree: &Tree) -> (r: Result<DataValue, DataResolverError>)
        ensures
            match spec_value_at(*tree, self.level, self.path.deep_view(), self.address.deep_view()) {
                Ok(v) => r matches Ok(w) && w@ == v,
                Err(e) => r matches Err(e2) && e2@ == e,
            },
    {
        match self.level {
            Level::Dir => {
                proof {
                    assert(self.path.deep_view().subrange(0, self.path@.len() as int)
                        =~= self.path.deep_view());
                }
                match dir_walk(tree, &self.path, 0, self.path.len()) {
                    Some(d) => match &d.index {
                        Some(doc) => match get_sub_value_at_address(doc, &self.address) {
                            Ok(w) => Ok(w.clone()),
                            Err(e) => Err(e),
                        },
                        None => Err(DataResolverError::DataNotFound),
                    },
                    None => Err(DataResolverError::DataNotFound),
                }
            },
            Level::File => {
                if self.path.len() == 0 {
                    return Err(DataResolverError::EmptyDataPathAccess);
                }
                proof {
                    assert(self.path.deep_view().subrange(0, self.path@.len() - 1)
                        =~= self.path.deep_view().drop_last());
                    assert(self.path.deep_view().last()
                        == self.path.deep_view()[self.path@.len() - 1]);
                }
                match dir_walk(tree, &self.path, 0, self.path.len() - 1) {
                    Some(d) => {
                        match entry_index_of(&d.entries, &self.path[self.path.len() - 1]) {
                            Some(j) => match &d.entries[j].doc {
                                Some(doc) => match get_sub_value_at_address(doc, &self.address) {
                                    Ok(w) => Ok(w.clone()),
                                    Err(e) => Err(e),
                                },
                                None => Err(DataResolverError::DataNotFound),
                            },
                            None => Err(DataResolverError::DataNotFound),
                        }
                    },
                    None => Err(DataResolverError::DataNotFound),
                }
            },
        }
    }

    /// The names of the entries of the directory at the current path, in
    /// enumeration order; empty when the path is no directory of `tree`.
    pub fn filenames(&self, tree: &Tree) -> (r: Vec<String>)
        ensures
            match spec_dir_at(*tree, self.path.deep_view()) {
                Some(d) => r.deep_view() == spec_entry_names(d.entries@),
                None => r@.len() == 0,
            },
    {
        proof {
            assert(self.path.deep_view().subrange(0, self.path@.len() as int)
                =~= self.path.deep_view());
        }
        match dir_walk(tree, &self.path, 0, self.path.len()) {
            Some(d) => {
                let mut names: Vec<String> = Vec::new();
                let mut i: usize = 0;
                while i < d.entries.len()
                    invariant
                        i <= d.entries@.len(),
                        names@.len() == i,
                        forall|j: int| 0 <= j < i ==> (#[trigger] names@[j])@
                            == d.entries@[j].name@,
                    decreases d.entries@.len() - i,
                {
                    names.push(d.entries[i].name.clone());
                    i = i + 1;
                }
                proof {
                    assert forall|j: int| 0 <= j < names@.len() implies #[trigger] names.deep_view()[j]
                        == spec_entry_names(d.entries@)[j] by {
                        assert(names.deep_view()[j] == names@[j]@);
                        assert(spec_entry_names(d.entries@)[j] == d.entries@[j].name@);
                    }
                    assert(names.deep_view() =~= spec_entry_names(d.entries@));
                }
                names
            },
            None => Vec::new(),
        }
    }

    /// One file-position cursor per entry of the directory at the current
    /// path, each with the same address.
    pub fn sub_paths(&self, tree: &Tree) -> (r: Vec<DataPath>)
        ensures
            match spec_dir_at(*tree, self.path.deep_view()) {
                Some(d) => {
                    &&& r@.len() == d.entries@.len()
                    &&& forall|i: int| 0 <= i < r@.len() ==> {
                        &&& (#[trigger] r@[i]).level is File
                        &&& r@[i].path.deep_view() == self.path.deep_view().push(
                            d.entries@[i].name@,
                        )
                        &&& r@[i].address.deep_view() == self.address.deep_view()
                    }
                },
                None => r@.len() == 0,
            },
    {
        let names = self.filenames(tree);
        let mut r: Vec<DataPath> = Vec::new();
        let mut i: usize = 0;
        while i < names.len()
            invariant
                i <= names@.len(),
                r@.len() == i,
                forall|j: int| 0 <= j < i ==> {
                    &&& (#[trigger] r@[j]).level is File
                    &&& r@[j].path.deep_view() == self.path.deep_view().push(names@[j]@)
                    &&& r@[j].address.deep_view() == self.address.deep_view()
                },
            decreases names@.len() - i,
        {
            r.push(self.join(names[i].as_str()));
            i = i + 1;
        }
        proof {
            let sd = spec_dir_at(*tree, self.path.deep_view());
            match sd {
                Some(d) => {
                    assert(names.deep_view() == spec_entry_names(d.entries@));
                    assert(names@.len() == d.entries@.len());
                    assert forall|j: int| 0 <= j < r@.len() implies (#[trigger] r@[j]).level
                        is File && r@[j].path.deep_view() == self.path.deep_view().push(
                        d.entries@[j].name@,
                    ) && r@[j].address.deep_view() == self.address.deep_view() by {
                        assert(names@[j]@ == names.deep_view()[j]);
                        assert(spec_entry_names(d.entries@)[j] == d.entries@[j].name@);
                    }
                },
                None => {
                },
            }
        }
        r
    }

    /// The name at the current path's tip (the file stem the position was
    /// reached through), if the cursor has left the root.
    pub fn file_stem(&self) -> (r: Option<&String>)
        ensures
            self.path@.len() == 0 ==> r is None,
            self.path@.len() > 0 ==> (r matches Some(s) && s@ == self.path.deep_view().last()),
    {
        if self.path.len() == 0 {
            None
        } else {
            Some(&self.path[self.path.len() - 1])
        }
    }
}

/// A copy of a vector of strings, element for element.
pub(crate) fn clone_strings(v: &Vec<String>) -> (r: Vec<String>)
    ensures
        r@ == v@,
{
    let mut r: Vec<String> = Vec::new();
    let mut i: usize = 0;
    while i < v.len()
        invariant
            i <= v@.len(),
            r@.len() == i,
            forall|j: int| 0 <= j < i ==> #[trigger] r@[j] == v@[j],
        decreases v@.len() - i,
    {
        r.push(v[i].clone());
        i = i + 1;
    }
    proof {
        assert(r@ =~= v@);
    }
    r
}

} // verus!

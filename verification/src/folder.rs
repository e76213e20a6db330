//! The in-memory folder-tree model.
//!
//! A `Folder` holds a directory's base name, the non-ignored subdirectories
//! beneath it, and the names of the regular files directly inside it, both in
//! the order in which they were added (filesystem-enumeration order). The
//! tree is well formed when no folder anywhere in it has an ignored name as
//! a subfolder name.

use vstd::prelude::*;
use crate::ignore::is_ignored_name;
use crate::ignore::should_ignore;

verus! {

/// Represents a folder in the file system.
pub struct Folder {
    pub name: String,
    pub subfolders: Vec<Folder>,
    pub files: Vec<String>,
}

impl Folder {
    /// Well-formedness: every subfolder, at every depth, has a non-ignored
    /// name and is itself well formed.
    pub open spec fn wf(self) -> bool
        decreases self,
    {
        forall|i: int|
            0 <= i < self.subfolders@.len() ==> (!is_ignored_name(
                #[trigger] self.subfolders@[i].name@,
            ) && self.subfolders@[i].wf())
    }

    /// The height of the tree: 1 for a leaf, one more than the tallest
    /// subfolder otherwise.
    pub open spec fn height(self) -> nat
        decreases self, self.subfolders@.len() + 1,
    {
        1 + self.subs_height(0)
    }

    /// The tallest height among the subfolders at positions `i` and beyond.
    pub open spec fn subs_height(self, i: int) -> nat
        decreases self, self.subfolders@.len() - i,
    {
        if 0 <= i < self.subfolders@.len() {
            let h = self.subfolders@[i].height();
            let rest = self.subs_height(i + 1);
            if h > rest {
                h
            } else {
                rest
            }
        } else {
            0
        }
    }

    /// The number of folders in the tree, this one included.
    pub open spec fn count_folders(self) -> nat
        decreases self, self.subfolders@.len() + 1,
    {
        1 + self.subs_count_folders(0)
    }

    /// The folders in the subtrees at positions `i` and beyond.
    pub open spec fn subs_count_folders(self, i: int) -> nat
        decreases self, self.subfolders@.len() - i,
    {
        if 0 <= i < self.subfolders@.len() {
            self.subfolders@[i].count_folders() + self.subs_count_folders(i + 1)
        } else {
            0
        }
    }

    /// The number of file names in the tree, at every level.
    pub open spec fn count_files(self) -> nat
        decreases self, self.subfolders@.len() + 1,
    {
        self.files@.len() + self.subs_count_files(0)
    }

    /// The file names in the subtrees at positions `i` and beyond.
    pub open spec fn subs_count_files(self, i: int) -> nat
        decreases self, self.subfolders@.len() - i,
    {
        if 0 <= i < self.subfolders@.len() {
            self.subfolders@[i].count_files() + self.subs_count_files(i + 1)
        } else {
            0
        }
    }

    /// Whether `path`, read as a sequence of subfolder positions, leads to
    /// a node of this tree.
    pub open spec fn valid_path(self, path: Seq<int>) -> bool
        decreases path.len(),
    {
        path.len() == 0 || (0 <= path[0] < self.subfolders@.len()
            && self.subfolders@[path[0]].valid_path(path.drop_first()))
    }

    /// The node reached by following `path`, a sequence of subfolder
    /// positions; the node itself for the empty path.
    pub open spec fn subtree_at(self, path: Seq<int>) -> Folder
        decreases path.len(),
    {
        if path.len() == 0 {
            self
        } else {
            self.subfolders@[path[0]].subtree_at(path.drop_first())
        }
    }

    /// Creates an empty folder with the given name.
    pub fn new(name: String) -> (f: Folder)
        ensures
            f.name@ == name@,
            f.subfolders@ =~= Seq::<Folder>::empty(),
            f.files@ =~= Seq::<String>::empty(),
            f.wf(),
            f.height() == 1,
    {
        Folder { name, subfolders: Vec::new(), files: Vec::new() }
    }

    /// Records a regular file at this level, after any files already
    /// recorded. The name and the subfolders are untouched.
    pub fn add_file(&mut self, file_name: String)
        ensures
            final(self).name@ == old(self).name@,
            final(self).subfolders == old(self).subfolders,
            final(self).files@ == old(self).files@.push(file_name),
            old(self).wf() ==> final(self).wf(),
            final(self).height() == old(self).height(),
    {
        self.files.push(file_name);
        proof {
            lemma_same_subfolders_same_height(*old(self), *self);
        }
    }

    /// Adds a subdirectory's tree after any subfolders already recorded --
    /// unless the subdirectory's name is ignored, in which case the folder
    /// is left exactly as it was and the subtree is dropped entirely.
    pub fn add_subfolder(&mut self, sub: Folder)
        ensures
            final(self).name@ == old(self).name@,
            final(self).files == old(self).files,
            is_ignored_name(sub.name@) ==> *final(self) == *old(self),
            !is_ignored_name(sub.name@) ==> final(self).subfolders@ == old(
                self,
            ).subfolders@.push(sub),
            old(self).wf() && sub.wf() ==> final(self).wf(),
    {
        if !should_ignore(sub.name.as_str()) {
            let ghost before = *self;
            self.subfolders.push(sub);
            proof {
                if before.wf() && sub.wf() {
                    assert forall|i: int| 0 <= i < self.subfolders@.len() implies (!is_ignored_name(
                        #[trigger] self.subfolders@[i].name@,
                    ) && self.subfolders@[i].wf()) by {
                        if i < before.subfolders@.len() {
                            assert(self.subfolders@[i] == before.subfolders@[i]);
                        } else {
                            assert(self.subfolders@[i] == sub);
                        }
                    }
                }
            }
        }
    }
}

/// In a well-formed tree, no node below the root bears an ignored name:
/// whatever path of subfolder positions is followed, the node it reaches
/// has a non-ignored name (and is well formed in turn).
pub proof fn lemma_no_ignored_anywhere(f: Folder, path: Seq<int>)
    requires
        f.wf(),
        f.valid_path(path),
        path.len() > 0,
    ensures
        !is_ignored_name(f.subtree_at(path).name@),
        f.subtree_at(path).wf(),
    decreases path.len(),
{
    let child = f.subfolders@[path[0]];
    assert(!is_ignored_name(child.name@) && child.wf());
    if path.len() == 1 {
        let rest = path.drop_first();
        assert(child.subtree_at(rest) == child);
        assert(f.subtree_at(path) == child.subtree_at(rest));
    } else {
        lemma_no_ignored_anywhere(child, path.drop_first());
    }
}

/// Every subfolder's tree is strictly lower than the folder holding it.
pub proof fn lemma_child_height(f: Folder, i: int)
    requires
        0 <= i < f.subfolders@.len(),
    ensures
        f.subfolders@[i].height() < f.height(),
{
    lemma_subs_height_ge(f, 0, i);
}

proof fn lemma_subs_height_ge(f: Folder, j: int, i: int)
    requires
        0 <= j <= i < f.subfolders@.len(),
    ensures
        f.subs_height(j) >= f.subfolders@[i].height(),
    decreases i - j,
{
    if j < i {
        lemma_subs_height_ge(f, j + 1, i);
    }
}

/// Two folders with the same subfolder list have the same height.
proof fn lemma_same_subfolders_same_height(a: Folder, b: Folder)
    requires
        a.subfolders == b.subfolders,
    ensures
        a.height() == b.height(),
{
    lemma_same_subfolders_same_subs_height(a, b, 0);
}

proof fn lemma_same_subfolders_same_subs_height(a: Folder, b: Folder, i: int)
    requires
        a.subfolders == b.subfolders,
    ensures
        a.subs_height(i) == b.subs_height(i),
    decreases a.subfolders@.len() - i,
{
    if 0 <= i < a.subfolders@.len() {
        lemma_same_subfolders_same_subs_height(a, b, i + 1);
    }
}

} // verus!

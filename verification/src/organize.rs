//! The scanner/mover core: per-entry decisions and the running state of one
//! organizing pass.  Directories and the running executable are left alone;
//! every other entry is classified by extension and given a collision-free
//! destination name inside its category's folder.  The surrounding binary
//! performs the actual filesystem moves and reports each success back.

use vstd::prelude::*;

use crate::category::Category;
use crate::category::get_category;
use crate::category::spec_category;
use crate::category::spec_category_index;
use crate::naming::ext_of;
use crate::naming::extension_lower;
use crate::naming::lower_seq;
use crate::resolve::get_unique_path;
use crate::resolve::is_resolved;
use crate::resolve::names_of;
use crate::resolve::taken;

verus! {

/// Why a target path is refused before any file is touched.
#[derive(Clone, Copy, PartialEq, Eq, Structural, Debug)]
pub enum TargetError {
    /// The path does not exist.
    Missing,
    /// The path exists but is not a directory.
    NotADirectory,
}

/// The fatal validation done before any file is touched: the target must
/// exist and must be a directory.  Anything else ends the run with an error
/// before any folder is created or file moved.
pub fn validate_target(path_exists: bool, path_is_dir: bool) -> (r: Result<(), TargetError>)
    ensures
        r is Ok <==> path_exists && path_is_dir,
        !path_exists ==> r == Result::<(), TargetError>::Err(TargetError::Missing),
        path_exists && !path_is_dir ==> r == Result::<(), TargetError>::Err(
            TargetError::NotADirectory,
        ),
{
    if !path_exists {
        Err(TargetError::Missing)
    } else if !path_is_dir {
        Err(TargetError::NotADirectory)
    } else {
        Ok(())
    }
}

/// What the scanner decides for one directory entry.
pub enum EntryAction {
    /// Directories at the top level are never moved or descended into.
    SkipDirectory,
    /// The running executable is never moved.
    SkipSelf,
    /// Move the file into `category`'s folder, under `dest_name`.
    Move { category: Category, dest_name: String },
}

/// The category an entry is filed under: its extension, lowercased, looked
/// up in the classification table.
pub open spec fn spec_classify(filename: Seq<char>) -> Category {
    spec_category(lower_seq(ext_of(filename)))
}

/// Classifies a file by its name, matching the extension without regard to
/// ASCII case.
pub fn classify_filename(filename: &str) -> (c: Category)
    ensures
        c == spec_classify(filename@),
{
    let ext = extension_lower(filename);
    get_category(ext.as_str())
}

/// The state of one organizing pass: for each category, in the fixed
/// category order, the names now present in its folder, and the count of
/// files moved so far.
pub struct Organizer {
    /// One folder listing per category, in the fixed category order.
    pub folders: Vec<Vec<String>>,
    /// How many files have been moved so far.
    pub moved: u64,
}

impl Organizer {
    /// The state is well formed when it holds one listing per category.
    pub open spec fn wf(self) -> bool {
        self.folders@.len() == 7
    }

    /// The names in a category's folder.
    pub open spec fn folder(self, c: Category) -> Seq<Seq<char>> {
        names_of(self.folders@[spec_category_index(c)]@)
    }

    /// Room for at least one more name in every folder listing; a machine
    /// limit that every real directory satisfies.
    pub open spec fn has_room(self) -> bool {
        forall|i: int| 0 <= i < self.folders@.len() ==> self.folders@[i]@.len() < usize::MAX
    }

    /// Starts a pass from the current listings of the seven category
    /// folders, empty where a folder does not exist yet.
    pub fn new(folders: Vec<Vec<String>>) -> (r: Organizer)
        requires
            folders@.len() == 7,
        ensures
            r.wf(),
            r.moved == 0,
            r.folders == folders,
    {
        Organizer { folders, moved: 0 }
    }

    /// Checks the machine limit under which an entry can be planned.
    pub fn has_room_now(&self) -> (b: bool)
        requires
            self.wf(),
        ensures
            b == self.has_room(),
    {
        let mut i: usize = 0;
        while i < self.folders.len()
            invariant
                self.wf(),
                i <= self.folders@.len(),
                forall|k: int| 0 <= k < i ==> self.folders@[k]@.len() < usize::MAX,
            decreases self.folders@.len() - i,
        {
            if self.folders[i].len() == usize::MAX {
                return false;
            }
            i += 1;
        }
        true
    }

    /// Decides what to do with one directory entry.  Directories and the
    /// running executable are left alone; a file is classified by its
    /// extension and given the first free name in its category's folder.
    pub fn plan(&self, filename: &str, is_dir: bool, is_self_exe: bool) -> (a: EntryAction)
        requires
            self.wf(),
            self.has_room(),
        ensures
            is_dir ==> a == EntryAction::SkipDirectory,
            !is_dir && is_self_exe ==> a == EntryAction::SkipSelf,
            !is_dir && !is_self_exe ==> (a matches EntryAction::Move { category, dest_name }
                && category == spec_classify(filename@) && is_resolved(
                self.folder(category),
                filename@,
                dest_name@,
            ) && !taken(self.folder(category), dest_name@)),
    {
        if is_dir {
            EntryAction::SkipDirectory
        } else if is_self_exe {
            EntryAction::SkipSelf
        } else {
            let category = classify_filename(filename);
            let idx = category.index();
            let dest_name = get_unique_path(&self.folders[idx], filename);
            EntryAction::Move { category, dest_name }
        }
    }

    /// Records one successful move: the destination name now occupies the
    /// category's folder, and the count of moved files goes up by one.  The
    /// count's bound is a machine limit.
    pub fn commit(&mut self, category: &Category, dest_name: String)
        requires
            old(self).wf(),
            old(self).moved < u64::MAX,
        ensures
            final(self).wf(),
            final(self).moved == old(self).moved + 1,
            final(self).folder(*category) == old(self).folder(*category).push(dest_name@),
            forall|c: Category|
                spec_category_index(c) != spec_category_index(*category) ==> final(self).folder(c)
                    == old(self).folder(c),
    {
        let idx = category.index();
        let mut folder = self.folders.remove(idx);
        folder.push(dest_name);
        self.folders.insert(idx, folder);
        self.moved = self.moved + 1;
        proof {
            assert(self.folders@ =~= old(self).folders@.update(idx as int, folder));
            assert(self.folder(*category) =~= old(self).folder(*category).push(dest_name@));
            assert forall|c: Category|
                spec_category_index(c) != spec_category_index(*category) implies self.folder(c)
                == old(self).folder(c) by {
                assert(self.folders@[spec_category_index(c)] == old(self).folders@[
                    spec_category_index(c)]);
            }
        }
    }
}

} // verus!

//! The record emitted for each discovered artifact root.

use vstd::prelude::*;

verus! {

/// One discovered artifact root: its absolute path, the name of the project
/// directory that owns it, the modification time of the directory's own
/// metadata (seconds since the Unix epoch), and the recursive total of all
/// regular file bytes under it.
pub struct PathInfo {
    pub path: String,
    pub project: String,
    pub last_modified_secs: u64,
    pub size: u64,
}

/// The mathematical image of a record. `size` is a `nat` so that the walk's
/// specification can speak of trees whose total does not fit in a `u64`.
pub struct PathInfoView {
    pub path: Seq<char>,
    pub project: Seq<char>,
    pub last_modified_secs: u64,
    pub size: nat,
}

impl View for PathInfo {
    type V = PathInfoView;

    open spec fn view(&self) -> PathInfoView {
        PathInfoView {
            path: self.path@,
            project: self.project@,
            last_modified_secs: self.last_modified_secs,
            size: self.size as nat,
        }
    }
}

impl PathInfo {
    /// An owned copy equal to this record.
    pub fn clone_record(&self) -> (r: PathInfo)
        ensures
            r == *self,
    {
        PathInfo {
            path: self.path.clone(),
            project: self.project.clone(),
            last_modified_secs: self.last_modified_secs,
            size: self.size,
        }
    }
}

/// The views of a sequence of records, element by element.
pub open spec fn views_of(s: Seq<PathInfo>) -> Seq<PathInfoView> {
    s.map_values(|p: PathInfo| p@)
}

} // verus!

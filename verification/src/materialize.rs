//! Materialization planning: turns the decoded, substituted model into the
//! ordered actions that create directories and files and write contents
//! under a destination root.
//!
//! The plan is strictly two-phase: every path entry, in list order, becomes
//! a create action first; content entries follow, in list order. A content
//! entry whose target does not exist on disk is skipped, not an error. The
//! caller performs each action in order and aborts on the first failure,
//! with no rollback; this module itself never touches a filesystem.

use vstd::prelude::*;

use crate::model::{ContentEntry, PathEntry, PathError, PathKind};
use crate::path::{escapes_root, get_real_path, join_path, path_escapes};

verus! {

/// One phase-one action: create a directory (tolerating one that already
/// exists) or create an empty file, at an already-joined real path.
#[derive(Debug)]
pub enum PathAction {
    MkDir(Vec<u8>),
    MkFile(Vec<u8>),
}

/// One phase-two action: overwrite the file at an already-joined real path
/// with the payload bytes.
#[derive(Debug)]
pub struct WriteAction {
    pub path: Vec<u8>,
    pub payload: Vec<u8>,
}

/// Whether `a` is exactly the action that entry `e` calls for under `root`.
pub open spec fn action_matches(a: PathAction, root: Seq<u8>, e: PathEntry) -> bool {
    match e.kind {
        PathKind::Dir => a matches PathAction::MkDir(p) && p@ == join_path(root, e.path@),
        PathKind::File => a matches PathAction::MkFile(p) && p@ == join_path(root, e.path@),
    }
}

/// Plan the path phase: one create action per path entry, in list order,
/// each at the entry's real path under `root`. Any entry whose relative
/// path would escape the root aborts the whole plan.
pub fn plan_paths(root: &Vec<u8>, paths: &Vec<PathEntry>) -> (r: Result<Vec<PathAction>, PathError>)
    ensures
        r is Ok <==> (forall|i: int| 0 <= i < paths@.len() ==> !escapes_root(#[trigger] paths@[i].path@)),
        r matches Ok(v) ==> v@.len() == paths@.len() && (forall|i: int|
            0 <= i < paths@.len() ==> action_matches(#[trigger] v@[i], root@, paths@[i])),
        r is Err ==> r == Err::<Vec<PathAction>, PathError>(PathError::EscapesRoot),
{
    let mut out: Vec<PathAction> = Vec::new();
    let mut i: usize = 0;
    while i < paths.len()
        invariant
            i <= paths@.len(),
            out@.len() == i,
            forall|k: int| 0 <= k < i ==> !escapes_root(#[trigger] paths@[k].path@),
            forall|k: int| 0 <= k < i ==> action_matches(#[trigger] out@[k], root@, paths@[k]),
        decreases paths@.len() - i,
    {
        if path_escapes(&paths[i].path) {
            return Err(PathError::EscapesRoot);
        }
        let target = get_real_path(root, &paths[i].path);
        let action = match paths[i].kind {
            PathKind::Dir => PathAction::MkDir(target),
            PathKind::File => PathAction::MkFile(target),
        };
        out.push(action);
        i = i + 1;
    }
    Ok(out)
}

/// Plan one content entry of the content phase, given whether its target
/// path exists on disk: the write action when it exists, nothing when it
/// does not (the entry is silently skipped), and an error when the entry's
/// relative path would escape the root.
pub fn content_action(root: &Vec<u8>, entry: &ContentEntry, exists: bool) -> (r: Result<
    Option<WriteAction>,
    PathError,
>)
    ensures
        r is Err <==> escapes_root(entry.file_path@),
        r is Err ==> r == Err::<Option<WriteAction>, PathError>(PathError::EscapesRoot),
        r matches Ok(w) ==> (w is None <==> !exists),
        r matches Ok(w) ==> w matches Some(a) ==> a.path@ == join_path(root@, entry.file_path@)
            && a.payload@ == entry.payload@,
{
    if path_escapes(&entry.file_path) {
        return Err(PathError::EscapesRoot);
    }
    if !exists {
        return Ok(None);
    }
    let path = get_real_path(root, &entry.file_path);
    let payload = entry.payload.clone();
    Ok(Some(WriteAction { path, payload }))
}

} // verus!

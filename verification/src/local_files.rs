//! Deleting an item of a local scan: only strictly inside the scanned
//! folder, and without following a link in the item's own name.

use vstd::prelude::*;
use crate::external::{path_eq, path_file_name, path_join, path_parent, path_starts_with, spec_path_eq, spec_path_file_name, spec_path_join, spec_path_parent, spec_path_starts_with};
use crate::text::to_owned_string;

verus! {

/// The parent folder and the name of an item, which is resolved by
/// resolving the parent only.
pub fn split_item_path(item_path: &str) -> (r: Result<(String, String), String>)
    ensures
        spec_path_parent(item_path@) is None ==> (r matches Err(e) && e@ == "Item path has no parent directory"@),
        spec_path_parent(item_path@) is Some && spec_path_file_name(item_path@) is None ==> (r matches Err(e)
            && e@ == "Item path has no file name"@),
        r matches Ok((p, n)) ==> spec_path_parent(item_path@) == Some(p@) && spec_path_file_name(item_path@) == Some(n@),
        r is Ok <==> (spec_path_parent(item_path@) is Some && spec_path_file_name(item_path@) is Some),
{
    let parent = match path_parent(item_path) {
        Some(p) => p,
        None => {
            return Err(to_owned_string("Item path has no parent directory"));
        },
    };
    let name = match path_file_name(item_path) {
        Some(n) => n,
        None => {
            return Err(to_owned_string("Item path has no file name"));
        },
    };
    Ok((parent, name))
}

/// An item may be deleted only strictly below the resolved scan root.
pub fn check_delete_target(root: &str, item: &str) -> (r: Result<(), String>)
    ensures
        r is Ok <==> (!spec_path_eq(item@, root@) && spec_path_starts_with(item@, root@)),
        r matches Err(e) ==> e@ == "Refusing to delete outside the scanned path or delete its root"@,
{
    if path_eq(item, root) || !path_starts_with(item, root) {
        Err(to_owned_string("Refusing to delete outside the scanned path or delete its root"))
    } else {
        Ok(())
    }
}

/// How an item is deleted, by what it is.
#[derive(Clone, Copy, PartialEq, Eq, Structural, Debug)]
pub enum DeleteAction {
    /// A file or a link: removed itself.
    RemoveFile,
    /// A folder: removed with its contents.
    RemoveFolder,
    /// Anything else is refused.
    Refuse,
}

/// Chooses how an item is deleted: links and files are removed, folders
/// with their contents; devices and other special files are refused.
pub fn delete_action(is_symlink: bool, is_file: bool, is_dir: bool) -> (r: DeleteAction)
    ensures
        r == (if is_symlink || is_file {
            DeleteAction::RemoveFile
        } else if is_dir {
            DeleteAction::RemoveFolder
        } else {
            DeleteAction::Refuse
        }),
{
    if is_symlink || is_file {
        DeleteAction::RemoveFile
    } else if is_dir {
        DeleteAction::RemoveFolder
    } else {
        DeleteAction::Refuse
    }
}

/// The error for a special file.
pub fn refusal_message() -> (r: String)
    ensures
        r@ == "Refusing to delete a device or other special file"@,
{
    to_owned_string("Refusing to delete a device or other special file")
}

/// A path lies strictly below the root: under it, and not the root itself.
pub open spec fn strictly_below(item: Seq<char>, root: Seq<char>) -> bool {
    !spec_path_eq(item, root) && spec_path_starts_with(item, root)
}

/// What deleting an item decides, from the resolved scan root, the resolved
/// parent of the item, its name, and what reading its metadata (without
/// following a link) gave: whether it is a link, a file, a folder, or the
/// error of reading it.
pub open spec fn delete_outcome(
    root: Seq<char>,
    parent: Seq<char>,
    name: Seq<char>,
    kind: Result<(bool, bool, bool), Seq<char>>,
) -> Result<DeleteAction, Seq<char>> {
    let item = spec_path_join(parent, name);
    if spec_path_eq(item, root) || !spec_path_starts_with(item, root) {
        Err("Refusing to delete outside the scanned path or delete its root"@)
    } else {
        match kind {
            Err(e) => Err("Could not inspect item: "@ + e),
            Ok((is_symlink, is_file, is_dir)) => if is_symlink || is_file {
                Ok(DeleteAction::RemoveFile)
            } else if is_dir {
                Ok(DeleteAction::RemoveFolder)
            } else {
                Err("Refusing to delete a device or other special file"@)
            },
        }
    }
}

/// Decides the deletion of an item: the resolved parent joined with the
/// item's own name must lie strictly below the resolved scan root; a link
/// or a file is removed itself (a link is never followed), a folder with
/// its contents, and anything else is refused.
pub fn decide_delete(root: &str, parent: &str, name: &str, kind: Result<(bool, bool, bool), String>) -> (r: Result<DeleteAction, String>)
    ensures
        match r {
            Ok(a) => delete_outcome(root@, parent@, name@, match kind {
                Ok(k) => Ok(k),
                Err(e) => Err(e@),
            }) == Ok::<DeleteAction, Seq<char>>(a) && a != DeleteAction::Refuse,
            Err(e) => delete_outcome(root@, parent@, name@, match kind {
                Ok(k) => Ok(k),
                Err(e) => Err(e@),
            }) == Err::<DeleteAction, Seq<char>>(e@),
        },
        !strictly_below(spec_path_join(parent@, name@), root@) ==> (r matches Err(e)
            && e@ == "Refusing to delete outside the scanned path or delete its root"@),
        strictly_below(spec_path_join(parent@, name@), root@) ==> match kind {
            Err(m) => r matches Err(e) && e@ == "Could not inspect item: "@ + m@,
            Ok((is_symlink, is_file, is_dir)) => if is_symlink || is_file {
                r matches Ok(a) && a == DeleteAction::RemoveFile
            } else if is_dir {
                r matches Ok(a) && a == DeleteAction::RemoveFolder
            } else {
                r matches Err(e) && e@ == "Refusing to delete a device or other special file"@
            },
        },
{
    let item = path_join(parent, name);
    check_delete_target(root, item.as_str())?;
    match kind {
        Err(e) => {
            let mut m = to_owned_string("Could not inspect item: ");
            crate::text::push_str(&mut m, e.as_str());
            Err(m)
        },
        Ok((is_symlink, is_file, is_dir)) => match delete_action(is_symlink, is_file, is_dir) {
            DeleteAction::Refuse => Err(refusal_message()),
            a => Ok(a),
        },
    }
}

/// Deleting an item: nothing outside the scanned folder, nor the folder
/// itself, is ever deleted; below it, a folder is removed with its
/// contents, a file or a link is removed itself (a link is never refused or
/// followed), anything else is refused, and an item that cannot be
/// inspected is not deleted.
pub proof fn law_delete_decisions(root: Seq<char>, parent: Seq<char>, name: Seq<char>, kind: Result<(bool, bool, bool), Seq<char>>)
    ensures
        !strictly_below(spec_path_join(parent, name), root) ==> delete_outcome(root, parent, name, kind)
            == Err::<DeleteAction, Seq<char>>("Refusing to delete outside the scanned path or delete its root"@),
        strictly_below(spec_path_join(parent, name), root) && kind == Ok::<(bool, bool, bool), Seq<char>>((false, false, true))
            ==> delete_outcome(root, parent, name, kind) == Ok::<DeleteAction, Seq<char>>(DeleteAction::RemoveFolder),
        strictly_below(spec_path_join(parent, name), root) && (kind matches Ok((l, f, d)) && (l || f))
            ==> delete_outcome(root, parent, name, kind) == Ok::<DeleteAction, Seq<char>>(DeleteAction::RemoveFile),
        strictly_below(spec_path_join(parent, name), root) && kind == Ok::<(bool, bool, bool), Seq<char>>((false, false, false))
            ==> delete_outcome(root, parent, name, kind) == Err::<DeleteAction, Seq<char>>(
            "Refusing to delete a device or other special file"@,
        ),
        forall|m: Seq<char>| strictly_below(spec_path_join(parent, name), root) && kind == Err::<(bool, bool, bool), Seq<char>>(m)
            ==> delete_outcome(root, parent, name, kind) == Err::<DeleteAction, Seq<char>>("Could not inspect item: "@ + m),
        delete_outcome(root, parent, name, kind) != Ok::<DeleteAction, Seq<char>>(DeleteAction::Refuse),
{
}

} // verus!

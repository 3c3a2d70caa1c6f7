//! Which temporary files a result may be read from.

use vstd::prelude::*;
use crate::external::{path_eq, path_file_name, path_parent, spec_path_eq, spec_path_file_name, spec_path_parent};
use crate::text::{chars_of, decimal_seq, ends_with_seq, push_chars, push_str, starts_with_seq, to_owned_string, u64_to_decimal};

verus! {

/// The start of the name of a result file that this process wrote for a
/// service (`onedrive`, `google-drive`, `ssh`).
pub fn result_prefix(service: &str, pid: u32) -> (r: String)
    ensures
        r@ == "duckdisk-"@ + service@ + "-scan-"@ + decimal_seq(pid as nat) + "-"@,
{
    let mut s = to_owned_string("duckdisk-");
    push_str(&mut s, service);
    push_str(&mut s, "-scan-");
    let d = u64_to_decimal(pid as u64);
    push_chars(&mut s, d.as_slice());
    push_str(&mut s, "-");
    s
}

/// A result file must sit directly in the temporary directory, and its
/// name must start with the prefix and end with `.json`.
pub open spec fn result_file_check(path: Seq<char>, prefix: Seq<char>, temp_dir: Seq<char>) -> Result<(), Seq<char>> {
    match spec_path_file_name(path) {
        None => Err("Temporary result path has no valid file name"@),
        Some(name) => if !(spec_path_parent(path) matches Some(p) && spec_path_eq(p, temp_dir))
            || !starts_with_seq(name, prefix) || !ends_with_seq(name, ".json"@) {
            Err("Refusing to read an unrecognized temporary result file"@)
        } else {
            Ok(())
        },
    }
}

/// Checks where a result file is and what it is called.
pub fn validate_result_file(path: &str, prefix: &str, temp_dir: &str) -> (r: Result<(), String>)
    ensures
        match r {
            Ok(()) => result_file_check(path@, prefix@, temp_dir@) is Ok,
            Err(e) => result_file_check(path@, prefix@, temp_dir@) == Err::<(), Seq<char>>(e@),
        },
{
    let name = match path_file_name(path) {
        Some(n) => n,
        None => {
            return Err(to_owned_string("Temporary result path has no valid file name"));
        },
    };
    let in_temp = match path_parent(path) {
        Some(p) => path_eq(p.as_str(), temp_dir),
        None => false,
    };
    let n = chars_of(name.as_str());
    let p = chars_of(prefix);
    let j = chars_of(".json");
    if !in_temp || !crate::text::starts_with(n.as_slice(), p.as_slice()) || !crate::text::ends_with(
        n.as_slice(),
        j.as_slice(),
    ) {
        return Err(to_owned_string("Refusing to read an unrecognized temporary result file"));
    }
    Ok(())
}

/// The file itself must be a regular file, not a link.
pub fn check_regular_file(is_symlink: bool, is_file: bool) -> (r: Result<(), String>)
    ensures
        r is Ok <==> (!is_symlink && is_file),
        r matches Err(e) ==> e@ == "Temporary result must be a regular file"@,
{
    if is_symlink || !is_file {
        Err(to_owned_string("Temporary result must be a regular file"))
    } else {
        Ok(())
    }
}

/// The whole check of a result file: its place and name, then what reading
/// its metadata gave, whether it is a link and whether it is a regular file,
/// or the error of reading it.
pub open spec fn result_file_outcome(
    path: Seq<char>,
    prefix: Seq<char>,
    temp_dir: Seq<char>,
    kind: Result<(bool, bool), Seq<char>>,
) -> Result<(), Seq<char>> {
    match result_file_check(path, prefix, temp_dir) {
        Err(e) => Err(e),
        Ok(()) => match kind {
            Err(e) => Err(e),
            Ok((is_symlink, is_file)) => if !is_symlink && is_file {
                Ok(())
            } else {
                Err("Temporary result must be a regular file"@)
            },
        },
    }
}

/// A result file may be read only when it sits directly in the temporary
/// directory, is named with the prefix and `.json`, and is a regular file,
/// not a link; `kind` is what reading its metadata (without following a
/// link) gave.
pub fn check_result_file(path: &str, prefix: &str, temp_dir: &str, kind: Result<(bool, bool), String>) -> (r: Result<(), String>)
    ensures
        match r {
            Ok(()) => result_file_outcome(path@, prefix@, temp_dir@, match kind {
                Ok(k) => Ok(k),
                Err(e) => Err(e@),
            }) is Ok,
            Err(e) => result_file_outcome(path@, prefix@, temp_dir@, match kind {
                Ok(k) => Ok(k),
                Err(e) => Err(e@),
            }) == Err::<(), Seq<char>>(e@),
        },
        r is Ok <==> ({
            &&& spec_path_file_name(path@) matches Some(name)
            &&& spec_path_parent(path@) matches Some(p) && spec_path_eq(p, temp_dir@)
            &&& starts_with_seq(name, prefix@)
            &&& ends_with_seq(name, ".json"@)
            &&& kind matches Ok((is_symlink, is_file)) && !is_symlink && is_file
        }),
{
    validate_result_file(path, prefix, temp_dir)?;
    match kind {
        Err(e) => Err(e),
        Ok((is_symlink, is_file)) => check_regular_file(is_symlink, is_file),
    }
}

} // verus!

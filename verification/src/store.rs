//! Store operations over the enciphered filesystem, as decisions on plain
//! values: the caller reports what the filesystem shows (whether a target
//! exists, is a directory, what bytes a file holds) and performs the returned
//! actions; everything that can be computed — enciphered paths, blobs, the
//! error rules — is computed and verified here.
//!
//! Secret bodies are stored under the deterministic scheme, as the stores
//! written so far hold them; the randomized scheme is available for callers
//! that prefer non-deterministic bodies.

use crate::errors::ErrorKind;
use crate::text::{join_spec, join_with, split_on_char, split_spec};
use crate::transform::{
    det_blob, det_decipher, path_blobs, transform_entry, transform_path, EncryptionParams,
};
use vstd::prelude::*;
use vstd::string::StringExecFns;
use vstd::utf8::encode_utf8;

verus! {

/// The options a front end carries into every command.
pub struct Options {
    pub args: Vec<String>,
    pub key: String,
    pub repo: String,
    pub verbose: bool,
    pub recursive: bool,
    pub force: bool,
    pub line: i32,
    pub show_tree: bool,
    pub interactive: bool,
    pub multiline: bool,
}

/// What the filesystem shows at an entry's resolved path, as plain values: a
/// directory, nothing, or a file with the blob text it holds.
#[derive(Debug)]
pub enum EntryLookup {
    Directory,
    Missing,
    File(String),
}

/// What kind of object a resolved path names.
#[derive(Clone, Copy, Debug, PartialEq, Eq, Structural)]
pub enum EntryKind {
    File,
    Directory,
    Missing,
}

/// The filesystem action a removal decision asks for.
#[derive(Clone, Copy, Debug, PartialEq, Eq, Structural)]
pub enum RemoveAction {
    RemoveFile,
    RemoveTree,
    RemoveNothing,
}

/// What an accepted `add_entry` asks the caller to write: the enciphered path
/// relative to the storage root, and the blob to store as the file's full
/// contents.
#[derive(Debug)]
pub struct AddPlan {
    pub rel_path: String,
    pub content_blob: String,
}

/// The two enciphered relative paths a move or copy operates on.
#[derive(Debug)]
pub struct MovePlan {
    pub from_path: String,
    pub to_path: String,
}

/// The enciphered path of a cleartext path, relative to the storage root: the
/// deterministic blob of every `/`-separated segment, joined with `/`.
pub fn enciphered_entry_path(enc_params: &EncryptionParams, path: &str) -> (r: String)
    requires
        enc_params.wf(),
    ensures
        r@ == join_spec(
            path_blobs(enc_params.key@, enc_params.iv@, split_spec(path@, '/')),
            seq!['/'],
        ),
{
    let parts = transform_path(enc_params, path);
    let r = join_with(&parts, "/");
    proof {
        reveal_strlit("/");
        assert("/"@ =~= seq!['/']);
    }
    r
}

/// Decide an addition. If the target exists and overwriting was not asked
/// for, the entry is refused with `EntryExists` and nothing is to be written;
/// otherwise the caller receives the enciphered relative path and the body's
/// blob to write as the file's full contents. The blob deciphers back to
/// exactly the body that was added.
pub fn add_entry(
    enc_params: &EncryptionParams,
    path: &str,
    content: &str,
    overwrite: bool,
    target_exists: bool,
) -> (r: Result<AddPlan, ErrorKind>)
    requires
        enc_params.wf(),
    ensures
        target_exists && !overwrite ==> r is Err && r->Err_0 == ErrorKind::EntryExists,
        !(target_exists && !overwrite) ==> {
            &&& r is Ok
            &&& (r->Ok_0).rel_path@ == join_spec(
                path_blobs(enc_params.key@, enc_params.iv@, split_spec(path@, '/')),
                seq!['/'],
            )
            &&& (r->Ok_0).content_blob@ == det_blob(
                enc_params.key@,
                enc_params.iv@,
                encode_utf8(content@),
            )
            &&& det_decipher(enc_params.key@, enc_params.iv@, (r->Ok_0).content_blob@)
                == Ok::<Seq<char>, ErrorKind>(content@)
        },
{
    if target_exists && !overwrite {
        return Err(ErrorKind::EntryExists);
    }
    let rel_path = enciphered_entry_path(enc_params, path);
    let content_blob = transform_entry(enc_params, content);
    Ok(AddPlan { rel_path, content_blob })
}

/// Decide a show from what the filesystem presented: a directory is refused
/// with `IsDirectory` — before any file contents are consulted — an absent
/// entry with `NotFound`, and a file's blob is deciphered into the cleartext
/// body, each codec failure passed through as it is.
pub fn show_entry(enc_params: &EncryptionParams, lookup: EntryLookup) -> (r: Result<
    String,
    ErrorKind,
>)
    requires
        enc_params.wf(),
    ensures
        lookup is Directory ==> r is Err && r->Err_0 == ErrorKind::IsDirectory,
        lookup is Missing ==> r is Err && r->Err_0 == ErrorKind::NotFound,
        lookup is File ==> (match det_decipher(
            enc_params.key@,
            enc_params.iv@,
            lookup->File_0@,
        ) {
            Ok(s) => r is Ok && r->Ok_0@ == s,
            Err(e) => r is Err && r->Err_0 == e,
        }),
{
    match lookup {
        EntryLookup::Directory => Err(ErrorKind::IsDirectory),
        EntryLookup::Missing => Err(ErrorKind::NotFound),
        EntryLookup::File(blob) => crate::transform::retransform_entry(enc_params, blob.as_str()),
    }
}

/// Decide a removal: a file is deleted; a directory is deleted recursively
/// only when the recursive flag is set and refused with `IsDirectory`
/// otherwise; an absent target asks for no action, as removing what is not
/// there is silently accepted.
pub fn remove_entry(kind: EntryKind, recursive: bool) -> (r: Result<RemoveAction, ErrorKind>)
    ensures
        kind is File ==> r == Ok::<RemoveAction, ErrorKind>(RemoveAction::RemoveFile),
        kind is Directory && recursive ==> r == Ok::<RemoveAction, ErrorKind>(
            RemoveAction::RemoveTree,
        ),
        kind is Directory && !recursive ==> r == Err::<RemoveAction, ErrorKind>(
            ErrorKind::IsDirectory,
        ),
        kind is Missing ==> r == Ok::<RemoveAction, ErrorKind>(RemoveAction::RemoveNothing),
{
    match kind {
        EntryKind::File => Ok(RemoveAction::RemoveFile),
        EntryKind::Directory => {
            if recursive {
                Ok(RemoveAction::RemoveTree)
            } else {
                Err(ErrorKind::IsDirectory)
            }
        },
        EntryKind::Missing => Ok(RemoveAction::RemoveNothing),
    }
}

/// Decide a move: refused with `EntryExists` when the destination exists and
/// force is not set; otherwise the caller receives both enciphered relative
/// paths and performs a plain rename, which carries directories as well.
pub fn move_entry(
    enc_params: &EncryptionParams,
    old_path: &str,
    new_path: &str,
    force: bool,
    dest_exists: bool,
) -> (r: Result<MovePlan, ErrorKind>)
    requires
        enc_params.wf(),
    ensures
        dest_exists && !force ==> r is Err && r->Err_0 == ErrorKind::EntryExists,
        !(dest_exists && !force) ==> {
            &&& r is Ok
            &&& (r->Ok_0).from_path@ == join_spec(
                path_blobs(enc_params.key@, enc_params.iv@, split_spec(old_path@, '/')),
                seq!['/'],
            )
            &&& (r->Ok_0).to_path@ == join_spec(
                path_blobs(enc_params.key@, enc_params.iv@, split_spec(new_path@, '/')),
                seq!['/'],
            )
        },
{
    if dest_exists && !force {
        return Err(ErrorKind::EntryExists);
    }
    let from_path = enciphered_entry_path(enc_params, old_path);
    let to_path = enciphered_entry_path(enc_params, new_path);
    Ok(MovePlan { from_path, to_path })
}

/// Decide a copy: refused with `EntryExists` when the destination exists and
/// force is not set, and with `IsDirectory` when the source is a directory —
/// directory copy is not supported; otherwise the caller receives both
/// enciphered relative paths and copies the file.
pub fn copy_entry(
    enc_params: &EncryptionParams,
    old_path: &str,
    new_path: &str,
    force: bool,
    src_is_dir: bool,
    dest_exists: bool,
) -> (r: Result<MovePlan, ErrorKind>)
    requires
        enc_params.wf(),
    ensures
        dest_exists && !force ==> r is Err && r->Err_0 == ErrorKind::EntryExists,
        !(dest_exists && !force) && src_is_dir ==> r is Err && r->Err_0 == ErrorKind::IsDirectory,
        !(dest_exists && !force) && !src_is_dir ==> {
            &&& r is Ok
            &&& (r->Ok_0).from_path@ == join_spec(
                path_blobs(enc_params.key@, enc_params.iv@, split_spec(old_path@, '/')),
                seq!['/'],
            )
            &&& (r->Ok_0).to_path@ == join_spec(
                path_blobs(enc_params.key@, enc_params.iv@, split_spec(new_path@, '/')),
                seq!['/'],
            )
        },
{
    if dest_exists && !force {
        return Err(ErrorKind::EntryExists);
    }
    if src_is_dir {
        return Err(ErrorKind::IsDirectory);
    }
    let from_path = enciphered_entry_path(enc_params, old_path);
    let to_path = enciphered_entry_path(enc_params, new_path);
    Ok(MovePlan { from_path, to_path })
}

/// Pick one line of a multiline body: a negative request returns the whole
/// body, a request beyond the last line returns nothing, and otherwise the
/// line at that position, lines being the fields of the body split on `\n`.
pub fn select_line(content: &str, line: i32) -> (r: Option<String>)
    ensures
        line < 0 ==> r is Some && r->0@ == content@,
        line >= 0 && (line as int) < split_spec(content@, '\n').len() ==> r is Some && r->0@
            == split_spec(content@, '\n')[line as int],
        line >= 0 && (line as int) >= split_spec(content@, '\n').len() ==> r is None,
{
    if line < 0 {
        return Some(content.to_owned());
    }
    let lines = split_on_char(content, '\n');
    let idx = line as usize;
    if idx >= lines.len() {
        return None;
    }
    Some(lines[idx].clone())
}

/// Turn one record of a keepass-style export — account, name, password, URL,
/// comment — into the entry to add: the path `url/account`, and a body that
/// stacks the five fields one per line, password first. A record of any other
/// width is refused as `Malformed`.
pub fn keepass_record_to_entry(record: &Vec<String>) -> (r: Result<(String, String), ErrorKind>)
    ensures
        record@.len() != 5 ==> r is Err && r->Err_0 == ErrorKind::Malformed,
        record@.len() == 5 ==> {
            &&& r is Ok
            &&& (r->Ok_0).0@ == record@[3]@ + "/"@ + record@[0]@
            &&& (r->Ok_0).1@ == record@[2]@ + "\n"@ + record@[1]@ + "\n"@ + record@[3]@ + "\n"@
                + record@[0]@ + "\n"@ + record@[4]@ + "\n"@
        },
{
    if record.len() != 5 {
        return Err(ErrorKind::Malformed);
    }
    let mut entry = record[3].clone();
    entry.append("/");
    entry.append(record[0].as_str());
    let mut content = record[2].clone();
    content.append("\n");
    content.append(record[1].as_str());
    content.append("\n");
    content.append(record[3].as_str());
    content.append("\n");
    content.append(record[0].as_str());
    content.append("\n");
    content.append(record[4].as_str());
    content.append("\n");
    Ok((entry, content))
}

} // verus!

//! Where the archive is kept: the folder that the user names, or one that
//! is found for them.

use std::path::PathBuf;
use vstd::prelude::*;
use vstd::string::{StrSliceExecFns, StringExecFns};

verus! {

/// A path of the file system, as std holds it.
#[verifier::external_type_specification]
#[verifier::external_body]
pub struct ExPathBuf(PathBuf);

/// Why no folder could be settled on.
#[derive(Clone, Copy, Debug, PartialEq, Eq, Structural)]
pub enum FolderError {
    /// The folder begins with `~/`, and the home directory is not known.
    HomeNotFound,
    /// No folder was named, and none could be found for the user.
    NoAutomaticFolder,
}

impl FolderError {
    /// What to tell the user.
    pub open spec fn text(self) -> Seq<char> {
        match self {
            FolderError::HomeNotFound =>
                "Home directory cannot be found. Please enter manually with `/home/...`"@,
            FolderError::NoAutomaticFolder =>
                "Cannot automatically find appropriate folder location. Please enter folder manually"@,
        }
    }

    /// What to tell the user.
    pub fn message(&self) -> (r: String)
        ensures
            r@ == self.text(),
    {
        match self {
            FolderError::HomeNotFound => String::from_str(
                "Home directory cannot be found. Please enter manually with `/home/...`",
            ),
            FolderError::NoAutomaticFolder => String::from_str(
                "Cannot automatically find appropriate folder location. Please enter folder manually",
            ),
        }
    }
}

/// The text begins with `~/`.
pub open spec fn begins_at_home(folder: Seq<char>) -> bool {
    folder.len() >= 2 && folder[0] == '~' && folder[1] == '/'
}

/// The folder that the user named, with a leading `~` replaced by the home
/// directory.
pub open spec fn expanded(folder: Seq<char>, home: Option<Seq<char>>) -> Result<Seq<char>, FolderError> {
    if begins_at_home(folder) {
        match home {
            Some(h) => Ok(h + folder.subrange(1, folder.len() as int)),
            None => Err(FolderError::HomeNotFound),
        }
    } else {
        Ok(folder)
    }
}

/// The text, with `/` at its end.
pub open spec fn slash_ended(folder: Seq<char>) -> Seq<char> {
    if folder.len() > 0 && folder.last() == '/' {
        folder
    } else {
        folder.push('/')
    }
}

/// Calls `dirs_next::home_dir`. What it gives depends on the user and the system.
#[verifier::external_body]
fn home_dir() -> Option<PathBuf> {
    dirs_next::home_dir()
}

/// Calls `dirs_next::picture_dir`. What it gives depends on the user and the system.
#[verifier::external_body]
fn picture_dir() -> Option<PathBuf> {
    dirs_next::picture_dir()
}

/// Calls `dirs_next::document_dir`. What it gives depends on the user and the system.
#[verifier::external_body]
fn document_dir() -> Option<PathBuf> {
    dirs_next::document_dir()
}

/// Calls `std::path::Path::to_str` and copies the text. `None` where the
/// path is not valid Unicode.
#[verifier::external_body]
pub fn path_buf_to_string(path: PathBuf) -> Option<String> {
    path.to_str().map(|text| text.to_string())
}

/// The first of the three directories that is known.
pub fn first_known<T>(picture: Option<T>, document: Option<T>, home: Option<T>) -> (r: Option<T>)
    ensures
        r == if picture is Some {
            picture
        } else if document is Some {
            document
        } else {
            home
        },
{
    if picture.is_some() {
        picture
    } else if document.is_some() {
        document
    } else {
        home
    }
}

/// The directory under which the archive goes where the user names none:
/// the user's pictures, else their documents, else their home directory.
fn get_auto_parent_folder() -> Option<String> {
    match first_known(picture_dir(), document_dir(), home_dir()) {
        Some(dir) => path_buf_to_string(dir),
        None => None,
    }
}

/// The folder that the user named, with a leading `~` replaced by `home`.
pub fn expand_home(folder: String, home: Option<String>) -> (r: Result<String, FolderError>)
    ensures
        match expanded(folder@, match home {
            Some(h) => Some(h@),
            None => None,
        }) {
            Ok(text) => r is Ok && r->Ok_0@ == text,
            Err(e) => r == Err::<String, FolderError>(e),
        },
{
    let len = folder.as_str().unicode_len();
    if len >= 2 && folder.as_str().get_char(0) == '~' && folder.as_str().get_char(1) == '/' {
        match home {
            Some(h) => {
                let mut out = h;
                out.append(folder.as_str().substring_char(1, len));
                Ok(out)
            },
            None => Err(FolderError::HomeNotFound),
        }
    } else {
        Ok(folder)
    }
}

/// The folder for a user who named none: `garfield` under `parent`.
pub fn automatic_folder(parent: Option<String>) -> (r: Result<String, FolderError>)
    ensures
        match parent {
            Some(p) => r is Ok && r->Ok_0@ == p@ + "/garfield"@,
            None => r == Err::<String, FolderError>(FolderError::NoAutomaticFolder),
        },
{
    match parent {
        Some(p) => {
            let mut out = p;
            out.append("/garfield");
            Ok(out)
        },
        None => Err(FolderError::NoAutomaticFolder),
    }
}

/// The folder to use, before it is looked up on disk: the one that the user
/// named, with a leading `~` replaced by the home directory, or else
/// `garfield` under a directory found for the user.
pub fn requested_folder(folder: Option<String>) -> (r: Result<String, FolderError>)
    ensures
        match folder {
            Some(f) => if begins_at_home(f@) {
                match r {
                    Ok(text) => exists|home: Seq<char>| text@ == home + f@.subrange(1, f@.len() as int),
                    Err(e) => e == FolderError::HomeNotFound,
                }
            } else {
                r is Ok && r->Ok_0@ == f@
            },
            None => match r {
                Ok(text) => exists|parent: Seq<char>| text@ == parent + "/garfield"@,
                Err(e) => e == FolderError::NoAutomaticFolder,
            },
        },
{
    match folder {
        Some(f) => {
            let len = f.as_str().unicode_len();
            if len >= 2 && f.as_str().get_char(0) == '~' && f.as_str().get_char(1) == '/' {
                let home = match home_dir() {
                    Some(dir) => path_buf_to_string(dir),
                    None => None,
                };
                let ghost home_text = home->0@;
                let r = expand_home(f, home);
                assert(r is Ok ==> r->Ok_0@ == home_text + f@.subrange(1, f@.len() as int));
                r
            } else {
                Ok(f)
            }
        },
        None => {
            let parent = get_auto_parent_folder();
            let ghost parent_text = parent->0@;
            let r = automatic_folder(parent);
            assert(r is Ok ==> r->Ok_0@ == parent_text + "/garfield"@);
            r
        },
    }
}

/// The folder's path with `/` at its end, added where it was not there.
pub fn with_trailing_slash(folder: String) -> (r: String)
    ensures
        r@ == slash_ended(folder@),
{
    let len = folder.as_str().unicode_len();
    if len > 0 && folder.as_str().get_char(len - 1) == '/' {
        folder
    } else {
        let mut out = folder;
        out.append("/");
        proof {
            reveal_strlit("/");
        }
        assert(out@ =~= slash_ended(folder@));
        out
    }
}

} // verus!

//! The profile directory: where the database and its lock live.

use vstd::prelude::*;

verus! {

/// What creating a profile tells the user: what is protected, and what is not.
pub const INIT_NOTICE: &'static str = "\
Profile created.

  What is stored here: your full transaction history and, for a Bitcoin
  wallet, its address set. No credentials -- Milestone 1 is watch-only.

  This database is NOT encrypted. The two realistic losses are a stolen or
  discarded disk and a profile directory synced to a cloud backup.

  * For the disk: use FULL-DISK ENCRYPTION (LUKS on Linux, FileVault on
    macOS, BitLocker on Windows). That is the correct tool, and nothing
    this program can do replaces it.
  * For the backup: this directory is 0700 and the database 0600, which
    keeps another local user out and does NOT survive being copied into a
    backup that is readable elsewhere. Exclude it, or encrypt the backup.

  Application-level encryption ships at Milestone 3, with the first stored
  credential.";

/// The path of a file in a directory.
pub open spec fn path_in(dir: Seq<char>, name: Seq<char>) -> Seq<char> {
    if dir.len() == 0 || dir.last() == '/' {
        dir + name
    } else {
        dir + "/"@ + name
    }
}

/// The path of a file in a directory.
pub fn join_path(dir: &str, name: &str) -> (r: String)
    ensures
        r@ == path_in(dir@, name@),
{
    let mut out = dir.to_owned();
    let n = dir.unicode_len();
    if n > 0 && dir.get_char(n - 1) != '/' {
        out.append("/");
    }
    out.append(name);
    out
}

/// A profile directory.
#[derive(Debug)]
pub struct Profile {
    dir: String,
}

impl View for Profile {
    type V = Seq<char>;

    closed spec fn view(&self) -> Seq<char> {
        self.dir@
    }
}

impl Profile {
    /// The profile in a directory.
    pub fn new(dir: String) -> (r: Profile)
        ensures
            r@ == dir@,
    {
        Profile { dir }
    }

    /// The directory.
    pub fn dir(&self) -> (r: &str)
        ensures
            r@ == self@,
    {
        self.dir.as_str()
    }

    /// Where the database is.
    pub fn db_path(&self) -> (r: String)
        ensures
            r@ == path_in(self@, "sumer.db"@),
    {
        join_path(self.dir.as_str(), "sumer.db")
    }

    /// Where the writer's lock is.
    pub fn lock_path(&self) -> (r: String)
        ensures
            r@ == path_in(self@, "lock"@),
    {
        join_path(self.dir.as_str(), "lock")
    }
}

} // verus!

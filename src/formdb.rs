//! Handle on a FormDB database directory.
use vstd::prelude::*;

verus! {

/// Errors that can occur when interacting with FormDB.
#[derive(Clone, Debug, PartialEq, Eq)]
pub enum FormDBError {
    JournalError(String),
    SnapshotError(String),
    MerkleError(String),
    ProvenanceError(String),
}

/// A FormDB database, located by its directory path.
pub struct FormDBConnection {
    pub path: String,
    pub opened: bool,
}

/// `path` joined with the entry `journal`, with one separator between them.
pub open spec fn journal_path_of(path: Seq<char>) -> Seq<char> {
    if path.len() == 0 || path.last() == '/' {
        path + seq!['j', 'o', 'u', 'r', 'n', 'a', 'l']
    } else {
        path + seq!['/', 'j', 'o', 'u', 'r', 'n', 'a', 'l']
    }
}

impl FormDBConnection {
    /// Opens the database at `path`.
    pub fn open(path: &str) -> (r: Result<Self, FormDBError>)
        ensures
            r is Ok,
            r->Ok_0.path@ == path@,
            r->Ok_0.opened,
    {
        Ok(FormDBConnection { path: String::from_str(path), opened: true })
    }

    /// The path of the database's journal.
    pub fn journal_path(&self) -> (r: String)
        ensures
            r@ == journal_path_of(self.path@),
    {
        let base = self.path.as_str();
        let n = base.unicode_len();
        let mut out = String::from_str(base);
        if n == 0 || base.get_char(n - 1) == '/' {
            out.append("journal");
            proof {
                reveal_strlit("journal");
            }
        } else {
            out.append("/journal");
            proof {
                reveal_strlit("/journal");
            }
        }
        assert(out@ =~= journal_path_of(self.path@));
        out
    }

    /// Whether the database is open.
    pub fn is_opened(&self) -> (r: bool)
        ensures
            r == self.opened,
    {
        self.opened
    }
}

} // verus!

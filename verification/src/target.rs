//! The database topology a process runs against.
use crate::external::{path_debug, path_debug_text, string_push_str};
use std::path::PathBuf;
use vstd::prelude::*;

verus! {

/// Database topology selected for the current process.
pub enum DatabaseTarget {
    /// Instance management database and directory of account-owned databases.
    Sqlite {
        /// Instance-wide management database file.
        management_path: PathBuf,
        /// Directory holding one database per account.
        accounts_dir: PathBuf,
    },
    /// Shared `PostgreSQL` database.
    Postgres {
        /// Secret connection URL. This value is deliberately omitted from the debug text.
        url: String,
    },
}

/// The debug text of a `SQLite` topology, given the debug texts of its two paths.
pub fn sqlite_debug_text(management_path: &str, accounts_dir: &str) -> (r: String)
    ensures
        r@ == "Sqlite { management_path: "@ + management_path@ + ", accounts_dir: "@ + accounts_dir@ + " }"@,
{
    let mut text = "Sqlite { management_path: ".to_owned();
    string_push_str(&mut text, management_path);
    string_push_str(&mut text, ", accounts_dir: ");
    string_push_str(&mut text, accounts_dir);
    string_push_str(&mut text, " }");
    text
}

impl DatabaseTarget {
    /// Debug text of the topology. The `PostgreSQL` URL never appears in it.
    pub fn debug_text(&self) -> (r: String)
        ensures
            self is Postgres ==> r@ == "Postgres { url: \"[REDACTED]\" }"@,
            self matches DatabaseTarget::Sqlite { management_path, accounts_dir } ==> r@ == "Sqlite { management_path: "@
                + path_debug(*management_path) + ", accounts_dir: "@ + path_debug(*accounts_dir) + " }"@,
    {
        match self {
            DatabaseTarget::Sqlite { management_path, accounts_dir } => {
                let m = path_debug_text(management_path);
                let a = path_debug_text(accounts_dir);
                sqlite_debug_text(m.as_str(), a.as_str())
            },
            DatabaseTarget::Postgres { .. } => "Postgres { url: \"[REDACTED]\" }".to_owned(),
        }
    }
}

} // verus!

//! Connection settings of the database-backed stores. The stores' queries run with the
//! database driver; here are the handles they are built from, which keep `PostgreSQL` URLs out of
//! their debug text.
use std::path::PathBuf;
use vstd::prelude::*;

verus! {

/// `SQLite` store of instance-administration settings.
#[derive(Clone, Debug)]
pub struct SqliteAdministrationRepository {
    path: PathBuf,
}

impl SqliteAdministrationRepository {
    pub closed spec fn path_spec(&self) -> PathBuf {
        self.path
    }

    /// A store over the database file at `path`.
    pub fn new(path: PathBuf) -> (r: Self)
        ensures
            r.path_spec() == path,
    {
        SqliteAdministrationRepository { path }
    }

    /// The database file.
    pub fn path(&self) -> (r: &PathBuf)
        ensures
            *r == self.path_spec(),
    {
        &self.path
    }
}

/// `PostgreSQL` store of instance-administration settings.
#[derive(Clone)]
pub struct PostgresAdministrationRepository {
    url: String,
}

impl PostgresAdministrationRepository {
    pub closed spec fn url_spec(&self) -> Seq<char> {
        self.url@
    }

    /// A store over the database at the connection URL `url`.
    pub fn new(url: String) -> (r: Self)
        ensures
            r.url_spec() == url@,
    {
        PostgresAdministrationRepository { url }
    }

    /// The connection URL.
    pub fn url(&self) -> (r: &str)
        ensures
            r@ == self.url_spec(),
    {
        self.url.as_str()
    }

    /// Debug text of the store, which never shows the secret URL.
    pub fn debug_text(&self) -> (r: String)
        ensures
            r@ == "PostgresAdministrationRepository { url: \"[REDACTED]\" }"@,
    {
        "PostgresAdministrationRepository { url: \"[REDACTED]\" }".to_owned()
    }
}

/// `SQLite` store of linked external identities.
#[derive(Clone, Debug)]
pub struct SqliteExternalIdentityRepository {
    path: PathBuf,
}

impl SqliteExternalIdentityRepository {
    pub closed spec fn path_spec(&self) -> PathBuf {
        self.path
    }

    /// A store over the database file at `path`.
    pub fn new(path: PathBuf) -> (r: Self)
        ensures
            r.path_spec() == path,
    {
        SqliteExternalIdentityRepository { path }
    }

    /// The database file.
    pub fn path(&self) -> (r: &PathBuf)
        ensures
            *r == self.path_spec(),
    {
        &self.path
    }
}

/// `PostgreSQL` store of linked external identities.
#[derive(Clone)]
pub struct PostgresExternalIdentityRepository {
    url: String,
}

impl PostgresExternalIdentityRepository {
    pub closed spec fn url_spec(&self) -> Seq<char> {
        self.url@
    }

    /// A store over the database at the connection URL `url`.
    pub fn new(url: String) -> (r: Self)
        ensures
            r.url_spec() == url@,
    {
        PostgresExternalIdentityRepository { url }
    }

    /// The connection URL.
    pub fn url(&self) -> (r: &str)
        ensures
            r@ == self.url_spec(),
    {
        self.url.as_str()
    }

    /// Debug text of the store, which never shows the secret URL.
    pub fn debug_text(&self) -> (r: String)
        ensures
            r@ == "PostgresExternalIdentityRepository { url: \"[REDACTED]\" }"@,
    {
        "PostgresExternalIdentityRepository { url: \"[REDACTED]\" }".to_owned()
    }
}

/// `SQLite` store of the management catalog.
#[derive(Clone, Debug)]
pub struct SqliteManagementRepository {
    path: PathBuf,
}

impl SqliteManagementRepository {
    pub closed spec fn path_spec(&self) -> PathBuf {
        self.path
    }

    /// A store over the database file at `path`.
    pub fn new(path: PathBuf) -> (r: Self)
        ensures
            r.path_spec() == path,
    {
        SqliteManagementRepository { path }
    }

    /// The database file.
    pub fn path(&self) -> (r: &PathBuf)
        ensures
            *r == self.path_spec(),
    {
        &self.path
    }
}

/// `PostgreSQL` store of the management catalog.
#[derive(Clone, Debug)]
pub struct PostgresManagementRepository {
    url: String,
}

impl PostgresManagementRepository {
    pub closed spec fn url_spec(&self) -> Seq<char> {
        self.url@
    }

    /// A store over the database at the connection URL `url`.
    pub fn new(url: String) -> (r: Self)
        ensures
            r.url_spec() == url@,
    {
        PostgresManagementRepository { url }
    }

    /// The connection URL.
    pub fn url(&self) -> (r: &str)
        ensures
            r@ == self.url_spec(),
    {
        self.url.as_str()
    }
}

/// `SQLite` store of roles and role assignments.
#[derive(Clone, Debug)]
pub struct SqliteRbacRepository {
    path: PathBuf,
}

impl SqliteRbacRepository {
    pub closed spec fn path_spec(&self) -> PathBuf {
        self.path
    }

    /// A store over the database file at `path`.
    pub fn new(path: PathBuf) -> (r: Self)
        ensures
            r.path_spec() == path,
    {
        SqliteRbacRepository { path }
    }

    /// The database file.
    pub fn path(&self) -> (r: &PathBuf)
        ensures
            *r == self.path_spec(),
    {
        &self.path
    }
}

/// `PostgreSQL` store of roles and role assignments.
#[derive(Clone)]
pub struct PostgresRbacRepository {
    url: String,
}

impl PostgresRbacRepository {
    pub closed spec fn url_spec(&self) -> Seq<char> {
        self.url@
    }

    /// A store over the database at the connection URL `url`.
    pub fn new(url: String) -> (r: Self)
        ensures
            r.url_spec() == url@,
    {
        PostgresRbacRepository { url }
    }

    /// The connection URL.
    pub fn url(&self) -> (r: &str)
        ensures
            r@ == self.url_spec(),
    {
        self.url.as_str()
    }

    /// Debug text of the store, which never shows the secret URL.
    pub fn debug_text(&self) -> (r: String)
        ensures
            r@ == "PostgresRbacRepository { url: \"[REDACTED]\" }"@,
    {
        "PostgresRbacRepository { url: \"[REDACTED]\" }".to_owned()
    }
}

/// `SQLite` store of user lifecycle changes.
#[derive(Clone, Debug)]
pub struct SqliteUserLifecycleRepository {
    path: PathBuf,
}

impl SqliteUserLifecycleRepository {
    pub closed spec fn path_spec(&self) -> PathBuf {
        self.path
    }

    /// A store over the database file at `path`.
    pub fn new(path: PathBuf) -> (r: Self)
        ensures
            r.path_spec() == path,
    {
        SqliteUserLifecycleRepository { path }
    }

    /// The database file.
    pub fn path(&self) -> (r: &PathBuf)
        ensures
            *r == self.path_spec(),
    {
        &self.path
    }
}

/// `PostgreSQL` store of user lifecycle changes.
#[derive(Clone)]
pub struct PostgresUserLifecycleRepository {
    url: String,
}

impl PostgresUserLifecycleRepository {
    pub closed spec fn url_spec(&self) -> Seq<char> {
        self.url@
    }

    /// A store over the database at the connection URL `url`.
    pub fn new(url: String) -> (r: Self)
        ensures
            r.url_spec() == url@,
    {
        PostgresUserLifecycleRepository { url }
    }

    /// The connection URL.
    pub fn url(&self) -> (r: &str)
        ensures
            r@ == self.url_spec(),
    {
        self.url.as_str()
    }

    /// Debug text of the store, which never shows the secret URL.
    pub fn debug_text(&self) -> (r: String)
        ensures
            r@ == "PostgresUserLifecycleRepository { url: \"[REDACTED]\" }"@,
    {
        "PostgresUserLifecycleRepository { url: \"[REDACTED]\" }".to_owned()
    }
}

} // verus!

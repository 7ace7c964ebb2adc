//! Explicit, checksum-verified schema migration status and planning.
//!
//! A database reports the migrations it has applied; a release embeds a catalog of migrations.
//! The status of a database relates the two version by version.
use crate::external::{
    name_extension, path_ext, path_extension, path_file, path_file_name, plain_file_name, string_push, string_push_str,
};
use vstd::prelude::*;

verus! {

/// Schema family targeted by a migration catalog.
#[derive(Clone, Copy, Debug, PartialEq, Eq, Structural)]
pub enum MigrationKind {
    /// Shared `PostgreSQL` schema.
    Postgres,
    /// Instance-wide `SQLite` management catalog.
    SqliteManagement,
    /// Isolated `SQLite` account data database.
    SqliteAccount,
}

/// State of one migration relative to a database.
#[derive(Clone, Copy, Debug, PartialEq, Eq, Structural)]
pub enum MigrationState {
    /// The embedded migration was applied with the expected checksum.
    Applied,
    /// The embedded migration has not been applied yet.
    Pending,
    /// An applied migration has been modified since it ran.
    ChecksumMismatch,
    /// The database contains a migration unknown to this release.
    Unknown,
    /// A previous non-transactional migration did not finish successfully.
    Dirty,
}

/// Status of one known or database-reported migration.
#[derive(Clone, Debug, PartialEq, Eq)]
pub struct MigrationStatusEntry {
    /// Monotonically increasing migration version.
    pub version: i64,
    /// Stable migration description.
    pub description: String,
    /// Lowercase checksum of the migration SQL.
    pub checksum: String,
    /// Relationship between embedded and applied migration state.
    pub state: MigrationState,
}

/// Compatibility status for one physical database.
#[derive(Clone, Debug, PartialEq, Eq)]
pub struct DatabaseMigrationStatus {
    /// Safe operator-facing database label; `PostgreSQL` URLs are never included.
    pub database: String,
    /// Schema family expected for this database.
    pub kind: MigrationKind,
    /// Highest version currently recorded by the database.
    pub current_version: Option<i64>,
    /// Highest version embedded in this release.
    pub target_version: Option<i64>,
    /// Whether startup with this release is safe.
    pub compatible: bool,
    /// Migration details in ascending version order.
    pub migrations: Vec<MigrationStatusEntry>,
}

/// One pending migration returned by the read-only plan command.
#[derive(Clone, Debug, PartialEq, Eq)]
pub struct MigrationPlanItem {
    /// Safe operator-facing database label.
    pub database: String,
    /// Schema family expected for this database.
    pub kind: MigrationKind,
    /// Migration version that would be applied.
    pub version: i64,
    /// Stable migration description.
    pub description: String,
    /// Lowercase checksum of the migration SQL.
    pub checksum: String,
}

/// One migration embedded in a release.
#[derive(Clone, Debug, PartialEq, Eq)]
pub struct EmbeddedMigration {
    pub version: i64,
    pub description: String,
    pub checksum: Vec<u8>,
}

/// One row of a database's applied-migration table.
#[derive(Clone, Debug, PartialEq, Eq)]
pub struct AppliedMigration {
    pub version: i64,
    pub checksum: Vec<u8>,
    pub success: bool,
}

/// A status entry with its text as character sequences.
pub struct EntryView {
    pub version: i64,
    pub description: Seq<char>,
    pub checksum: Seq<char>,
    pub state: MigrationState,
}

pub open spec fn entry_view(e: MigrationStatusEntry) -> EntryView {
    EntryView { version: e.version, description: e.description@, checksum: e.checksum@, state: e.state }
}

/// Lowercase hexadecimal digit of a value below 16.
pub open spec fn hex_digit(n: u8) -> char {
    if n < 10 {
        (48 + n) as char
    } else {
        (87 + n) as char
    }
}

/// Two lowercase hexadecimal digits per byte, most significant first.
pub open spec fn hex(bytes: Seq<u8>) -> Seq<char>
    decreases bytes.len(),
{
    if bytes.len() == 0 {
        Seq::empty()
    } else {
        hex(bytes.drop_last()).push(hex_digit(bytes.last() / 16)).push(hex_digit(bytes.last() % 16))
    }
}

/// The catalog lists each version once, in ascending order.
pub open spec fn catalog_ascending(cat: Seq<EmbeddedMigration>) -> bool {
    forall|a: int, b: int| 0 <= a < b < cat.len() ==> (#[trigger] cat[a]).version < (#[trigger] cat[b]).version
}

pub open spec fn entries_ascending(s: Seq<MigrationStatusEntry>) -> bool {
    forall|a: int, b: int| 0 <= a < b < s.len() ==> (#[trigger] s[a]).version < (#[trigger] s[b]).version
}

/// The catalog's migration of version `v`.
pub open spec fn embedded_at(cat: Seq<EmbeddedMigration>, v: i64) -> Option<EmbeddedMigration>
    decreases cat.len(),
{
    if cat.len() == 0 {
        None
    } else if cat.last().version == v {
        Some(cat.last())
    } else {
        embedded_at(cat.drop_last(), v)
    }
}

/// The applied row of version `v`; of several rows with one version, the last one counts.
pub open spec fn applied_at(rows: Seq<AppliedMigration>, v: i64) -> Option<AppliedMigration>
    decreases rows.len(),
{
    if rows.len() == 0 {
        None
    } else if rows.last().version == v {
        Some(rows.last())
    } else {
        applied_at(rows.drop_last(), v)
    }
}

/// Highest applied version.
pub open spec fn max_applied(rows: Seq<AppliedMigration>) -> Option<i64>
    decreases rows.len(),
{
    if rows.len() == 0 {
        None
    } else {
        match max_applied(rows.drop_last()) {
            Some(m) => Some(if rows.last().version > m { rows.last().version } else { m }),
            None => Some(rows.last().version),
        }
    }
}

/// Highest embedded version.
pub open spec fn max_embedded(cat: Seq<EmbeddedMigration>) -> Option<i64>
    decreases cat.len(),
{
    if cat.len() == 0 {
        None
    } else {
        match max_embedded(cat.drop_last()) {
            Some(m) => Some(if cat.last().version > m { cat.last().version } else { m }),
            None => Some(cat.last().version),
        }
    }
}

/// The status entry of version `v`: an embedded migration is applied, pending, modified or
/// dirty; an applied migration unknown to the catalog is unknown or dirty.
pub open spec fn entry_for(cat: Seq<EmbeddedMigration>, rows: Seq<AppliedMigration>, v: i64) -> EntryView {
    match embedded_at(cat, v) {
        Some(e) => EntryView {
            version: v,
            description: e.description@,
            checksum: hex(e.checksum@),
            state: match applied_at(rows, v) {
                Some(r) => if !r.success {
                    MigrationState::Dirty
                } else if r.checksum@ == e.checksum@ {
                    MigrationState::Applied
                } else {
                    MigrationState::ChecksumMismatch
                },
                None => MigrationState::Pending,
            },
        },
        None => EntryView {
            version: v,
            description: "unknown applied migration"@,
            checksum: hex(applied_at(rows, v)->Some_0.checksum@),
            state: if applied_at(rows, v)->Some_0.success {
                MigrationState::Unknown
            } else {
                MigrationState::Dirty
            },
        },
    }
}

/// Version `v` has an entry in `s`.
pub open spec fn lists_version(s: Seq<MigrationStatusEntry>, v: i64) -> bool {
    exists|k: int| 0 <= k < s.len() && (#[trigger] s[k]).version == v
}

/// The status of a database whose applied rows are `rows`, against the catalog `cat`.
pub open spec fn status_matches(
    status: DatabaseMigrationStatus,
    database: Seq<char>,
    kind: MigrationKind,
    cat: Seq<EmbeddedMigration>,
    rows: Seq<AppliedMigration>,
) -> bool {
    let m = status.migrations@;
    &&& status.database@ == database
    &&& status.kind == kind
    &&& status.current_version == max_applied(rows)
    &&& status.target_version == max_embedded(cat)
    &&& entries_ascending(m)
    &&& forall|k: int| 0 <= k < m.len() ==> entry_view(#[trigger] m[k]) == entry_for(cat, rows, m[k].version)
    &&& forall|v: i64| lists_version(m, v) <==> (embedded_at(cat, v) is Some || applied_at(rows, v) is Some)
    &&& status.compatible == forall|k: int| 0 <= k < m.len() ==> (#[trigger] m[k]).state == MigrationState::Applied
}

fn hex_char(n: u8) -> (c: char)
    requires
        n < 16,
    ensures
        c == hex_digit(n),
{
    if n < 10 {
        (48 + n) as char
    } else {
        (87 + n) as char
    }
}

/// Lowercase hexadecimal text of a checksum.
pub fn encode_checksum(bytes: &[u8]) -> (r: String)
    ensures
        r@ == hex(bytes@),
{
    let mut encoded = String::new();
    let mut k: usize = 0;
    while k < bytes.len()
        invariant
            k <= bytes.len(),
            encoded@ == hex(bytes@.take(k as int)),
        decreases bytes.len() - k,
    {
        let b = bytes[k];
        proof {
            assert(bytes@.take(k as int + 1).drop_last() =~= bytes@.take(k as int));
            assert(bytes@.take(k as int + 1).last() == b);
        }
        string_push(&mut encoded, hex_char(b / 16));
        string_push(&mut encoded, hex_char(b % 16));
        k += 1;
    }
    proof {
        assert(bytes@.take(k as int) =~= bytes@);
    }
    encoded
}

/// An extension that marks an account database file.
pub open spec fn sqlite_extension(ext: Seq<char>) -> bool {
    ext == "sqlite"@ || ext == "sqlite3"@ || ext == "db"@
}

/// Whether a file extension marks an account database.
pub fn is_sqlite_extension(extension: Option<&str>) -> (r: bool)
    ensures
        r == (extension matches Some(e) && sqlite_extension(e@)),
{
    match extension {
        Some(e) => {
            let sqlite = "sqlite".to_owned();
            let sqlite3 = "sqlite3".to_owned();
            let db = "db".to_owned();
            let owned = e.to_owned();
            owned == sqlite || owned == sqlite3 || owned == db
        },
        None => false,
    }
}

/// Whether a directory entry is an account database, judged by its path's extension.
pub fn is_sqlite_database(path: &str) -> (r: bool)
    ensures
        r == (path_ext(path@) matches Some(e) && sqlite_extension(e)),
        plain_file_name(path@) ==> r == (name_extension(path@) matches Some(e) && sqlite_extension(e)),
{
    match path_extension(path) {
        Some(e) => is_sqlite_extension(Some(e.as_str())),
        None => false,
    }
}

/// The operator-facing label of an account database with the given file name.
pub fn account_label_for(file_name: Option<&str>) -> (r: String)
    ensures
        r@ == match file_name {
            Some(name) => "sqlite-account:"@ + name@,
            None => "sqlite-account"@,
        },
{
    match file_name {
        Some(name) => {
            let mut label = "sqlite-account:".to_owned();
            string_push_str(&mut label, name);
            label
        },
        None => "sqlite-account".to_owned(),
    }
}

/// The operator-facing label of the account database at `path`.
pub fn sqlite_account_label(path: &str) -> (r: String)
    ensures
        r@ == match path_file(path@) {
            Some(n) => "sqlite-account:"@ + n,
            None => "sqlite-account"@,
        },
        r@ == "sqlite-account"@ || r@.len() >= 15 && r@.subrange(0, 15) == "sqlite-account:"@,
        plain_file_name(path@) ==> r@ == "sqlite-account:"@ + path@,
{
    match path_file_name(path) {
        Some(name) => {
            let label = account_label_for(Some(name.as_str()));
            proof {
                reveal_strlit("sqlite-account:");
                assert(("sqlite-account:"@ + name@).subrange(0, 15) =~= "sqlite-account:"@);
            }
            label
        },
        None => account_label_for(None),
    }
}

pub open spec fn plan_item_view(i: MigrationPlanItem) -> (Seq<char>, MigrationKind, i64, Seq<char>, Seq<char>) {
    (i.database@, i.kind, i.version, i.description@, i.checksum@)
}

/// The pending migrations of one database status, in order.
pub open spec fn pending_of(s: DatabaseMigrationStatus, m: Seq<MigrationStatusEntry>) -> Seq<
    (Seq<char>, MigrationKind, i64, Seq<char>, Seq<char>),
>
    decreases m.len(),
{
    if m.len() == 0 {
        Seq::empty()
    } else if m.last().state == MigrationState::Pending {
        pending_of(s, m.drop_last()).push(
            (s.database@, s.kind, m.last().version, m.last().description@, m.last().checksum@),
        )
    } else {
        pending_of(s, m.drop_last())
    }
}

/// The pending migrations of every status, database by database.
pub open spec fn planned(statuses: Seq<DatabaseMigrationStatus>) -> Seq<
    (Seq<char>, MigrationKind, i64, Seq<char>, Seq<char>),
>
    decreases statuses.len(),
{
    if statuses.len() == 0 {
        Seq::empty()
    } else {
        planned(statuses.drop_last()) + pending_of(statuses.last(), statuses.last().migrations@)
    }
}

fn push_pending(plan: &mut Vec<MigrationPlanItem>, status: &DatabaseMigrationStatus)
    ensures
        final(plan)@.map_values(|i: MigrationPlanItem| plan_item_view(i)) == old(plan)@.map_values(
            |i: MigrationPlanItem| plan_item_view(i),
        ) + pending_of(*status, status.migrations@),
{
    let ghost start = plan@.map_values(|i: MigrationPlanItem| plan_item_view(i));
    let mut k: usize = 0;
    while k < status.migrations.len()
        invariant
            k <= status.migrations@.len(),
            plan@.map_values(|i: MigrationPlanItem| plan_item_view(i)) == start + pending_of(
                *status,
                status.migrations@.take(k as int),
            ),
        decreases status.migrations.len() - k,
    {
        let m = &status.migrations[k];
        let ghost before = plan@.map_values(|i: MigrationPlanItem| plan_item_view(i));
        proof {
            assert(status.migrations@.take(k as int + 1).drop_last() =~= status.migrations@.take(k as int));
            assert(status.migrations@.take(k as int + 1).last() == *m);
        }
        if m.state == MigrationState::Pending {
            let item = MigrationPlanItem {
                database: status.database.clone(),
                kind: status.kind,
                version: m.version,
                description: m.description.clone(),
                checksum: m.checksum.clone(),
            };
            plan.push(item);
            proof {
                assert(plan@.map_values(|i: MigrationPlanItem| plan_item_view(i)) =~= before.push(
                    plan_item_view(item),
                ));
            }
        }
        k += 1;
    }
    proof {
        assert(status.migrations@.take(k as int) =~= status.migrations@);
    }
}

/// The migrations an apply command would execute: every pending migration of every database,
/// database by database, each in ascending version order.
pub fn migration_plan_items(statuses: &Vec<DatabaseMigrationStatus>) -> (r: Vec<MigrationPlanItem>)
    ensures
        r@.map_values(|i: MigrationPlanItem| plan_item_view(i)) == planned(statuses@),
{
    let mut plan: Vec<MigrationPlanItem> = Vec::new();
    let mut k: usize = 0;
    proof {
        assert(plan@.map_values(|i: MigrationPlanItem| plan_item_view(i)) =~= planned(statuses@.take(0)));
    }
    while k < statuses.len()
        invariant
            k <= statuses@.len(),
            plan@.map_values(|i: MigrationPlanItem| plan_item_view(i)) == planned(statuses@.take(k as int)),
        decreases statuses.len() - k,
    {
        proof {
            assert(statuses@.take(k as int + 1).drop_last() =~= statuses@.take(k as int));
            assert(statuses@.take(k as int + 1).last() == statuses@[k as int]);
        }
        push_pending(&mut plan, &statuses[k]);
        k += 1;
    }
    proof {
        assert(statuses@.take(k as int) =~= statuses@);
    }
    plan
}

/// Labels of the incompatible databases, in order.
pub open spec fn incompatible_labels(statuses: Seq<DatabaseMigrationStatus>) -> Seq<Seq<char>>
    decreases statuses.len(),
{
    if statuses.len() == 0 {
        Seq::empty()
    } else if !statuses.last().compatible {
        incompatible_labels(statuses.drop_last()).push(statuses.last().database@)
    } else {
        incompatible_labels(statuses.drop_last())
    }
}

/// Labels joined with `", "`.
pub open spec fn joined(labels: Seq<Seq<char>>) -> Seq<char>
    decreases labels.len(),
{
    if labels.len() == 0 {
        Seq::empty()
    } else if labels.len() == 1 {
        labels[0]
    } else {
        joined(labels.drop_last()) + ", "@ + labels.last()
    }
}

/// Startup is safe only when every database matches this release exactly; otherwise the error
/// lists the incompatible databases, separated by `", "`.
pub fn schema_compatibility(statuses: &Vec<DatabaseMigrationStatus>) -> (r: Result<(), String>)
    ensures
        match r {
            Ok(()) => incompatible_labels(statuses@).len() == 0,
            Err(list) => incompatible_labels(statuses@).len() > 0 && list@ == joined(
                incompatible_labels(statuses@),
            ),
        },
{
    let mut list = String::new();
    let mut count: usize = 0;
    let mut k: usize = 0;
    while k < statuses.len()
        invariant
            k <= statuses@.len(),
            count == incompatible_labels(statuses@.take(k as int)).len(),
            count <= k,
            list@ == joined(incompatible_labels(statuses@.take(k as int))),
        decreases statuses.len() - k,
    {
        let status = &statuses[k];
        proof {
            assert(statuses@.take(k as int + 1).drop_last() =~= statuses@.take(k as int));
            assert(statuses@.take(k as int + 1).last() == *status);
        }
        let ghost old_list = list@;
        if !status.compatible {
            if count > 0 {
                string_push_str(&mut list, ", ");
            }
            string_push_str(&mut list, status.database.as_str());
            proof {
                let labels = incompatible_labels(statuses@.take(k as int + 1));
                let prior = incompatible_labels(statuses@.take(k as int));
                assert(labels == prior.push(status.database@));
                assert(labels.drop_last() =~= prior);
                if count == 0 {
                    assert(labels.len() == 1);
                    assert(list@ =~= labels[0]);
                } else {
                    assert(list@ =~= old_list + ", "@ + status.database@);
                }
            }
            count += 1;
        }
        k += 1;
    }
    proof {
        assert(statuses@.take(k as int) =~= statuses@);
    }
    if count == 0 {
        Ok(())
    } else {
        Err(list)
    }
}

/// The row that `idx` selects for version `v`; of several, the last one.
pub open spec fn selected_at(rows: Seq<AppliedMigration>, idx: Seq<usize>, v: i64) -> Option<AppliedMigration>
    decreases idx.len(),
{
    if idx.len() == 0 {
        None
    } else if rows[idx.last() as int].version == v {
        Some(rows[idx.last() as int])
    } else {
        selected_at(rows, idx.drop_last(), v)
    }
}

/// `idx` selects rows of `rows` in strictly ascending version order.
pub open spec fn selection_ascending(rows: Seq<AppliedMigration>, idx: Seq<usize>) -> bool {
    &&& forall|k: int| 0 <= k < idx.len() ==> (#[trigger] idx[k]) < rows.len()
    &&& forall|a: int, b: int|
        0 <= a < b < idx.len() ==> rows[(#[trigger] idx[a]) as int].version < rows[(#[trigger] idx[b]) as int].version
}

proof fn lemma_selected_at_sorted(rows: Seq<AppliedMigration>, idx: Seq<usize>, v: i64)
    requires
        selection_ascending(rows, idx),
    ensures
        (forall|j: int| 0 <= j < idx.len() ==> rows[(#[trigger] idx[j]) as int].version != v) ==> selected_at(
            rows,
            idx,
            v,
        ) is None,
        forall|j: int|
            0 <= j < idx.len() && rows[(#[trigger] idx[j]) as int].version == v ==> selected_at(rows, idx, v)
                == Some(rows[idx[j] as int]),
    decreases idx.len(),
{
    if idx.len() > 0 {
        let t = idx.drop_last();
        assert forall|a: int, b: int| 0 <= a < b < t.len() implies rows[(#[trigger] t[a]) as int].version
            < rows[(#[trigger] t[b]) as int].version by {
            assert(t[a] == idx[a] && t[b] == idx[b]);
        }
        assert forall|k: int| 0 <= k < t.len() implies (#[trigger] t[k]) < rows.len() by {
            assert(t[k] == idx[k]);
        }
        lemma_selected_at_sorted(rows, t, v);
        assert forall|j: int| 0 <= j < idx.len() && rows[(#[trigger] idx[j]) as int].version == v implies selected_at(
            rows,
            idx,
            v,
        ) == Some(rows[idx[j] as int]) by {
            if j < idx.len() - 1 {
                assert(t[j] == idx[j]);
                assert(rows[idx[j] as int].version < rows[idx[idx.len() - 1] as int].version);
            }
        }
        if forall|j: int| 0 <= j < idx.len() ==> rows[(#[trigger] idx[j]) as int].version != v {
            assert forall|j: int| 0 <= j < t.len() implies rows[(#[trigger] t[j]) as int].version != v by {
                assert(t[j] == idx[j]);
            }
        }
    }
}

proof fn lemma_embedded_at_sorted(cat: Seq<EmbeddedMigration>, v: i64)
    requires
        catalog_ascending(cat),
    ensures
        (forall|j: int| 0 <= j < cat.len() ==> (#[trigger] cat[j]).version != v) ==> embedded_at(cat, v) is None,
        forall|j: int| 0 <= j < cat.len() && (#[trigger] cat[j]).version == v ==> embedded_at(cat, v) == Some(cat[j]),
    decreases cat.len(),
{
    if cat.len() > 0 {
        let t = cat.drop_last();
        assert forall|a: int, b: int| 0 <= a < b < t.len() implies (#[trigger] t[a]).version < (#[trigger] t[b]).version by {
            assert(t[a] == cat[a] && t[b] == cat[b]);
        }
        lemma_embedded_at_sorted(t, v);
        assert forall|j: int| 0 <= j < cat.len() && (#[trigger] cat[j]).version == v implies embedded_at(cat, v)
            == Some(cat[j]) by {
            if j < cat.len() - 1 {
                assert(t[j] == cat[j]);
                assert(cat[j].version < cat[cat.len() - 1].version);
            }
        }
        if forall|j: int| 0 <= j < cat.len() ==> (#[trigger] cat[j]).version != v {
            assert forall|j: int| 0 <= j < t.len() implies (#[trigger] t[j]).version != v by {
                assert(t[j] == cat[j]);
            }
        }
    }
}

/// Selects one row per applied version, in ascending version order; of several rows with one
/// version the last one is selected.
fn select_applied(rows: &Vec<AppliedMigration>) -> (idx: Vec<usize>)
    ensures
        selection_ascending(rows@, idx@),
        forall|v: i64| selected_at(rows@, idx@, v) == applied_at(rows@, v),
{
    let mut idx: Vec<usize> = Vec::new();
    let mut i: usize = 0;
    while i < rows.len()
        invariant
            i <= rows@.len(),
            selection_ascending(rows@, idx@),
            forall|v: i64| selected_at(rows@, idx@, v) == applied_at(rows@.take(i as int), v),
        decreases rows.len() - i,
    {
        let version = rows[i].version;
        let ghost before = idx@;
        let mut k: usize = 0;
        while k < idx.len() && rows[idx[k]].version < version
            invariant
                k <= idx@.len(),
                idx@ == before,
                selection_ascending(rows@, idx@),
                i < rows@.len(),
                version == rows@[i as int].version,
                forall|j: int| 0 <= j < k ==> rows@[(#[trigger] idx@[j]) as int].version < version,
            decreases idx.len() - k,
        {
            k += 1;
        }
        let replace = k < idx.len() && rows[idx[k]].version == version;
        if replace {
            idx.set(k, i);
        } else {
            idx.insert(k, i);
        }
        proof {
            let after = idx@;
            let r = rows@;
            assert forall|q: int| 0 <= q < after.len() implies (#[trigger] after[q]) < r.len() by {
                if replace {
                    if q != k {
                        assert(after[q] == before[q]);
                    }
                } else if q < k {
                    assert(after[q] == before[q]);
                } else if q > k {
                    assert(after[q] == before[q - 1]);
                }
            }
            assert forall|x: int, y: int| 0 <= x < y < after.len() implies r[(#[trigger] after[x]) as int].version
                < r[(#[trigger] after[y]) as int].version by {
                if replace {
                    if x != k {
                        assert(after[x] == before[x]);
                    }
                    if y != k {
                        assert(after[y] == before[y]);
                    }
                } else {
                    if x > k {
                        assert(after[x] == before[x - 1] && after[y] == before[y - 1]);
                    } else if x == k {
                        assert(after[y] == before[y - 1]);
                        if y - 1 > k {
                            assert(r[before[k as int] as int].version < r[before[y - 1] as int].version);
                        }
                    } else if y < k {
                        assert(after[x] == before[x] && after[y] == before[y]);
                    } else if y == k {
                        assert(after[x] == before[x]);
                    } else {
                        assert(after[x] == before[x] && after[y] == before[y - 1]);
                        if y - 1 > k {
                            assert(r[before[k as int] as int].version < r[before[y - 1] as int].version);
                        }
                    }
                }
            }
            assert(r.take(i as int + 1).drop_last() =~= r.take(i as int));
            assert(r.take(i as int + 1).last() == r[i as int]);
            assert forall|v: i64| selected_at(r, after, v) == applied_at(r.take(i as int + 1), v) by {
                lemma_selected_at_sorted(r, before, v);
                lemma_selected_at_sorted(r, after, v);
                assert(after[k as int] == i);
                if v != version {
                    if exists|j: int| 0 <= j < before.len() && r[(#[trigger] before[j]) as int].version == v {
                        let j = choose|j: int| 0 <= j < before.len() && r[(#[trigger] before[j]) as int].version == v;
                        if replace || j < k {
                            assert(after[j] == before[j]);
                        } else {
                            assert(after[j + 1] == before[j]);
                        }
                    }
                    assert forall|j: int| 0 <= j < after.len() && r[(#[trigger] after[j]) as int].version == v implies exists|jj: int|
                        0 <= jj < before.len() && before[jj] == after[j] by {
                        if replace || j < k {
                            assert(before[j] == after[j]);
                        } else if j > k {
                            assert(before[j - 1] == after[j]);
                        }
                    }
                }
            }
        }
        i += 1;
    }
    proof {
        assert(rows@.take(i as int) =~= rows@);
    }
    idx
}

/// Some catalog migration before position `i` has version `v`.
pub open spec fn catalog_prefix_has(cat: Seq<EmbeddedMigration>, i: int, v: i64) -> bool {
    exists|a: int| 0 <= a < i && (#[trigger] cat[a]).version == v
}

/// Some selected row before position `j` has version `v`.
pub open spec fn selection_prefix_has(rows: Seq<AppliedMigration>, idx: Seq<usize>, j: int, v: i64) -> bool {
    exists|b: int| 0 <= b < j && rows[(#[trigger] idx[b]) as int].version == v
}

fn max_applied_version(rows: &Vec<AppliedMigration>) -> (r: Option<i64>)
    ensures
        r == max_applied(rows@),
{
    let mut best: Option<i64> = None;
    let mut k: usize = 0;
    while k < rows.len()
        invariant
            k <= rows@.len(),
            best == max_applied(rows@.take(k as int)),
        decreases rows.len() - k,
    {
        proof {
            assert(rows@.take(k as int + 1).drop_last() =~= rows@.take(k as int));
            assert(rows@.take(k as int + 1).last() == rows@[k as int]);
        }
        let v = rows[k].version;
        best = match best {
            Some(m) => Some(if v > m { v } else { m }),
            None => Some(v),
        };
        k += 1;
    }
    proof {
        assert(rows@.take(k as int) =~= rows@);
    }
    best
}

fn max_embedded_version(cat: &Vec<EmbeddedMigration>) -> (r: Option<i64>)
    ensures
        r == max_embedded(cat@),
{
    let mut best: Option<i64> = None;
    let mut k: usize = 0;
    while k < cat.len()
        invariant
            k <= cat@.len(),
            best == max_embedded(cat@.take(k as int)),
        decreases cat.len() - k,
    {
        proof {
            assert(cat@.take(k as int + 1).drop_last() =~= cat@.take(k as int));
            assert(cat@.take(k as int + 1).last() == cat@[k as int]);
        }
        let v = cat[k].version;
        best = match best {
            Some(m) => Some(if v > m { v } else { m }),
            None => Some(v),
        };
        k += 1;
    }
    proof {
        assert(cat@.take(k as int) =~= cat@);
    }
    best
}

fn checksums_equal(a: &Vec<u8>, b: &Vec<u8>) -> (r: bool)
    ensures
        r == (a@ == b@),
{
    if a.len() != b.len() {
        return false;
    }
    let mut k: usize = 0;
    while k < a.len()
        invariant
            k <= a@.len(),
            a@.len() == b@.len(),
            forall|j: int| 0 <= j < k ==> a@[j] == b@[j],
        decreases a.len() - k,
    {
        if a[k] != b[k] {
            return false;
        }
        k += 1;
    }
    proof {
        assert(a@ =~= b@);
    }
    true
}

/// The entry of a catalog migration, given the applied row of its version if any.
fn embedded_entry(e: &EmbeddedMigration, row: Option<&AppliedMigration>) -> (r: MigrationStatusEntry)
    ensures
        r.version == e.version,
        r.description@ == e.description@,
        r.checksum@ == hex(e.checksum@),
        r.state == match row {
            Some(a) => if !a.success {
                MigrationState::Dirty
            } else if a.checksum@ == e.checksum@ {
                MigrationState::Applied
            } else {
                MigrationState::ChecksumMismatch
            },
            None => MigrationState::Pending,
        },
{
    let state = match row {
        Some(a) => if !a.success {
            MigrationState::Dirty
        } else if checksums_equal(&a.checksum, &e.checksum) {
            MigrationState::Applied
        } else {
            MigrationState::ChecksumMismatch
        },
        None => MigrationState::Pending,
    };
    MigrationStatusEntry {
        version: e.version,
        description: e.description.clone(),
        checksum: encode_checksum(e.checksum.as_slice()),
        state,
    }
}

/// The entry of an applied migration that the catalog does not know.
fn unknown_entry(a: &AppliedMigration) -> (r: MigrationStatusEntry)
    ensures
        r.version == a.version,
        r.description@ == "unknown applied migration"@,
        r.checksum@ == hex(a.checksum@),
        r.state == (if a.success { MigrationState::Unknown } else { MigrationState::Dirty }),
{
    MigrationStatusEntry {
        version: a.version,
        description: "unknown applied migration".to_owned(),
        checksum: encode_checksum(a.checksum.as_slice()),
        state: if a.success { MigrationState::Unknown } else { MigrationState::Dirty },
    }
}

/// Walks the catalog and the selected rows together in ascending version order.
#[verifier::rlimit(40)]
fn merge_entries(cat: &Vec<EmbeddedMigration>, rows: &Vec<AppliedMigration>, idx: &Vec<usize>) -> (r: (
    Vec<MigrationStatusEntry>,
    bool,
))
    requires
        catalog_ascending(cat@),
        selection_ascending(rows@, idx@),
        forall|v: i64| selected_at(rows@, idx@, v) == applied_at(rows@, v),
    ensures
        entries_ascending(r.0@),
        forall|k: int| 0 <= k < r.0@.len() ==> entry_view(#[trigger] r.0@[k]) == entry_for(cat@, rows@, r.0@[k].version),
        forall|v: i64| lists_version(r.0@, v) <==> (catalog_prefix_has(cat@, cat@.len() as int, v) || selection_prefix_has(
            rows@,
            idx@,
            idx@.len() as int,
            v,
        )),
        r.1 == forall|k: int| 0 <= k < r.0@.len() ==> (#[trigger] r.0@[k]).state == MigrationState::Applied,
{
    let mut out: Vec<MigrationStatusEntry> = Vec::new();
    let mut all_applied = true;
    let mut i: usize = 0;
    let mut j: usize = 0;
    while i < cat.len() || j < idx.len()
        invariant
            i <= cat@.len(),
            j <= idx@.len(),
            catalog_ascending(cat@),
            selection_ascending(rows@, idx@),
            forall|v: i64| selected_at(rows@, idx@, v) == applied_at(rows@, v),
            entries_ascending(out@),
            i < cat@.len() ==> forall|b: int| 0 <= b < j ==> rows@[(#[trigger] idx@[b]) as int].version < cat@[i as int].version,
            j < idx@.len() ==> forall|a: int| 0 <= a < i ==> (#[trigger] cat@[a]).version < rows@[idx@[j as int] as int].version,
            i < cat@.len() ==> forall|k: int| 0 <= k < out@.len() ==> (#[trigger] out@[k]).version < cat@[i as int].version,
            j < idx@.len() ==> forall|k: int| 0 <= k < out@.len() ==> (#[trigger] out@[k]).version < rows@[idx@[j as int] as int].version,
            forall|k: int| 0 <= k < out@.len() ==> entry_view(#[trigger] out@[k]) == entry_for(cat@, rows@, out@[k].version),
            forall|v: i64| lists_version(out@, v) <==> (catalog_prefix_has(cat@, i as int, v) || selection_prefix_has(
                rows@,
                idx@,
                j as int,
                v,
            )),
            all_applied == forall|k: int| 0 <= k < out@.len() ==> (#[trigger] out@[k]).state == MigrationState::Applied,
        decreases cat.len() + idx.len() - i - j,
    {
        let ghost before = out@;
        let take_row = j < idx.len() && (i >= cat.len() || rows[idx[j]].version <= cat[i].version);
        let take_cat = i < cat.len() && (j >= idx.len() || cat[i].version <= rows[idx[j]].version);
        let entry = if take_cat {
            let e = &cat[i];
            let row = if take_row { Some(&rows[idx[j]]) } else { None };
            embedded_entry(e, row)
        } else {
            unknown_entry(&rows[idx[j]])
        };
        let v = entry.version;
        proof {
            lemma_embedded_at_sorted(cat@, v);
            lemma_selected_at_sorted(rows@, idx@, v);
            if take_cat {
                assert(cat@[i as int].version == v);
                assert(embedded_at(cat@, v) == Some(cat@[i as int]));
                if take_row {
                    assert(selected_at(rows@, idx@, v) == Some(rows@[idx@[j as int] as int]));
                } else {
                    assert forall|b: int| 0 <= b < idx@.len() implies rows@[(#[trigger] idx@[b]) as int].version != v by {
                        if b >= j {
                            assert(rows@[idx@[b] as int].version >= rows@[idx@[j as int] as int].version);
                        }
                    }
                }
            } else {
                assert(rows@[idx@[j as int] as int].version == v);
                assert(selected_at(rows@, idx@, v) == Some(rows@[idx@[j as int] as int]));
                assert forall|a: int| 0 <= a < cat@.len() implies (#[trigger] cat@[a]).version != v by {
                    if a >= i {
                        assert(cat@[a].version >= cat@[i as int].version);
                    }
                }
            }
            assert(entry_view(entry) == entry_for(cat@, rows@, v));
        }
        let ghost old_all = all_applied;
        if entry.state != MigrationState::Applied {
            all_applied = false;
        }
        out.push(entry);
        if take_cat {
            i += 1;
        }
        if take_row {
            j += 1;
        }
        proof {
            let after = out@;
            assert(after == before.push(entry));
            if all_applied {
                assert forall|k: int| 0 <= k < after.len() implies (#[trigger] after[k]).state == MigrationState::Applied by {
                    if k < before.len() {
                        assert(after[k] == before[k]);
                    }
                }
            } else if entry.state != MigrationState::Applied {
                assert(after[after.len() - 1].state != MigrationState::Applied);
            } else {
                assert(!old_all);
                let k = choose|k: int| 0 <= k < before.len() && (#[trigger] before[k]).state != MigrationState::Applied;
                assert(after[k] == before[k]);
            }
            assert forall|x: int, y: int| 0 <= x < y < after.len() implies (#[trigger] after[x]).version < (#[trigger] after[y]).version by {
                if y < before.len() {
                    assert(after[x] == before[x] && after[y] == before[y]);
                } else {
                    assert(after[x] == before[x]);
                }
            }
            assert forall|v2: i64| lists_version(after, v2) <==> (catalog_prefix_has(cat@, i as int, v2) || selection_prefix_has(
                rows@,
                idx@,
                j as int,
                v2,
            )) by {
                if lists_version(after, v2) {
                    let k = choose|k: int| 0 <= k < after.len() && (#[trigger] after[k]).version == v2;
                    if k < before.len() {
                        assert(before[k].version == v2);
                        assert(lists_version(before, v2));
                    }
                }
                if lists_version(before, v2) {
                    let k = choose|k: int| 0 <= k < before.len() && (#[trigger] before[k]).version == v2;
                    assert(after[k].version == v2);
                }
                assert(after[after.len() - 1].version == v);
                if take_cat {
                    assert(cat@[i - 1].version == v);
                }
                if take_row {
                    assert(rows@[idx@[j - 1] as int].version == v);
                }
            }
        }
    }
    (out, all_applied)
}

/// Relates the migrations a database has applied to the catalog embedded in this release. Every
/// catalog version and every applied version gets one entry, in ascending version order; the
/// database is compatible when every entry is applied.
pub fn build_status(
    database: String,
    kind: MigrationKind,
    catalog: &Vec<EmbeddedMigration>,
    applied_rows: Vec<AppliedMigration>,
) -> (r: DatabaseMigrationStatus)
    requires
        catalog_ascending(catalog@),
    ensures
        status_matches(r, database@, kind, catalog@, applied_rows@),
{
    let current_version = max_applied_version(&applied_rows);
    let target_version = max_embedded_version(catalog);
    let idx = select_applied(&applied_rows);
    let (migrations, compatible) = merge_entries(catalog, &applied_rows, &idx);
    proof {
        let cat = catalog@;
        let rows = applied_rows@;
        assert forall|v: i64| lists_version(migrations@, v) <==> (embedded_at(cat, v) is Some || applied_at(rows, v) is Some) by {
            lemma_embedded_at_sorted(cat, v);
            lemma_selected_at_sorted(rows, idx@, v);
            if catalog_prefix_has(cat, cat.len() as int, v) {
                let a = choose|a: int| 0 <= a < cat.len() && (#[trigger] cat[a]).version == v;
            }
            if selection_prefix_has(rows, idx@, idx@.len() as int, v) {
                let b = choose|b: int| 0 <= b < idx@.len() && rows[(#[trigger] idx@[b]) as int].version == v;
            }
        }
    }
    DatabaseMigrationStatus { database, kind, current_version, target_version, compatible, migrations }
}

/// Startup is refused exactly when some database is incompatible.
pub proof fn startup_requires_every_database_compatible(statuses: Seq<DatabaseMigrationStatus>)
    ensures
        (incompatible_labels(statuses).len() == 0) == (forall|i: int|
            0 <= i < statuses.len() ==> (#[trigger] statuses[i]).compatible),
    decreases statuses.len(),
{
    if statuses.len() > 0 {
        let t = statuses.drop_last();
        startup_requires_every_database_compatible(t);
        lemma_incompatible_labels_len(t);
        if forall|i: int| 0 <= i < statuses.len() ==> (#[trigger] statuses[i]).compatible {
            assert forall|i: int| 0 <= i < t.len() implies (#[trigger] t[i]).compatible by {
                assert(t[i] == statuses[i]);
            }
            assert(statuses.last() == statuses[statuses.len() - 1]);
        } else {
            let i = choose|i: int| 0 <= i < statuses.len() && !(#[trigger] statuses[i]).compatible;
            if i < statuses.len() - 1 {
                assert(t[i] == statuses[i]);
            } else {
                assert(statuses.last() == statuses[i]);
            }
        }
    }
}

proof fn lemma_incompatible_labels_len(statuses: Seq<DatabaseMigrationStatus>)
    ensures
        incompatible_labels(statuses).len() <= statuses.len(),
    decreases statuses.len(),
{
    if statuses.len() > 0 {
        lemma_incompatible_labels_len(statuses.drop_last());
    }
}

proof fn lemma_embedded_at_member(cat: Seq<EmbeddedMigration>, v: i64)
    ensures
        embedded_at(cat, v) matches Some(e) ==> e.version == v && exists|i: int| 0 <= i < cat.len() && cat[i] == e,
        (exists|i: int| 0 <= i < cat.len() && (#[trigger] cat[i]).version == v) ==> embedded_at(cat, v) is Some,
    decreases cat.len(),
{
    if cat.len() > 0 {
        let t = cat.drop_last();
        lemma_embedded_at_member(t, v);
        if embedded_at(t, v) is Some && cat.last().version != v {
            let i = choose|i: int| 0 <= i < t.len() && t[i] == embedded_at(t, v)->Some_0;
            assert(cat[i] == t[i]);
        }
        assert(cat[cat.len() - 1] == cat.last());
        if exists|i: int| 0 <= i < cat.len() && (#[trigger] cat[i]).version == v {
            let i = choose|i: int| 0 <= i < cat.len() && (#[trigger] cat[i]).version == v;
            if i < t.len() {
                assert(t[i] == cat[i]);
            }
        }
    }
}

proof fn lemma_embedded_at_ascending(cat: Seq<EmbeddedMigration>, i: int)
    requires
        catalog_ascending(cat),
        0 <= i < cat.len(),
    ensures
        embedded_at(cat, cat[i].version) == Some(cat[i]),
    decreases cat.len(),
{
    let t = cat.drop_last();
    if i < cat.len() - 1 {
        assert(cat[i].version < cat[cat.len() - 1].version);
        assert(catalog_ascending(t)) by {
            assert forall|a: int, b: int| 0 <= a < b < t.len() implies (#[trigger] t[a]).version < (
            #[trigger] t[b]).version by {
                assert(t[a] == cat[a] && t[b] == cat[b]);
            }
        }
        lemma_embedded_at_ascending(t, i);
        assert(t[i] == cat[i]);
    }
}

proof fn lemma_applied_at_member(rows: Seq<AppliedMigration>, v: i64)
    ensures
        applied_at(rows, v) matches Some(r) ==> r.version == v && exists|j: int| 0 <= j < rows.len() && rows[j] == r,
        (exists|j: int| 0 <= j < rows.len() && (#[trigger] rows[j]).version == v) ==> applied_at(rows, v) is Some,
    decreases rows.len(),
{
    if rows.len() > 0 {
        let t = rows.drop_last();
        lemma_applied_at_member(t, v);
        if applied_at(t, v) is Some && rows.last().version != v {
            let j = choose|j: int| 0 <= j < t.len() && t[j] == applied_at(t, v)->Some_0;
            assert(rows[j] == t[j]);
        }
        assert(rows[rows.len() - 1] == rows.last());
        if exists|j: int| 0 <= j < rows.len() && (#[trigger] rows[j]).version == v {
            let j = choose|j: int| 0 <= j < rows.len() && (#[trigger] rows[j]).version == v;
            if j < t.len() {
                assert(t[j] == rows[j]);
            }
        }
    }
}

/// Every catalog migration has a successful applied row with the same checksum.
pub open spec fn catalog_applied(cat: Seq<EmbeddedMigration>, rows: Seq<AppliedMigration>) -> bool {
    forall|i: int|
        0 <= i < cat.len() ==> exists|j: int|
            0 <= j < rows.len() && (#[trigger] rows[j]).version == (#[trigger] cat[i]).version && rows[j].success
                && rows[j].checksum@ == cat[i].checksum@
}

/// Like `catalog_applied`, with that row the last one recorded for its version.
pub open spec fn catalog_applied_last(cat: Seq<EmbeddedMigration>, rows: Seq<AppliedMigration>) -> bool {
    forall|i: int|
        0 <= i < cat.len() ==> exists|j: int|
            0 <= j < rows.len() && (#[trigger] rows[j]).version == (#[trigger] cat[i]).version && rows[j].success
                && rows[j].checksum@ == cat[i].checksum@ && forall|j2: int|
                j < j2 < rows.len() ==> rows[j2].version != cat[i].version
}

/// Every applied row belongs to a migration of the catalog.
pub open spec fn rows_known(cat: Seq<EmbeddedMigration>, rows: Seq<AppliedMigration>) -> bool {
    forall|j: int|
        0 <= j < rows.len() ==> exists|i: int| 0 <= i < cat.len() && (#[trigger] cat[i]).version == (
        #[trigger] rows[j]).version
}

proof fn lemma_compatible_applies_catalog(
    st: DatabaseMigrationStatus,
    database: Seq<char>,
    kind: MigrationKind,
    cat: Seq<EmbeddedMigration>,
    rows: Seq<AppliedMigration>,
)
    requires
        catalog_ascending(cat),
        status_matches(st, database, kind, cat, rows),
        st.compatible,
    ensures
        catalog_applied(cat, rows),
{
    let m = st.migrations@;
    assert forall|i: int| 0 <= i < cat.len() implies exists|j: int|
        0 <= j < rows.len() && (#[trigger] rows[j]).version == (#[trigger] cat[i]).version && rows[j].success
            && rows[j].checksum@ == cat[i].checksum@ by {
        let v = cat[i].version;
        lemma_embedded_at_ascending(cat, i);
        assert(lists_version(m, v));
        let k = choose|k: int| 0 <= k < m.len() && (#[trigger] m[k]).version == v;
        assert(entry_view(m[k]) == entry_for(cat, rows, v));
        assert(m[k].state == MigrationState::Applied);
        lemma_applied_at_member(rows, v);
        let r = applied_at(rows, v)->Some_0;
        let j = choose|j: int| 0 <= j < rows.len() && rows[j] == r;
        assert(rows[j].version == cat[i].version);
    }
}

proof fn lemma_compatible_rows_known(
    st: DatabaseMigrationStatus,
    database: Seq<char>,
    kind: MigrationKind,
    cat: Seq<EmbeddedMigration>,
    rows: Seq<AppliedMigration>,
)
    requires
        status_matches(st, database, kind, cat, rows),
        st.compatible,
    ensures
        rows_known(cat, rows),
{
    let m = st.migrations@;
    assert forall|j: int| 0 <= j < rows.len() implies exists|i: int| 0 <= i < cat.len() && (
    #[trigger] cat[i]).version == (#[trigger] rows[j]).version by {
        let v = rows[j].version;
        lemma_applied_at_member(rows, v);
        assert(lists_version(m, v));
        let k = choose|k: int| 0 <= k < m.len() && (#[trigger] m[k]).version == v;
        assert(entry_view(m[k]) == entry_for(cat, rows, v));
        assert(m[k].state == MigrationState::Applied);
        lemma_embedded_at_member(cat, v);
        let e = embedded_at(cat, v)->Some_0;
        let i = choose|i: int| 0 <= i < cat.len() && cat[i] == e;
        assert(cat[i].version == rows[j].version);
    }
}

proof fn lemma_unapplied_pending(
    st: DatabaseMigrationStatus,
    database: Seq<char>,
    kind: MigrationKind,
    cat: Seq<EmbeddedMigration>,
    rows: Seq<AppliedMigration>,
    i: int,
    k: int,
)
    requires
        catalog_ascending(cat),
        status_matches(st, database, kind, cat, rows),
        0 <= i < cat.len(),
        0 <= k < st.migrations@.len(),
        st.migrations@[k].version == cat[i].version,
        forall|j: int| 0 <= j < rows.len() ==> (#[trigger] rows[j]).version != cat[i].version,
    ensures
        st.migrations@[k].state == MigrationState::Pending,
{
    let m = st.migrations@;
    let v = cat[i].version;
    lemma_embedded_at_ascending(cat, i);
    lemma_applied_at_member(rows, v);
    assert(entry_view(m[k]) == entry_for(cat, rows, v));
}

proof fn lemma_migrated_compatible(
    st: DatabaseMigrationStatus,
    database: Seq<char>,
    kind: MigrationKind,
    cat: Seq<EmbeddedMigration>,
    rows: Seq<AppliedMigration>,
)
    requires
        catalog_ascending(cat),
        status_matches(st, database, kind, cat, rows),
        catalog_applied_last(cat, rows),
        rows_known(cat, rows),
    ensures
        st.compatible,
{
    let m = st.migrations@;
    assert forall|k: int| 0 <= k < m.len() implies (#[trigger] m[k]).state == MigrationState::Applied by {
        let v = m[k].version;
        assert(lists_version(m, v));
        assert(entry_view(m[k]) == entry_for(cat, rows, v));
        lemma_embedded_at_member(cat, v);
        lemma_applied_at_member(rows, v);
        if embedded_at(cat, v) is None {
            let j = choose|j: int| 0 <= j < rows.len() && rows[j] == applied_at(rows, v)->Some_0;
            let i = choose|i: int| 0 <= i < cat.len() && (#[trigger] cat[i]).version == (#[trigger] rows[j]).version;
            assert(cat[i].version == v);
        }
        let e = embedded_at(cat, v)->Some_0;
        let i = choose|i: int| 0 <= i < cat.len() && cat[i] == e;
        lemma_embedded_at_ascending(cat, i);
        let j = choose|j: int|
            0 <= j < rows.len() && (#[trigger] rows[j]).version == (#[trigger] cat[i]).version && rows[j].success
                && rows[j].checksum@ == cat[i].checksum@ && forall|j2: int|
                j < j2 < rows.len() ==> rows[j2].version != cat[i].version;
        lemma_applied_last(rows, v, j);
    }
}

/// A database is compatible only when its schema is the release's: every migration of the
/// catalog has a successful applied row with the same checksum, and every applied row belongs
/// to a migration of the catalog; and it is compatible when, in addition, that row is the last
/// one recorded for its version. A catalog migration that no row applies is listed as pending.
pub proof fn compatible_means_fully_migrated(
    st: DatabaseMigrationStatus,
    database: Seq<char>,
    kind: MigrationKind,
    cat: Seq<EmbeddedMigration>,
    rows: Seq<AppliedMigration>,
)
    requires
        catalog_ascending(cat),
        status_matches(st, database, kind, cat, rows),
    ensures
        st.compatible ==> catalog_applied(cat, rows) && rows_known(cat, rows),
        catalog_applied_last(cat, rows) && rows_known(cat, rows) ==> st.compatible,
        forall|i: int, k: int|
            0 <= i < cat.len() && 0 <= k < st.migrations@.len() && (#[trigger] st.migrations@[k]).version == (
            #[trigger] cat[i]).version && (forall|j: int| 0 <= j < rows.len() ==> rows[j].version != cat[i].version)
                ==> st.migrations@[k].state == MigrationState::Pending,
{
    if st.compatible {
        lemma_compatible_applies_catalog(st, database, kind, cat, rows);
        lemma_compatible_rows_known(st, database, kind, cat, rows);
    }
    if catalog_applied_last(cat, rows) && rows_known(cat, rows) {
        lemma_migrated_compatible(st, database, kind, cat, rows);
    }
    assert forall|i: int, k: int|
        0 <= i < cat.len() && 0 <= k < st.migrations@.len() && (#[trigger] st.migrations@[k]).version == (
        #[trigger] cat[i]).version && (forall|j: int| 0 <= j < rows.len() ==> rows[j].version != cat[i].version)
        implies st.migrations@[k].state == MigrationState::Pending by {
        lemma_unapplied_pending(st, database, kind, cat, rows, i, k);
    }
}

/// When row `j` has version `v` and no later row does, it is the row that counts for `v`.
proof fn lemma_applied_last(rows: Seq<AppliedMigration>, v: i64, j: int)
    requires
        0 <= j < rows.len(),
        rows[j].version == v,
        forall|j2: int| j < j2 < rows.len() ==> rows[j2].version != v,
    ensures
        applied_at(rows, v) == Some(rows[j]),
    decreases rows.len(),
{
    let t = rows.drop_last();
    if j < rows.len() - 1 {
        assert(rows[rows.len() - 1].version != v);
        assert forall|j2: int| j < j2 < t.len() implies t[j2].version != v by {
            assert(t[j2] == rows[j2]);
        }
        lemma_applied_last(t, v, j);
        assert(t[j] == rows[j]);
    }
}

} // verus!

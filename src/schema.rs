use vstd::prelude::*;

verus! {

/// The schema version that this code expects the store to hold.
pub const LATEST_SCHEMA_VERSION: u32 = 1;

#[derive(Debug, PartialEq, Eq, Structural, Clone, Copy)]
pub enum MigrationError {
    /// The store holds a version that this code does not know: it is newer
    /// than the latest, or negative.
    UnsupportedSchemaVersion(i64),
}

/// The steps, by target version, that bring a store from version `from` to
/// the latest, in order: `from + 1, ..., LATEST_SCHEMA_VERSION`.
pub open spec fn pending_steps(from: int) -> Seq<u32> {
    Seq::new(
        (if from < LATEST_SCHEMA_VERSION { LATEST_SCHEMA_VERSION - from } else { 0int }) as nat,
        |i: int| (from + 1 + i) as u32,
    )
}

/// The version a store at `from` holds after the steps run in order; `None`
/// where a step does not move the version up by exactly one, or goes past the
/// latest.
pub open spec fn version_after(from: int, steps: Seq<u32>) -> Option<int>
    decreases steps.len(),
{
    if steps.len() == 0 {
        Some(from)
    } else if steps[0] == from + 1 && steps[0] <= LATEST_SCHEMA_VERSION {
        version_after(steps[0] as int, steps.drop_first())
    } else {
        None
    }
}

pub open spec fn is_known_version(v: int) -> bool {
    0 <= v <= LATEST_SCHEMA_VERSION
}

/// Walks a store from the version it reports to the latest, one step at a
/// time. The caller runs each step it hands out, together with the version
/// bump, as one transaction, and then records it.
pub struct SchemaMigrator {
    version: u32,
}

impl SchemaMigrator {
    pub closed spec fn version(&self) -> int {
        self.version as int
    }

    pub closed spec fn wf(&self) -> bool {
        self.version <= LATEST_SCHEMA_VERSION
    }

    /// Starts from the version that the store reports. A version this code
    /// does not know is refused before any step is handed out.
    pub fn start(reported: i64) -> (r: Result<SchemaMigrator, MigrationError>)
        ensures
            is_known_version(reported as int) <==> r is Ok,
            r matches Ok(m) ==> m.wf() && m.version() == reported,
            !is_known_version(reported as int) ==> r == Err::<SchemaMigrator, MigrationError>(
                MigrationError::UnsupportedSchemaVersion(reported),
            ),
    {
        if reported < 0 || reported > LATEST_SCHEMA_VERSION as i64 {
            Err(MigrationError::UnsupportedSchemaVersion(reported))
        } else {
            Ok(SchemaMigrator { version: reported as u32 })
        }
    }

    /// The next step to run, by its target version; `None` once the store is
    /// at the latest version.
    pub fn next_step(&self) -> (r: Option<u32>)
        requires
            self.wf(),
        ensures
            r == (if self.version() < LATEST_SCHEMA_VERSION {
                Some((self.version() + 1) as u32)
            } else {
                None::<u32>
            }),
            r matches Some(s) ==> pending_steps(self.version()) == seq![s] + pending_steps(
                s as int,
            ),
    {
        if self.version < LATEST_SCHEMA_VERSION {
            let s = self.version + 1;
            assert(pending_steps(self.version()) =~= seq![s] + pending_steps(s as int));
            Some(s)
        } else {
            None
        }
    }

    /// Records that the step to version `step` ran and committed.
    pub fn step_applied(&mut self, step: u32)
        requires
            old(self).wf(),
            step == old(self).version() + 1,
            step <= LATEST_SCHEMA_VERSION,
        ensures
            final(self).wf(),
            final(self).version() == step,
    {
        self.version = step;
    }

    /// True once the store is at the latest version.
    pub fn is_current(&self) -> (r: bool)
        ensures
            r == (self.version() == LATEST_SCHEMA_VERSION),
    {
        self.version == LATEST_SCHEMA_VERSION
    }
}

/// The whole list of steps to run for a store that reports `reported`: empty
/// for a store at the latest version, refused for a version this code does
/// not know.
pub fn migration_plan(reported: i64) -> (r: Result<Vec<u32>, MigrationError>)
    ensures
        is_known_version(reported as int) ==> (r matches Ok(steps) && steps@ == pending_steps(
            reported as int,
        )),
        !is_known_version(reported as int) ==> r == Err::<Vec<u32>, MigrationError>(
            MigrationError::UnsupportedSchemaVersion(reported),
        ),
{
    let m = SchemaMigrator::start(reported);
    match m {
        Err(e) => Err(e),
        Ok(mut m) => {
            let mut steps: Vec<u32> = Vec::new();
            loop
                invariant
                    m.wf(),
                    is_known_version(reported as int),
                    steps@ + pending_steps(m.version()) == pending_steps(reported as int),
                decreases LATEST_SCHEMA_VERSION - m.version(),
            {
                match m.next_step() {
                    None => {
                        assert(pending_steps(m.version()) =~= Seq::<u32>::empty());
                        assert(steps@ =~= steps@ + pending_steps(m.version()));
                        return Ok(steps);
                    },
                    Some(s) => {
                        proof {
                            assert(steps@.push(s) + pending_steps(s as int) =~= steps@ + (seq![s]
                                + pending_steps(s as int)));
                        }
                        steps.push(s);
                        m.step_applied(s);
                    },
                }
            }
        },
    }
}

/// The SQL that a step runs, by its target version. Each step is
/// self-contained and assumes the store is at the version before it.
pub fn migration_sql(step: u32) -> (r: &'static str)
    requires
        1 <= step <= LATEST_SCHEMA_VERSION,
    ensures
        r@ == SCHEMA_V1@,
{
    SCHEMA_V1
}

/// Version 1: the reference tables and the expense table, with foreign keys
/// that refuse to delete a row that something still points to.
pub const SCHEMA_V1: &'static str = "
CREATE TABLE Currency (
    id INTEGER PRIMARY KEY AUTOINCREMENT,
    name TEXT NOT NULL UNIQUE
);

CREATE TABLE Account (
    id INTEGER PRIMARY KEY AUTOINCREMENT,
    name TEXT NOT NULL,
    displayName TEXT,
    currencyId INTEGER NOT NULL,
    FOREIGN KEY (currencyId) REFERENCES Currency (id) ON DELETE RESTRICT
);

CREATE TABLE User (
    telegramId INTEGER PRIMARY KEY,
    telegramName TEXT NOT NULL,
    displayName TEXT NOT NULL
);

CREATE TABLE ExpenseCategory (
    id INTEGER PRIMARY KEY AUTOINCREMENT,
    name TEXT NOT NULL,
    active BOOLEAN NOT NULL DEFAULT 1,
    comments TEXT,
    sortingOrder INTEGER
);

CREATE TABLE Expense (
    id INTEGER PRIMARY KEY AUTOINCREMENT,
    accountId INTEGER NOT NULL,
    categoryId INTEGER NOT NULL,
    userId INTEGER NOT NULL,
    timestamp INTEGER NOT NULL,
    amount REAL NOT NULL,
    comments TEXT,
    FOREIGN KEY (accountId) REFERENCES Account (id) ON DELETE RESTRICT,
    FOREIGN KEY (categoryId) REFERENCES ExpenseCategory (id) ON DELETE RESTRICT,
    FOREIGN KEY (userId) REFERENCES User (telegramId) ON DELETE RESTRICT
);
";

/// From any version this code knows, the planned steps bring the store to
/// exactly the latest version, and a second run from there has nothing to do.
pub proof fn lemma_migration_reaches_latest(from: int)
    requires
        is_known_version(from),
    ensures
        version_after(from, pending_steps(from)) == Some(LATEST_SCHEMA_VERSION as int),
        pending_steps(LATEST_SCHEMA_VERSION as int).len() == 0,
    decreases LATEST_SCHEMA_VERSION - from,
{
    if from < LATEST_SCHEMA_VERSION {
        lemma_migration_reaches_latest(from + 1);
        assert(pending_steps(from).drop_first() =~= pending_steps(from + 1));
    }
}

/// A store that reports a version newer than the latest gets no step at all,
/// so nothing is written to it.
pub proof fn lemma_newer_store_untouched(reported: int)
    requires
        reported > LATEST_SCHEMA_VERSION,
    ensures
        !is_known_version(reported),
        pending_steps(reported).len() == 0,
{
}

} // verus!

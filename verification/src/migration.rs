//! Migration engine: an ordered plan of single-file moves, a sequential
//! orchestrator with a continue-or-abort failure policy, and the per-session
//! audit log of every attempted move. The orchestrator decides; performing a
//! move and writing the log durably belong to the surrounding program, which
//! reports each move's outcome back and receives the accumulated log.
use vstd::prelude::*;
use vstd::string::*;

verus! {

/// One planned single-file move: `{root}/source_relative_path/source_file_name`
/// to `{root}/destination_relative_path/source_file_name`, relative to a shared
/// root directory. The two operator-supplied root arguments are carried along
/// for display.
pub struct FsEntryMigration {
    pub source_arg: String,
    pub destination_arg: String,
    pub source_relative_path: String,
    pub destination_relative_path: String,
    pub source_file_name: String,
}

/// The migration plan: the shared root directory and the ordered moves.
pub struct MigrationsConfig {
    pub root_dir: String,
    pub migrations: Vec<FsEntryMigration>,
}

/// What the executor reports for one attempted move.
pub enum MoveOutcome {
    Success,
    Failure { message: String },
}

/// The failure that aborts an orchestration, propagated as its result.
pub struct MigrationError {
    pub message: String,
}

/// One durable audit-log record: the outcome of one attempted move, labeled
/// with the session that attempted it. The log is append-only and is the sole
/// channel by which a later process run learns what happened in a session.
pub enum LogRecord {
    Success { migration: FsEntryMigration, session_id: String },
    Failure { migration: FsEntryMigration, message: String, session_id: String },
}

/// Joins two path fragments with a `/`, leaving an empty fragment out.
pub open spec fn spec_path_join(a: Seq<char>, b: Seq<char>) -> Seq<char> {
    if a.len() == 0 {
        b
    } else if b.len() == 0 {
        a
    } else {
        a + seq!['/'] + b
    }
}

/// Joins two path fragments with a `/`, leaving an empty fragment out; an
/// empty destination-relative path denotes the root itself.
pub fn path_join(a: &str, b: &str) -> (r: String)
    ensures
        r@ == spec_path_join(a@, b@),
{
    if a.unicode_len() == 0 {
        return b.to_owned();
    }
    if b.unicode_len() == 0 {
        return a.to_owned();
    }
    let mut s = a.to_owned();
    proof {
        reveal_strlit("/");
        assert(("/")@ =~= seq!['/']);
    }
    s.append("/");
    s.append(b);
    s
}

impl FsEntryMigration {
    /// The file's current location under the shared root.
    pub fn source_path(&self, root_dir: &str) -> (r: String)
        ensures
            r@ == spec_path_join(
                spec_path_join(root_dir@, self.source_relative_path@),
                self.source_file_name@,
            ),
    {
        let dir = path_join(root_dir, self.source_relative_path.as_str());
        path_join(dir.as_str(), self.source_file_name.as_str())
    }

    /// The folder the file moves into under the shared root.
    pub fn destination_dir(&self, root_dir: &str) -> (r: String)
        ensures
            r@ == spec_path_join(root_dir@, self.destination_relative_path@),
    {
        path_join(root_dir, self.destination_relative_path.as_str())
    }

    /// The file's planned new location under the shared root.
    pub fn destination_path(&self, root_dir: &str) -> (r: String)
        ensures
            r@ == spec_path_join(
                spec_path_join(root_dir@, self.destination_relative_path@),
                self.source_file_name@,
            ),
    {
        let dir = path_join(root_dir, self.destination_relative_path.as_str());
        path_join(dir.as_str(), self.source_file_name.as_str())
    }
}

/// Drives the plan in order: one move at a time, a log record after every
/// attempt, and a continue-or-abort decision after every failure.
pub struct MigrationOrchestrator {
    pub root_dir: String,
    pub pending: Vec<FsEntryMigration>,
    pub log: Vec<LogRecord>,
    pub session_id: String,
    pub continue_on_error: bool,
    pub aborted: bool,
}

impl MigrationOrchestrator {
    /// Takes ownership of the plan for one single orchestration pass; nothing
    /// is attempted yet.
    pub fn new(
        migrations_config: MigrationsConfig,
        continue_on_fs_errors: bool,
        session_id: &String,
    ) -> (s: Self)
        ensures
            s.pending@ == migrations_config.migrations@,
            s.log@ == Seq::<LogRecord>::empty(),
            s.root_dir == migrations_config.root_dir,
            s.session_id == *session_id,
            s.continue_on_error == continue_on_fs_errors,
            !s.aborted,
    {
        MigrationOrchestrator {
            root_dir: migrations_config.root_dir,
            pending: migrations_config.migrations,
            log: Vec::new(),
            session_id: session_id.clone(),
            continue_on_error: continue_on_fs_errors,
            aborted: false,
        }
    }

    /// The move to attempt next, or nothing when the pass is over (every move
    /// attempted, or aborted on a failure with continue-on-error disabled).
    pub fn next_migration(&self) -> (r: Option<&FsEntryMigration>)
        ensures
            match r {
                Some(m) => !self.aborted && self.pending@.len() > 0 && *m == self.pending@[0],
                None => self.aborted || self.pending@.len() == 0,
            },
    {
        if self.aborted || self.pending.is_empty() {
            None
        } else {
            Some(&self.pending[0])
        }
    }

    /// Records that the pending move succeeded: exactly one success record is
    /// appended and the orchestration advances.
    pub fn record_success(&mut self)
        requires
            !old(self).aborted,
            old(self).pending@.len() > 0,
        ensures
            final(self).log@ == old(self).log@.push(
                LogRecord::Success {
                    migration: old(self).pending@[0],
                    session_id: old(self).session_id,
                },
            ),
            final(self).pending@ == old(self).pending@.skip(1),
            !final(self).aborted,
            final(self).root_dir == old(self).root_dir,
            final(self).session_id == old(self).session_id,
            final(self).continue_on_error == old(self).continue_on_error,
    {
        let migration = self.pending.remove(0);
        let session_id = self.session_id.clone();
        self.log.push(LogRecord::Success { migration, session_id });
        proof {
            assert(self.pending@ =~= old(self).pending@.skip(1));
        }
    }

    /// Records that the pending move failed: exactly one failure record with
    /// the error message is appended; with continue-on-error disabled the
    /// orchestration aborts (the remaining moves are never attempted),
    /// otherwise it advances best-effort.
    pub fn record_failure(&mut self, message: String)
        requires
            !old(self).aborted,
            old(self).pending@.len() > 0,
        ensures
            final(self).log@ == old(self).log@.push(
                LogRecord::Failure {
                    migration: old(self).pending@[0],
                    message,
                    session_id: old(self).session_id,
                },
            ),
            final(self).pending@ == old(self).pending@.skip(1),
            final(self).aborted == !old(self).continue_on_error,
            final(self).root_dir == old(self).root_dir,
            final(self).session_id == old(self).session_id,
            final(self).continue_on_error == old(self).continue_on_error,
    {
        let migration = self.pending.remove(0);
        let session_id = self.session_id.clone();
        self.log.push(LogRecord::Failure { migration, message, session_id });
        if !self.continue_on_error {
            self.aborted = true;
        }
        proof {
            assert(self.pending@ =~= old(self).pending@.skip(1));
        }
    }
}

/// The message a failure outcome carries; a success carries none.
pub open spec fn outcome_message(o: MoveOutcome) -> Seq<char> {
    match o {
        MoveOutcome::Success => Seq::empty(),
        MoveOutcome::Failure { message } => message@,
    }
}

/// The one log record that attempting move `m` with outcome `o` in session
/// `session` must produce.
pub open spec fn log_entry_for(
    rec: LogRecord,
    m: FsEntryMigration,
    o: MoveOutcome,
    session: Seq<char>,
) -> bool {
    match o {
        MoveOutcome::Success => rec matches LogRecord::Success { migration, session_id }
            && migration == m && session_id@ == session,
        MoveOutcome::Failure { message } => rec matches LogRecord::Failure {
            migration,
            message: logged,
            session_id,
        } && migration == m && logged@ == message@ && session_id@ == session,
    }
}

/// Whether a pass over these outcomes runs to completion: it always does with
/// continue-on-error enabled, and otherwise only when no move fails.
pub open spec fn completes(outcomes: Seq<MoveOutcome>, continue_on_error: bool) -> bool {
    continue_on_error || (forall|i: int|
        0 <= i < outcomes.len() ==> !(#[trigger] outcomes[i] is Failure))
}

/// Everything one orchestration pass leaves behind. On completion, every move
/// was attempted and logged, and the pass succeeds even if single moves failed
/// best-effort. On abort, the log holds exactly the attempted prefix - every
/// move before the first failure, then that failure - and the pass propagates
/// the triggering message; the remaining moves were never attempted.
pub open spec fn orchestration_post(
    plan: Seq<FsEntryMigration>,
    outcomes: Seq<MoveOutcome>,
    continue_on_error: bool,
    session: Seq<char>,
    log: Seq<LogRecord>,
    result: Result<(), MigrationError>,
) -> bool {
    &&& forall|i: int|
        0 <= i < log.len() ==> log_entry_for(#[trigger] log[i], plan[i], outcomes[i], session)
    &&& if completes(outcomes, continue_on_error) {
        log.len() == plan.len() && result is Ok
    } else {
        &&& result matches Err(e) && e.message@ == outcome_message(outcomes[log.len() - 1])
        &&& 0 < log.len() <= plan.len()
        &&& outcomes[log.len() - 1] is Failure
        &&& forall|i: int| 0 <= i < log.len() - 1 ==> !(#[trigger] outcomes[i] is Failure)
    }
}

/// One single orchestration pass over the whole plan, in order, given the
/// outcome the executor reports for each attempted move (`outcomes[i]` is what
/// attempting `migrations[i]` reports; entries after an abort are never
/// consulted). Returns the accumulated audit log and the pass's own result.
#[verifier::loop_isolation(false)]
pub fn start_migrations(
    migrations_config: MigrationsConfig,
    continue_on_fs_errors: bool,
    session_id: &String,
    outcomes: &Vec<MoveOutcome>,
) -> (r: (Vec<LogRecord>, Result<(), MigrationError>))
    requires
        outcomes@.len() == migrations_config.migrations@.len(),
    ensures
        orchestration_post(
            migrations_config.migrations@,
            outcomes@,
            continue_on_fs_errors,
            session_id@,
            r.0@,
            r.1,
        ),
{
    let ghost plan = migrations_config.migrations@;
    let mut orchestrator = MigrationOrchestrator::new(
        migrations_config,
        continue_on_fs_errors,
        session_id,
    );
    let mut i: usize = 0;
    while i < outcomes.len()
        invariant
            i <= outcomes@.len(),
            plan.len() == outcomes@.len(),
            orchestrator.session_id@ == session_id@,
            orchestrator.continue_on_error == continue_on_fs_errors,
            !orchestrator.aborted,
            orchestrator.pending@ =~= plan.skip(i as int),
            orchestrator.log@.len() == i,
            forall|j: int|
                0 <= j < i ==> log_entry_for(
                    #[trigger] orchestrator.log@[j],
                    plan[j],
                    outcomes@[j],
                    session_id@,
                ),
            forall|j: int|
                0 <= j < i ==> !(#[trigger] outcomes@[j] is Failure) || continue_on_fs_errors,
        decreases outcomes@.len() - i,
    {
        proof {
            assert(orchestrator.pending@[0] == plan[i as int]);
        }
        match &outcomes[i] {
            MoveOutcome::Success => {
                orchestrator.record_success();
            },
            MoveOutcome::Failure { message } => {
                let msg = message.clone();
                orchestrator.record_failure(msg.clone());
                if !continue_on_fs_errors {
                    proof {
                        assert(outcomes@[i as int] is Failure);
                        assert(!completes(outcomes@, continue_on_fs_errors));
                    }
                    return (orchestrator.log, Err(MigrationError { message: msg }));
                }
            },
        }
        proof {
            assert(plan.skip(i as int).skip(1) =~= plan.skip(i + 1));
        }
        i = i + 1;
    }
    (orchestrator.log, Ok(()))
}

} // verus!

//! The command line, and the end of the process: which arguments mean what,
//! and when the person's data may be deleted.

use crate::engine::EngineShutdown;
use crate::text::same;
use vstd::prelude::*;

verus! {

/// The argument with which an uninstaller has the data cleaned up.
pub const UNINSTALL_CLEANUP_ARG: &'static str = "--uninstall-cleanup";

/// The argument of the helper that deletes the data once its parent has gone.
pub const DETACHED_PURGE_HELPER_ARG: &'static str = "--purge-after-parent-exit";

/// How long an uninstaller waits for the data to be released.
pub const UNINSTALL_CLEANUP_LOCK_TIMEOUT_MS: u64 = 30_000;

/// How long the engine is waited for at the end.
pub const ENGINE_SHUTDOWN_TIMEOUT_MS: u64 = 10_000;

/// What is said where a key cannot be typed in safely.
pub const WINDOWS_ACTIVATION_PROMPT_ERROR: &'static str =
    "this Windows GUI build has no safe interactive console; activate in the License panel or pipe the key to `vocalcode-app activate --stdin`";

/// The text of an argument, if it is there.
pub open spec fn argument(args: Seq<String>, i: int) -> Option<Seq<char>> {
    if 0 <= i < args.len() {
        Some(args[i]@)
    } else {
        None
    }
}

/// Is argument `i` that text?
fn is_argument(args: &[String], i: usize, text: &str) -> (r: bool)
    ensures
        r == (argument(args@, i as int) == Some(text@)),
{
    i < args.len() && same(&args[i], text)
}

/// The words for an update that failed.
pub open spec fn update_failure_words(code: Seq<char>) -> Seq<char> {
    if code == "helper-launch-error"@ {
        "The update helper could not start a required process. VocalCode was reopened so you can retry or install the update manually."@
    } else if code == "installer-timeout"@ {
        "The update installer did not finish within 15 minutes and was stopped. VocalCode was reopened without completing the update."@
    } else if code == "parent-exit-timeout"@ {
        "VocalCode did not finish shutting down within 5 minutes, so the update was not started. Close VocalCode and retry the update."@
    } else {
        "The update installer exited with code "@ + code
            + ". VocalCode was reopened without completing the update."@
    }
}

/// The words for the failed update that the arguments report.
pub fn update_failure_message(args: &[String]) -> (r: Option<String>)
    ensures
        r is Some <==> argument(args@, 1) == Some("--update-failed"@),
        r is Some ==> r->0@ == update_failure_words(
            match argument(args@, 2) {
                Some(code) => code,
                None => "unknown"@,
            },
        ),
{
    if !is_argument(args, 1, "--update-failed") {
        return None;
    }
    let code = if args.len() > 2 {
        args[2].as_str()
    } else {
        "unknown"
    };
    if same(code, "helper-launch-error") {
        Some(
            "The update helper could not start a required process. VocalCode was reopened so you can retry or install the update manually.".to_owned(),
        )
    } else if same(code, "installer-timeout") {
        Some(
            "The update installer did not finish within 15 minutes and was stopped. VocalCode was reopened without completing the update.".to_owned(),
        )
    } else if same(code, "parent-exit-timeout") {
        Some(
            "VocalCode did not finish shutting down within 5 minutes, so the update was not started. Close VocalCode and retry the update.".to_owned(),
        )
    } else {
        Some(
            "The update installer exited with code ".to_owned().concat(code).concat(
                ". VocalCode was reopened without completing the update.",
            ),
        )
    }
}

/// The command is one of the developer's.
pub open spec fn is_diagnostic(command: Seq<char>) -> bool {
    command == "punct"@ || command == "keyprobe"@ || command == "transcribe"@
}

/// The developer's command that the arguments name.
pub fn diagnostic_command(args: &[String]) -> (r: Option<&str>)
    ensures
        r is Some <==> argument(args@, 1) is Some && is_diagnostic(argument(args@, 1)->0),
        r is Some ==> argument(args@, 1) == Some(r->0@),
{
    if is_argument(args, 1, "punct") || is_argument(args, 1, "keyprobe") || is_argument(
        args,
        1,
        "transcribe",
    ) {
        Some(args[1].as_str())
    } else {
        None
    }
}

/// How a licence key is taken in.
#[derive(Debug, Clone, Copy, PartialEq, Eq, Structural)]
pub enum ActivationInput {
    Prompt,
    Stdin,
}

/// The words for an activation that is not asked for properly. They repeat none
/// of the arguments.
pub open spec fn activation_usage() -> Seq<char> {
    "secure usage: vocalcode-app activate [--stdin] (license keys are never accepted in command-line arguments)"@
}

/// How the arguments ask for a licence key to be taken in. A key among the
/// arguments is never taken.
pub fn activation_input(args: &[String]) -> (r: Result<Option<ActivationInput>, String>)
    ensures
        if argument(args@, 1) != Some("activate"@) {
            r == Ok::<Option<ActivationInput>, String>(None)
        } else if args@.len() == 2 {
            r == Ok::<Option<ActivationInput>, String>(Some(ActivationInput::Prompt))
        } else if args@.len() == 3 && args@[2]@ == "--stdin"@ {
            r == Ok::<Option<ActivationInput>, String>(Some(ActivationInput::Stdin))
        } else {
            r is Err && r->Err_0@ == activation_usage()
        },
{
    if !is_argument(args, 1, "activate") {
        return Ok(None);
    }
    if args.len() == 2 {
        return Ok(Some(ActivationInput::Prompt));
    }
    if args.len() == 3 && is_argument(args, 2, "--stdin") {
        return Ok(Some(ActivationInput::Stdin));
    }
    Err(
        "secure usage: vocalcode-app activate [--stdin] (license keys are never accepted in command-line arguments)".to_owned(),
    )
}

/// Some argument after the program's name is that text.
pub open spec fn requested(args: Seq<String>, flag: Seq<char>) -> bool {
    exists|i: int| 1 <= i < args.len() && (#[trigger] args[i])@ == flag
}

/// What an internal argument asks for.
#[derive(Debug, PartialEq, Eq)]
pub enum InternalRequest {
    /// It is not among the arguments.
    Absent,
    /// It is the only argument.
    Exact,
    /// It is there, but not alone; with the words for that.
    Malformed(String),
}

/// The words for an internal argument that does not stand alone.
pub open spec fn internal_usage(args: Seq<String>, flag: Seq<char>) -> Seq<char> {
    "internal usage: "@ + (match argument(args, 0) {
        Some(name) => name,
        None => "vocalcode-app"@,
    }) + " "@ + flag
}

/// What an internal argument asks for: only where it stands alone is it obeyed.
pub fn internal_request(args: &[String], flag: &str) -> (r: InternalRequest)
    ensures
        !requested(args@, flag@) ==> r is Absent,
        requested(args@, flag@) && args@.len() == 2 ==> r is Exact,
        requested(args@, flag@) && args@.len() != 2 ==> (r matches InternalRequest::Malformed(
            words,
        ) && words@ == internal_usage(args@, flag@)),
{
    let mut found = false;
    let mut i: usize = 1;
    while i < args.len()
        invariant
            1 <= i,
            i <= args@.len() || i == 1,
            found ==> requested(args@, flag@),
            !found ==> forall|k: int| 1 <= k < i && k < args@.len() ==> (#[trigger] args@[k])@
                != flag@,
        decreases args@.len() - i,
    {
        if same(&args[i], flag) {
            found = true;
        }
        i += 1;
    }
    if !found {
        return InternalRequest::Absent;
    }
    if args.len() != 2 {
        let name = if args.len() > 0 {
            args[0].as_str()
        } else {
            "vocalcode-app"
        };
        return InternalRequest::Malformed(
            "internal usage: ".to_owned().concat(name).concat(" ").concat(flag),
        );
    }
    InternalRequest::Exact
}

/// The action can end well.
pub open spec fn succeeds<F>(f: F) -> bool where F: FnOnce() -> Result<(), String> {
    exists|o: Result<(), String>| #[trigger] f.ensures((), o) && o is Ok
}

/// The action can fail with that error.
pub open spec fn fails<F>(f: F, e: String) -> bool where F: FnOnce() -> Result<(), String> {
    exists|o: Result<(), String>| #[trigger] f.ensures((), o) && o is Err && o->Err_0 == e
}

/// Cleans up for an uninstaller, where the arguments ask for exactly that, and in no
/// other case. Says whether they did.
pub fn run_early_uninstall_cleanup_with<C>(args: &[String], cleanup: C) -> (r: Result<
    bool,
    String,
>) where C: FnOnce() -> Result<(), String>
    requires
        requested(args@, UNINSTALL_CLEANUP_ARG@) && args@.len() == 2 ==> cleanup.requires(()),
    ensures
        !requested(args@, UNINSTALL_CLEANUP_ARG@) ==> r == Ok::<bool, String>(false),
        requested(args@, UNINSTALL_CLEANUP_ARG@) && args@.len() != 2 ==> r is Err && r->Err_0@
            == internal_usage(args@, UNINSTALL_CLEANUP_ARG@),
        requested(args@, UNINSTALL_CLEANUP_ARG@) && args@.len() == 2 ==> match r {
            Ok(done) => done && succeeds(cleanup),
            Err(e) => fails(cleanup, e),
        },
{
    match internal_request(args, UNINSTALL_CLEANUP_ARG) {
        InternalRequest::Absent => Ok(false),
        InternalRequest::Malformed(words) => Err(words),
        InternalRequest::Exact => {
            let outcome = cleanup();
            assert(cleanup.ensures((), outcome));
            match outcome {
                Ok(_) => Ok(true),
                Err(e) => Err(e),
            }
        },
    }
}

/// Brings earlier data over, lets go of it, and deletes it, all before one
/// deadline. Where the first step fails nothing is deleted.
pub fn run_uninstall_cleanup_transaction_with<G, M, P>(
    deadline_ms: u64,
    migrate: M,
    purge: P,
) -> (r: Result<(), String>) where
    M: FnOnce(u64) -> Result<G, String>,
    P: FnOnce(u64) -> Result<(), String>,

    requires
        migrate.requires((deadline_ms,)),
        forall|g: G| #[trigger]
            migrate.ensures((deadline_ms,), Ok::<G, String>(g)) ==> purge.requires((deadline_ms,)),
    ensures
        exists|o: Result<G, String>| #[trigger]
            migrate.ensures((deadline_ms,), o) && match o {
                Ok(_) => purge.ensures((deadline_ms,), r),
                Err(e) => r is Err && r->Err_0 == e,
            },
{
    let migrated = migrate(deadline_ms);
    assert(migrate.ensures((deadline_ms,), migrated));
    match migrated {
        Ok(guard) => {
            let _released = guard;
        },
        Err(e) => {
            return Err(e);
        },
    }
    purge(deadline_ms)
}

/// What the helper read from the pipe that its parent holds open.
#[derive(Debug, PartialEq, Eq)]
pub enum ParentRead {
    /// The pipe is closed: the parent has gone.
    Closed,
    Data,
    Interrupted,
    Failed(String),
}

/// What the helper does after it read from the pipe.
#[derive(Debug, PartialEq, Eq)]
pub enum ParentStep {
    ParentGone,
    ReadAgain,
    Refuse(String),
}

/// What the helper does after it read from the pipe: only the end of the parent
/// lets it go on. Anything else on the pipe makes it refuse.
pub fn parent_step(read: ParentRead) -> (r: ParentStep)
    ensures
        match read {
            ParentRead::Closed => r is ParentGone,
            ParentRead::Interrupted => r is ReadAgain,
            ParentRead::Data => r matches ParentStep::Refuse(words) && words@
                == "detached purge helper received unexpected parent control data"@,
            ParentRead::Failed(error) => r matches ParentStep::Refuse(words) && words@
                == "detached purge helper could not observe parent exit: "@ + error@,
        },
{
    match read {
        ParentRead::Closed => ParentStep::ParentGone,
        ParentRead::Interrupted => ParentStep::ReadAgain,
        ParentRead::Data => ParentStep::Refuse(
            "detached purge helper received unexpected parent control data".to_owned(),
        ),
        ParentRead::Failed(error) => ParentStep::Refuse(
            "detached purge helper could not observe parent exit: ".to_owned().concat(&error),
        ),
    }
}

/// Deletes the data once the parent has gone, where the arguments ask for
/// exactly that. `wait_for_parent` returns once the parent has gone, and nothing is
/// deleted before it has. Says whether the arguments asked for it.
pub fn run_early_detached_purge_helper_with<W, C>(
    args: &[String],
    wait_for_parent: W,
    cleanup: C,
) -> (r: Result<bool, String>) where
    W: FnOnce() -> Result<(), String>,
    C: FnOnce() -> Result<(), String>,

    requires
        requested(args@, DETACHED_PURGE_HELPER_ARG@) && args@.len() == 2
            ==> wait_for_parent.requires(()),
        succeeds(wait_for_parent) && requested(args@, DETACHED_PURGE_HELPER_ARG@) && args@.len()
            == 2 ==> cleanup.requires(()),
    ensures
        !requested(args@, DETACHED_PURGE_HELPER_ARG@) ==> r == Ok::<bool, String>(false),
        requested(args@, DETACHED_PURGE_HELPER_ARG@) && args@.len() != 2 ==> r is Err
            && r->Err_0@ == internal_usage(args@, DETACHED_PURGE_HELPER_ARG@),
        requested(args@, DETACHED_PURGE_HELPER_ARG@) && args@.len() == 2 ==> match r {
            Ok(done) => done && succeeds(wait_for_parent) && succeeds(cleanup),
            Err(e) => fails(wait_for_parent, e) || (succeeds(wait_for_parent) && fails(
                cleanup,
                e,
            )),
        },
{
    match internal_request(args, DETACHED_PURGE_HELPER_ARG) {
        InternalRequest::Absent => Ok(false),
        InternalRequest::Malformed(words) => Err(words),
        InternalRequest::Exact => {
            let waited = wait_for_parent();
            assert(wait_for_parent.ensures((), waited));
            match waited {
                Ok(_) => {},
                Err(e) => {
                    return Err(e);
                },
            }
            let outcome = cleanup();
            assert(cleanup.ensures((), outcome));
            match outcome {
                Ok(_) => Ok(true),
                Err(e) => Err(e),
            }
        },
    }
}

/// What the person asked for at the end.
#[derive(Debug, Clone, Copy, PartialEq, Eq, Structural)]
pub enum ShutdownAction {
    Quit,
    PurgeData,
}

/// How the data is deleted at the end.
#[derive(Debug, Clone, Copy, PartialEq, Eq, Structural)]
pub enum PurgePlan {
    Keep,
    /// In this process, after it has let go of the data.
    InProcess,
    /// By a helper, after this process has ended.
    ByHelper,
}

/// What is done with the data at the end.
#[derive(Debug, Clone, Copy, PartialEq, Eq, Structural)]
pub struct ShutdownPlan {
    pub purge: PurgePlan,
    /// Let go of the data before the process ends.
    pub release_data: bool,
}

/// What is done with the data at the end. While the engine may still run, the
/// process neither deletes the data nor lets go of it.
pub fn shutdown_plan(action: ShutdownAction, engine: EngineShutdown) -> (r: ShutdownPlan)
    ensures
        r.release_data == (engine == EngineShutdown::Stopped),
        r.purge == (if action == ShutdownAction::Quit {
            PurgePlan::Keep
        } else if engine == EngineShutdown::Stopped {
            PurgePlan::InProcess
        } else {
            PurgePlan::ByHelper
        }),
        engine == EngineShutdown::Detached ==> r.purge != PurgePlan::InProcess,
{
    let purge = match action {
        ShutdownAction::Quit => PurgePlan::Keep,
        ShutdownAction::PurgeData => match engine {
            EngineShutdown::Stopped => PurgePlan::InProcess,
            EngineShutdown::Detached => PurgePlan::ByHelper,
        },
    };
    ShutdownPlan { purge, release_data: engine == EngineShutdown::Stopped }
}

/// Ends the process as planned: lets go of the data and deletes it here, or has
/// a helper do that. Where the engine may still run, the guard of the data is
/// handed back, to be held until the process has ended.
pub fn complete_shutdown_action_with<G, P, S>(
    action: ShutdownAction,
    engine: EngineShutdown,
    data_lifecycle: G,
    purge_in_process: P,
    spawn_deferred_purge: S,
) -> (r: (Result<(), String>, Option<G>)) where
    P: FnOnce() -> Result<(), String>,
    S: FnOnce() -> Result<(), String>,

    requires
        action == ShutdownAction::PurgeData && engine == EngineShutdown::Stopped
            ==> purge_in_process.requires(()),
        action == ShutdownAction::PurgeData && engine == EngineShutdown::Detached
            ==> spawn_deferred_purge.requires(()),
    ensures
        action == ShutdownAction::Quit ==> r.0 is Ok,
        action == ShutdownAction::PurgeData && engine == EngineShutdown::Stopped
            ==> purge_in_process.ensures((), r.0),
        action == ShutdownAction::PurgeData && engine == EngineShutdown::Detached
            ==> spawn_deferred_purge.ensures((), r.0),
        engine == EngineShutdown::Stopped ==> r.1 is None,
        engine == EngineShutdown::Detached ==> r.1 == Some(data_lifecycle),
{
    let plan = shutdown_plan(action, engine);
    let held = if plan.release_data {
        let _released = data_lifecycle;
        None
    } else {
        Some(data_lifecycle)
    };
    let outcome = match plan.purge {
        PurgePlan::Keep => Ok(()),
        PurgePlan::InProcess => purge_in_process(),
        PurgePlan::ByHelper => spawn_deferred_purge(),
    };
    (outcome, held)
}

} // verus!

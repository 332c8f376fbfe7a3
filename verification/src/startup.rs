//! Bringing the pool up: the sessions are opened one after another, each
//! compiles its statements, and the first failure ends the attempt for good.

use vstd::prelude::*;
use crate::connection::{connection_settings, driver_accepts, driver_settings};
use crate::policy::UpdatePolicy;
use crate::statements::{statement_at, statement_count, statement_plan, Statement};

verus! {

/// Why the pool could not be brought up.
#[derive(Clone, Copy, Debug, PartialEq, Eq, Structural)]
pub enum StartupError {
    /// The connection string is not one the driver accepts.
    InvalidConnectionString,
    /// A pool needs at least one session.
    EmptyPool,
}

/// Where the startup stands.
#[derive(Clone, Copy, Debug, PartialEq, Eq, Structural)]
pub enum Stage {
    /// The next session is to be opened.
    Connecting,
    /// The session just opened is to compile the statement at this position
    /// of its plan.
    Preparing(usize),
    /// Every session is open and holds all its statements.
    Serving,
    /// A step failed. No session may serve.
    Fatal,
}

/// What the driver does next.
#[derive(Clone, Copy, Debug, PartialEq, Eq, Structural)]
pub enum StartupCommand {
    /// Open one connection to the store.
    Connect,
    /// Compile this statement on the connection just opened.
    Prepare(Statement),
    /// Build the pool from the sessions opened and start serving.
    Serve,
    /// Drop every session opened so far and stop.
    Abort,
}

/// The startup of a pool as a value: how many sessions it wants, what each
/// compiles, how many are complete, and the step it waits for.
pub struct StartupState {
    pub size: nat,
    pub statements: Seq<Statement>,
    pub ready: nat,
    pub stage: Stage,
}

impl StartupState {
    /// The state before the first step.
    pub open spec fn fresh(size: nat, statements: Seq<Statement>) -> StartupState {
        StartupState { size, statements, ready: 0, stage: Stage::Connecting }
    }

    /// There is a session to open and a statement to compile, the sessions
    /// counted as ready are complete, and a fatal startup holds none.
    pub open spec fn wf(self) -> bool {
        &&& self.size >= 1
        &&& 1 <= self.statements.len() <= usize::MAX
        &&& match self.stage {
            Stage::Connecting => self.ready < self.size,
            Stage::Preparing(k) => self.ready < self.size && k < self.statements.len(),
            Stage::Serving => self.ready == self.size,
            Stage::Fatal => self.ready == 0,
        }
    }

    /// The step the startup waits for.
    pub open spec fn command(self) -> StartupCommand {
        match self.stage {
            Stage::Connecting => StartupCommand::Connect,
            Stage::Preparing(k) => StartupCommand::Prepare(self.statements[k as int]),
            Stage::Serving => StartupCommand::Serve,
            Stage::Fatal => StartupCommand::Abort,
        }
    }

    /// The state once the driver reports how the awaited step went.
    pub open spec fn after(self, ok: bool) -> StartupState {
        match self.stage {
            Stage::Serving | Stage::Fatal => self,
            _ if !ok => StartupState { ready: 0, stage: Stage::Fatal, ..self },
            Stage::Connecting => StartupState { stage: Stage::Preparing(0), ..self },
            Stage::Preparing(k) => if k + 1 < self.statements.len() {
                StartupState { stage: Stage::Preparing((k + 1) as usize), ..self }
            } else if self.ready + 1 < self.size {
                StartupState { ready: self.ready + 1, stage: Stage::Connecting, ..self }
            } else {
                StartupState { ready: self.ready + 1, stage: Stage::Serving, ..self }
            },
        }
    }

    /// The state after a run of reports, oldest first.
    pub open spec fn after_all(self, reports: Seq<bool>) -> StartupState
        decreases reports.len(),
    {
        if reports.len() == 0 {
            self
        } else {
            self.after(reports[0]).after_all(reports.skip(1))
        }
    }

    /// How many steps a startup takes in all when none fails.
    pub open spec fn steps(self) -> nat {
        self.size * (1 + self.statements.len())
    }

    /// How many successful reports still separate this state from serving.
    pub open spec fn remaining(self) -> int {
        match self.stage {
            Stage::Connecting => (self.size - self.ready) * (1 + self.statements.len()),
            Stage::Preparing(k) => (self.size - self.ready) * (1 + self.statements.len()) - 1 - k,
            Stage::Serving => 0,
            Stage::Fatal => 0,
        }
    }

    /// Whether the first `count` of `reports` exist and are all successes.
    pub open spec fn all_succeed(reports: Seq<bool>, count: int) -> bool {
        &&& count <= reports.len()
        &&& forall|i: int| 0 <= i < count ==> reports[i]
    }

    /// Whether a failure stands among the first `count` of `reports`.
    pub open spec fn one_fails(reports: Seq<bool>, count: int) -> bool {
        exists|i: int| 0 <= i < count && i < reports.len() && !reports[i]
    }
}

/// Every step keeps a startup well formed.
pub proof fn lemma_step_keeps_wf(s: StartupState, ok: bool)
    requires
        s.wf(),
    ensures
        s.after(ok).wf(),
        s.after(ok).size == s.size,
        s.after(ok).statements == s.statements,
{
}

/// A failed step is fatal at once: whatever stood before, the startup ends
/// with no session, and from then on it only ever asks the driver to abort.
pub proof fn lemma_failure_is_fatal(s: StartupState, later: Seq<bool>)
    requires
        s.wf(),
        s.stage != Stage::Serving,
    ensures
        s.after(false).stage == Stage::Fatal,
        s.after(false).ready == 0,
        s.after(false).after_all(later) == s.after(false),
        s.after(false).after_all(later).command() == StartupCommand::Abort,
    decreases later.len(),
{
    if later.len() > 0 {
        let f = s.after(false);
        assert(f.after(later[0]) == f);
        lemma_fatal_is_final(f, later.skip(1));
    }
}

/// Once fatal, always fatal.
pub proof fn lemma_fatal_is_final(s: StartupState, later: Seq<bool>)
    requires
        s.stage == Stage::Fatal,
    ensures
        s.after_all(later) == s,
    decreases later.len(),
{
    if later.len() > 0 {
        lemma_fatal_is_final(s, later.skip(1));
    }
}

/// Once serving, always serving.
pub proof fn lemma_serving_is_final(s: StartupState, later: Seq<bool>)
    requires
        s.stage == Stage::Serving,
    ensures
        s.after_all(later) == s,
    decreases later.len(),
{
    if later.len() > 0 {
        lemma_serving_is_final(s, later.skip(1));
    }
}

/// Where a run of reports leaves a startup that has not failed yet. It serves
/// exactly when the reports it was still waiting for all came and were all
/// successes, and then every session is ready. It is fatal, with no session,
/// exactly when one of those reports was a failure. Otherwise it still waits.
pub proof fn lemma_startup_outcome(s: StartupState, reports: Seq<bool>)
    requires
        s.wf(),
        s.stage != Stage::Fatal,
    ensures
        s.remaining() >= 0,
        s.after_all(reports).wf(),
        s.after_all(reports).size == s.size,
        s.after_all(reports).stage == Stage::Serving <==> StartupState::all_succeed(
            reports,
            s.remaining(),
        ),
        s.after_all(reports).stage == Stage::Fatal <==> StartupState::one_fails(
            reports,
            s.remaining(),
        ),
        s.after_all(reports).stage == Stage::Serving ==> s.after_all(reports).ready == s.size,
        s.after_all(reports).stage == Stage::Fatal ==> s.after_all(reports).ready == 0,
    decreases reports.len(),
{
    let width = 1 + s.statements.len();
    let left = s.size - s.ready;
    assert(left >= 1 ==> left * width >= width) by (nonlinear_arith)
        requires
            width >= 0,
    ;
    if reports.len() == 0 {
        if s.stage != Stage::Serving {
            assert(s.remaining() >= 1);
        }
    } else if s.stage == Stage::Serving {
        lemma_serving_is_final(s.after(reports[0]), reports.skip(1));
    } else if !reports[0] {
        lemma_failure_is_fatal(s, reports.skip(1));
    } else {
        let next = s.after(true);
        let rest = reports.skip(1);
        lemma_step_keeps_wf(s, true);
        assert(next.remaining() == s.remaining() - 1) by {
            let w = 1 + s.statements.len();
            let l = s.size - s.ready;
            assert((l - 1) * w == l * w - w) by (nonlinear_arith);
            if l == 1 {
                assert(l * w == w) by (nonlinear_arith)
                    requires
                        l == 1,
                ;
            }
        }
        lemma_startup_outcome(next, rest);
        if StartupState::all_succeed(rest, next.remaining()) {
            assert forall|i: int| 0 <= i < s.remaining() implies reports[i] by {
                if i > 0 {
                    assert(rest[i - 1]);
                }
            }
        }
        if StartupState::all_succeed(reports, s.remaining()) {
            assert forall|i: int| 0 <= i < next.remaining() implies rest[i] by {
                assert(reports[i + 1]);
            }
        }
        if StartupState::one_fails(rest, next.remaining()) {
            let i = choose|i: int| 0 <= i < next.remaining() && i < rest.len() && !rest[i];
            assert(!reports[i + 1]);
        }
        if StartupState::one_fails(reports, s.remaining()) {
            let i = choose|i: int| 0 <= i < s.remaining() && i < reports.len() && !reports[i];
            assert(!rest[i - 1]);
        }
    }
}

/// A startup from scratch serves after `size * (1 + statements)` successes
/// and no sooner, and ends with no session when any of them fails.
pub proof fn lemma_fresh_startup(size: nat, statements: Seq<Statement>, reports: Seq<bool>)
    requires
        size >= 1,
        1 <= statements.len() <= usize::MAX,
    ensures
        ({
            let s = StartupState::fresh(size, statements);
            let end = s.after_all(reports);
            &&& end.stage == Stage::Serving <==> StartupState::all_succeed(reports, s.steps() as int)
            &&& end.stage == Stage::Fatal <==> StartupState::one_fails(reports, s.steps() as int)
            &&& end.stage == Stage::Serving ==> end.ready == size
            &&& end.stage == Stage::Fatal ==> end.ready == 0
        }),
{
    lemma_startup_outcome(StartupState::fresh(size, statements), reports);
}

/// Calls `num_cpus::get`, the number of logical CPUs this process may run
/// on. The crate documents that it is never less than one, and that is all
/// the contract claims: the number itself belongs to the machine.
#[verifier::external_body]
fn logical_cpus() -> (count: usize)
    ensures
        count >= 1,
{
    num_cpus::get()
}

/// How many sessions a pool holds on this machine, and how many threads
/// serve: one per logical CPU.
pub fn host_parallelism() -> (count: usize)
    ensures
        count >= 1,
{
    logical_cpus()
}

/// A pool being brought up.
pub struct Startup {
    size: usize,
    policy: UpdatePolicy,
    ready: usize,
    stage: Stage,
}

impl View for Startup {
    type V = StartupState;

    closed spec fn view(&self) -> StartupState {
        StartupState {
            size: self.size as nat,
            statements: statement_plan(self.policy),
            ready: self.ready as nat,
            stage: self.stage,
        }
    }
}

impl Startup {
    /// Holds of every value of the type, at every moment.
    #[verifier::type_invariant]
    spec fn inv(self) -> bool {
        self@.wf()
    }

    /// The update policy the sessions are prepared for.
    pub closed spec fn spec_policy(self) -> UpdatePolicy {
        self.policy
    }

    /// Starts bringing up a pool of `size` sessions whose statements serve
    /// `policy`. A pool of no sessions is refused.
    pub fn new(size: usize, policy: UpdatePolicy) -> (startup: Result<Startup, StartupError>)
        ensures
            size == 0 ==> startup == Err::<Startup, StartupError>(StartupError::EmptyPool),
            size >= 1 ==> startup.is_ok(),
            startup matches Ok(s) ==> {
                &&& s@ == StartupState::fresh(size as nat, statement_plan(policy))
                &&& s.spec_policy() == policy
            },
    {
        if size == 0 {
            Err(StartupError::EmptyPool)
        } else {
            Ok(Startup { size, policy, ready: 0, stage: Stage::Connecting })
        }
    }

    /// Starts bringing up a pool of `size` sessions that are opened with
    /// `connection_string`. The string is checked first: one the driver
    /// does not accept ends the startup here, before any session is asked
    /// for. On success the startup comes with the settings to open every
    /// session with.
    pub fn begin(connection_string: &str, size: usize, policy: UpdatePolicy) -> (startup: Result<
        (Startup, tokio_postgres::Config),
        StartupError,
    >)
        ensures
            !driver_accepts(connection_string@) ==> startup == Err::<
                (Startup, tokio_postgres::Config),
                StartupError,
            >(StartupError::InvalidConnectionString),
            driver_accepts(connection_string@) && size == 0 ==> startup == Err::<
                (Startup, tokio_postgres::Config),
                StartupError,
            >(StartupError::EmptyPool),
            driver_accepts(connection_string@) && size >= 1 ==> startup.is_ok(),
            startup matches Ok(pair) ==> {
                &&& pair.0@ == StartupState::fresh(size as nat, statement_plan(policy))
                &&& pair.0.spec_policy() == policy
                &&& Some(pair.1) == driver_settings(connection_string@)
            },
    {
        match connection_settings(connection_string) {
            Err(e) => Err(e),
            Ok(settings) => match Startup::new(size, policy) {
                Err(e) => Err(e),
                Ok(startup) => Ok((startup, settings)),
            },
        }
    }

    /// The update policy the sessions are prepared for.
    pub fn policy(&self) -> (policy: UpdatePolicy)
        ensures
            policy == self.spec_policy(),
            self@.statements == statement_plan(policy),
    {
        self.policy
    }

    /// How many sessions the pool will hold.
    pub fn size(&self) -> (size: usize)
        ensures
            size == self@.size,
    {
        self.size
    }

    /// How many sessions are open and hold all their statements.
    pub fn sessions_ready(&self) -> (ready: usize)
        ensures
            ready == self@.ready,
    {
        self.ready
    }

    /// Where the startup stands.
    pub fn stage(&self) -> (stage: Stage)
        ensures
            stage == self@.stage,
    {
        self.stage
    }

    /// What the driver does next.
    pub fn command(&self) -> (command: StartupCommand)
        ensures
            command == self@.command(),
    {
        proof {
            use_type_invariant(self);
        }
        match self.stage {
            Stage::Connecting => StartupCommand::Connect,
            Stage::Preparing(k) => {
                match statement_at(self.policy, k) {
                    Some(statement) => StartupCommand::Prepare(statement),
                    None => StartupCommand::Abort,
                }
            },
            Stage::Serving => StartupCommand::Serve,
            Stage::Fatal => StartupCommand::Abort,
        }
    }

    /// Takes the driver's report on the step it was told to do: `ok` when
    /// the step succeeded. Reports that arrive once the startup serves or has
    /// failed change nothing.
    pub fn advance(&mut self, ok: bool)
        ensures
            final(self)@ == old(self)@.after(ok),
            final(self).spec_policy() == old(self).spec_policy(),
    {
        proof {
            use_type_invariant(&*self);
        }
        let size: usize = self.size;
        let policy: UpdatePolicy = self.policy;
        let ready: usize = self.ready;
        match self.stage {
            Stage::Serving => {},
            Stage::Fatal => {},
            Stage::Connecting => {
                if ok {
                    *self = Startup { size, policy, ready, stage: Stage::Preparing(0) };
                } else {
                    *self = Startup { size, policy, ready: 0, stage: Stage::Fatal };
                }
            },
            Stage::Preparing(k) => {
                if !ok {
                    *self = Startup { size, policy, ready: 0, stage: Stage::Fatal };
                } else if k + 1 < statement_count(policy) {
                    *self = Startup { size, policy, ready, stage: Stage::Preparing(k + 1) };
                } else if ready + 1 < size {
                    *self = Startup { size, policy, ready: ready + 1, stage: Stage::Connecting };
                } else {
                    *self = Startup { size, policy, ready: ready + 1, stage: Stage::Serving };
                }
            },
        }
    }
}

} // verus!

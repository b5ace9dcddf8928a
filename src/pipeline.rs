use vstd::prelude::*;

verus! {

/// How a command's output is handled.
#[derive(Clone, Copy, PartialEq, Eq, Structural, Debug)]
pub enum OutputMode {
    /// Captured, and shown only where the command fails.
    Quiet,
    /// Shown live as the command runs.
    Stream,
}

/// Whether a command's output is shown live: in verbose mode every command streams.
pub fn stream_output(debug: bool, mode: OutputMode) -> (r: bool)
    ensures
        r == (debug || mode == OutputMode::Stream),
{
    debug || mode == OutputMode::Stream
}

/// The context added to an error of a command that could not be started.
pub fn spawn_failure_message(label: &str) -> (r: String)
    ensures
        r@ == "failed to spawn command: "@ + label@,
{
    let mut r = String::from_str("failed to spawn command: ");
    r.append(label);
    r
}

/// The error of a command that ran and reported failure.
pub fn command_failure_message(label: &str, status: &str) -> (r: String)
    ensures
        r@ == "command failed ("@ + label@ + ") with status "@ + status@,
{
    let mut r = String::from_str("command failed (");
    r.append(label);
    r.append(") with status ");
    r.append(status);
    r
}

/// The context added to the error of a failed step.
pub fn step_failure_message(name: &str) -> (r: String)
    ensures
        r@ == "step failed: "@ + name@,
{
    let mut r = String::from_str("step failed: ");
    r.append(name);
    r
}

/// A step of the setup run.
#[derive(Clone, Copy, PartialEq, Eq, Structural, Debug)]
pub enum Step {
    Purge,
    EnsureWheelhouse,
    EnsureUv,
    EnsureVenv,
    EnsurePipTooling,
    BuildMmcv,
    BuildMmaction2,
    BuildMmengine,
    Sync,
}

/// The steps of a run, in order; a purge, where asked for, comes first.
pub open spec fn steps_of(purge: bool) -> Seq<Step> {
    (if purge {
        seq![Step::Purge]
    } else {
        seq![]
    }) + seq![
        Step::EnsureWheelhouse,
        Step::EnsureUv,
        Step::EnsureVenv,
        Step::EnsurePipTooling,
        Step::BuildMmcv,
        Step::BuildMmaction2,
        Step::BuildMmengine,
        Step::Sync,
    ]
}

/// The name under which a step is reported.
pub open spec fn step_name_of(step: Step) -> Seq<char> {
    match step {
        Step::Purge => "Purging mmaction cache directories"@,
        Step::EnsureWheelhouse => "Ensuring wheelhouse directory"@,
        Step::EnsureUv => "Ensuring uv availability"@,
        Step::EnsureVenv => "Ensuring Python virtual environment"@,
        Step::EnsurePipTooling => "Ensuring pip tooling"@,
        Step::BuildMmcv => "Building/installing mmcv"@,
        Step::BuildMmaction2 => "Building/installing mmaction2"@,
        Step::BuildMmengine => "Building/installing mmengine"@,
        Step::Sync => "Running uv sync"@,
    }
}

/// The steps of a run, in order.
pub fn pipeline_steps(purge: bool) -> (r: Vec<Step>)
    ensures
        r@ == steps_of(purge),
        r@.len() == if purge {
            9int
        } else {
            8int
        },
{
    let mut r: Vec<Step> = Vec::new();
    if purge {
        r.push(Step::Purge);
    }
    r.push(Step::EnsureWheelhouse);
    r.push(Step::EnsureUv);
    r.push(Step::EnsureVenv);
    r.push(Step::EnsurePipTooling);
    r.push(Step::BuildMmcv);
    r.push(Step::BuildMmaction2);
    r.push(Step::BuildMmengine);
    r.push(Step::Sync);
    proof {
        assert(r@ =~= steps_of(purge));
    }
    r
}

/// The name under which a step is reported.
pub fn step_name(step: Step) -> (r: &'static str)
    ensures
        r@ == step_name_of(step),
{
    match step {
        Step::Purge => "Purging mmaction cache directories",
        Step::EnsureWheelhouse => "Ensuring wheelhouse directory",
        Step::EnsureUv => "Ensuring uv availability",
        Step::EnsureVenv => "Ensuring Python virtual environment",
        Step::EnsurePipTooling => "Ensuring pip tooling",
        Step::BuildMmcv => "Building/installing mmcv",
        Step::BuildMmaction2 => "Building/installing mmaction2",
        Step::BuildMmengine => "Building/installing mmengine",
        Step::Sync => "Running uv sync",
    }
}

/// Whether a step is reported as plain log lines and runs its commands with live
/// output: in verbose mode every step, and the final sync always.
pub fn step_is_verbose(step: Step, debug: bool) -> (r: bool)
    ensures
        r == (debug || step == Step::Sync),
{
    debug || step == Step::Sync
}

/// The progress of a run of `total` steps that stops at the first failure.
/// `completed` steps have succeeded; `failed` is the position (from 1) of the step
/// that failed, if one did.
pub struct StepRunner {
    pub total: usize,
    pub completed: usize,
    pub failed: Option<usize>,
}

impl StepRunner {
    /// Counts stay within the total, and a failed step is the one after the last success.
    pub open spec fn wf(&self) -> bool {
        &&& self.completed <= self.total
        &&& self.failed matches Some(k) ==> k == self.completed + 1 && self.completed
            < self.total
    }

    /// The position (from 1) of the step to run next, or `None` once every step has
    /// succeeded or one has failed.
    pub open spec fn next_spec(&self) -> Option<usize> {
        if self.failed is None && self.completed < self.total {
            Some((self.completed + 1) as usize)
        } else {
            None
        }
    }

    /// The runner after the current step ended, well or not.
    pub open spec fn after(&self, succeeded: bool) -> StepRunner {
        if succeeded {
            StepRunner { total: self.total, completed: (self.completed + 1) as usize, failed: None }
        } else {
            StepRunner {
                total: self.total,
                completed: self.completed,
                failed: Some((self.completed + 1) as usize),
            }
        }
    }

    /// The exit code of the run: 1 where a step failed, else 0.
    pub open spec fn exit_code_spec(&self) -> i32 {
        if self.failed is Some {
            1
        } else {
            0
        }
    }

    /// A runner for `total` steps, none of them run yet.
    pub fn new(total: usize) -> (r: StepRunner)
        ensures
            r == (StepRunner { total, completed: 0, failed: None }),
            r.wf(),
    {
        StepRunner { total, completed: 0, failed: None }
    }

    /// The position (from 1) of the step to run next.
    pub fn next_step(&self) -> (r: Option<usize>)
        ensures
            r == self.next_spec(),
    {
        if self.failed.is_none() && self.completed < self.total {
            Some(self.completed + 1)
        } else {
            None
        }
    }

    /// Records how the current step ended.
    pub fn record(&mut self, succeeded: bool)
        requires
            old(self).wf(),
            old(self).next_spec() is Some,
        ensures
            *final(self) == old(self).after(succeeded),
            final(self).wf(),
    {
        if succeeded {
            self.completed = self.completed + 1;
        } else {
            self.failed = Some(self.completed + 1);
        }
    }

    /// The exit code of the run: 1 where a step failed, else 0.
    pub fn exit_code(&self) -> (r: i32)
        ensures
            r == self.exit_code_spec(),
    {
        if self.failed.is_some() {
            1
        } else {
            0
        }
    }
}

/// A runner fed the outcomes of the steps it hands out, one by one, until it hands
/// out no more or the outcomes run out.
pub open spec fn drive(r: StepRunner, outcomes: Seq<bool>) -> StepRunner
    decreases outcomes.len(),
{
    if outcomes.len() == 0 || r.next_spec() is None {
        r
    } else {
        drive(r.after(outcomes[0]), outcomes.drop_first())
    }
}

/// A run driven from any point before the first failing step stops at that step.
proof fn lemma_drive_from(r: StepRunner, outcomes: Seq<bool>, k: int)
    requires
        r.wf(),
        r.failed is None,
        r.completed <= k < r.total,
        k - r.completed < outcomes.len(),
        !outcomes[k - r.completed],
        forall|j: int| 0 <= j < k - r.completed ==> #[trigger] outcomes[j],
    ensures
        drive(r, outcomes) == (StepRunner {
            total: r.total,
            completed: k as usize,
            failed: Some((k + 1) as usize),
        }),
    decreases outcomes.len(),
{
    let next = r.after(outcomes[0]);
    if r.completed < k {
        assert(outcomes[0]);
        let rest = outcomes.drop_first();
        assert forall|j: int| 0 <= j < k - next.completed implies #[trigger] rest[j] by {
            assert(outcomes[j + 1]);
        }
        lemma_drive_from(next, rest, k);
    } else {
        assert(next.next_spec() is None);
        assert(drive(next, outcomes.drop_first()) == next);
    }
}

/// Where step `k + 1` of `total` is the first to fail, the run stops there: exactly
/// `k + 1` steps are started, no later one is handed out, and the exit code is 1.
pub proof fn lemma_failure_stops_run(total: usize, outcomes: Seq<bool>, k: int)
    requires
        0 <= k < total,
        k < outcomes.len(),
        !outcomes[k],
        forall|j: int| 0 <= j < k ==> #[trigger] outcomes[j],
    ensures
        drive(StepRunner { total, completed: 0, failed: None }, outcomes) == (StepRunner {
            total,
            completed: k as usize,
            failed: Some((k + 1) as usize),
        }),
        drive(StepRunner { total, completed: 0, failed: None }, outcomes).next_spec() is None,
        drive(StepRunner { total, completed: 0, failed: None }, outcomes).exit_code_spec() == 1,
{
    lemma_drive_from(StepRunner { total, completed: 0, failed: None }, outcomes, k);
}

} // verus!

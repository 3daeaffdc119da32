//! The supervisor's policy: which background activity is allowed to finish.
//!
//! The supervisor waits on three kinds of activity at once: the planned
//! tasks, the log drains and the child processes. None of them is expected to
//! end. When one does, a policy turns the way it ended into the supervisor's
//! verdict.

use vstd::prelude::*;

verus! {

/// Why the supervisor gave up.
#[derive(Debug)]
pub enum SupervisorError {
    /// An activity that should run forever ended without a failure.
    Exited { what: String },
    /// An activity failed.
    Failed { what: String, cause: String },
}

/// Mathematical value of a [`SupervisorError`].
pub enum SupervisorFault {
    Exited { what: Seq<char> },
    Failed { what: Seq<char>, cause: Seq<char> },
}

impl View for SupervisorError {
    type V = SupervisorFault;

    open spec fn view(&self) -> SupervisorFault {
        match self {
            SupervisorError::Exited { what } => SupervisorFault::Exited { what: what@ },
            SupervisorError::Failed { what, cause } => SupervisorFault::Failed {
                what: what@,
                cause: cause@,
            },
        }
    }
}

/// The way an activity ended: cleanly, or with the text of its failure.
pub open spec fn ending(res: Result<(), String>) -> Result<(), Seq<char>> {
    match res {
        Ok(_) => Ok(()),
        Err(cause) => Err(cause@),
    }
}

/// What a policy answered, as a mathematical value.
pub open spec fn answer(r: Result<(), SupervisorError>) -> Result<(), SupervisorFault> {
    match r {
        Ok(_) => Ok(()),
        Err(e) => Err(e@),
    }
}

/// The policy of an activity that must never end: any ending is an error.
pub open spec fn should_not_complete_spec(what: Seq<char>, res: Result<(), Seq<char>>) -> Result<
    (),
    SupervisorFault,
> {
    match res {
        Ok(_) => Err(SupervisorFault::Exited { what }),
        Err(cause) => Err(SupervisorFault::Failed { what, cause }),
    }
}

/// The policy of an activity that may end: only a failure is an error.
pub open spec fn may_complete_spec(what: Seq<char>, res: Result<(), Seq<char>>) -> Result<
    (),
    SupervisorFault,
> {
    match res {
        Ok(_) => Ok(()),
        Err(cause) => Err(SupervisorFault::Failed { what, cause }),
    }
}

/// Policy for an activity that must never end. A clean ending becomes the
/// error that all the `what` exited; a failure is passed on under `what`.
pub fn should_not_complete(what: &str, res: Result<(), String>) -> (r: Result<
    (),
    SupervisorError,
>)
    ensures
        answer(r) == should_not_complete_spec(what@, ending(res)),
{
    match res {
        Ok(()) => Err(SupervisorError::Exited { what: what.to_owned() }),
        Err(cause) => Err(SupervisorError::Failed { what: what.to_owned(), cause }),
    }
}

/// Policy for an activity that may end. A clean ending is a success; a
/// failure is passed on under `what`.
pub fn may_complete(what: &str, res: Result<(), String>) -> (r: Result<(), SupervisorError>)
    ensures
        answer(r) == may_complete_spec(what@, ending(res)),
{
    match res {
        Ok(()) => Ok(()),
        Err(cause) => Err(SupervisorError::Failed { what: what.to_owned(), cause }),
    }
}

/// Policy for an activity whose ending is of no concern: always a success.
pub fn never_fail(what: &str, res: Result<(), String>) -> (r: Result<(), SupervisorError>)
    ensures
        r is Ok,
{
    Ok(())
}

/// The three kinds of activity that the supervisor waits on.
#[derive(Debug, Clone, Copy, PartialEq, Eq, Structural)]
pub enum Arm {
    /// All planned tasks together.
    Pipes,
    /// All log drains together.
    Loggers,
    /// All child processes together.
    Processes,
}

/// What the supervisor does when an arm has ended.
#[derive(Debug)]
pub enum Verdict {
    /// Go on waiting on the other arms.
    Continue,
    /// Return this from the run.
    Exit(Result<(), SupervisorError>),
}

/// Mathematical value of a [`Verdict`].
pub enum VerdictView {
    Continue,
    Exit(Result<(), SupervisorFault>),
}

impl View for Verdict {
    type V = VerdictView;

    open spec fn view(&self) -> VerdictView {
        match self {
            Verdict::Continue => VerdictView::Continue,
            Verdict::Exit(r) => VerdictView::Exit(answer(*r)),
        }
    }
}

/// The label under which an arm is reported.
pub open spec fn label(arm: Arm) -> Seq<char> {
    match arm {
        Arm::Pipes => "channels"@,
        Arm::Loggers => "logs"@,
        Arm::Processes => "processes"@,
    }
}

/// The policy matrix. With tasks planned, the tasks must never end, the log
/// drains may end in any way without consequence, and the children may end
/// cleanly, which ends the run with success. Without tasks, nothing may end.
pub open spec fn verdict(has_pipes: bool, arm: Arm, res: Result<(), Seq<char>>) -> VerdictView {
    if has_pipes {
        match arm {
            Arm::Pipes => VerdictView::Exit(should_not_complete_spec(label(arm), res)),
            Arm::Loggers => VerdictView::Continue,
            Arm::Processes => VerdictView::Exit(may_complete_spec(label(arm), res)),
        }
    } else {
        VerdictView::Exit(should_not_complete_spec(label(arm), res))
    }
}

/// The supervisor's decision when `arm` has ended with `res`, where
/// `has_pipes` says whether any task was planned.
pub fn supervise(has_pipes: bool, arm: Arm, res: Result<(), String>) -> (v: Verdict)
    ensures
        v@ == verdict(has_pipes, arm, ending(res)),
{
    if has_pipes {
        match arm {
            Arm::Pipes => Verdict::Exit(should_not_complete("channels", res)),
            Arm::Loggers => match never_fail("logs", res) {
                Ok(()) => Verdict::Continue,
                Err(e) => Verdict::Exit(Err(e)),
            },
            Arm::Processes => Verdict::Exit(may_complete("processes", res)),
        }
    } else {
        match arm {
            Arm::Pipes => Verdict::Exit(should_not_complete("channels", res)),
            Arm::Loggers => Verdict::Exit(should_not_complete("logs", res)),
            Arm::Processes => Verdict::Exit(should_not_complete("processes", res)),
        }
    }
}

/// One arm's ending, as the supervisor learns of it.
pub struct Completion {
    pub arm: Arm,
    pub res: Result<(), Seq<char>>,
}

/// What a run returns when the arms end as `completions` says, in that
/// order: the first verdict that is an exit. `None` where the run is still
/// waiting after all of them.
pub open spec fn run_outcome(has_pipes: bool, completions: Seq<Completion>) -> Option<
    Result<(), SupervisorFault>,
>
    decreases completions.len(),
{
    if completions.len() == 0 {
        None
    } else {
        match verdict(has_pipes, completions.first().arm, completions.first().res) {
            VerdictView::Exit(r) => Some(r),
            VerdictView::Continue => run_outcome(has_pipes, completions.drop_first()),
        }
    }
}

/// One arm's ending, with the text of its failure if it failed.
#[derive(Debug)]
pub struct Ending {
    pub arm: Arm,
    pub res: Result<(), String>,
}

impl View for Ending {
    type V = Completion;

    open spec fn view(&self) -> Completion {
        Completion { arm: self.arm, res: ending(self.res) }
    }
}

/// The views of a list of endings.
pub open spec fn ending_views(endings: Seq<Ending>) -> Seq<Completion> {
    Seq::new(endings.len(), |i: int| endings[i]@)
}

/// What a run answered, if it answered, as a mathematical value.
pub open spec fn run_answer(r: Option<Result<(), SupervisorError>>) -> Option<
    Result<(), SupervisorFault>,
> {
    match r {
        Some(res) => Some(answer(res)),
        None => None,
    }
}

/// The supervisor's loop over arms that end in the order of `endings`: the
/// verdict of each is taken in turn, and the first exit is the result. `None`
/// says that the run is still waiting after the last of them.
pub fn run_until_exit(has_pipes: bool, endings: &Vec<Ending>) -> (r: Option<
    Result<(), SupervisorError>,
>)
    ensures
        run_answer(r) == run_outcome(has_pipes, ending_views(endings@)),
{
    let ghost all = ending_views(endings@);
    let mut i: usize = 0;
    proof {
        assert(all.subrange(0, all.len() as int) =~= all);
    }
    while i < endings.len()
        invariant
            i <= endings@.len(),
            all == ending_views(endings@),
            run_outcome(has_pipes, all) == run_outcome(
                has_pipes,
                all.subrange(i as int, all.len() as int),
            ),
        decreases endings@.len() - i,
    {
        let ghost rest = all.subrange(i as int, all.len() as int);
        proof {
            assert(rest.first() == endings@[i as int]@);
            assert(rest.drop_first() =~= all.subrange(i + 1, all.len() as int));
        }
        let res = match &endings[i].res {
            Ok(_) => Ok(()),
            Err(cause) => Err(cause.clone()),
        };
        match supervise(has_pipes, endings[i].arm, res) {
            Verdict::Exit(r) => {
                return Some(r);
            },
            Verdict::Continue => {},
        }
        i += 1;
    }
    None
}

} // verus!

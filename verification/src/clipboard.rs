//! Which helper command copies a text to the clipboard: they are tried in a
//! fixed order until one succeeds.
use vstd::prelude::*;

verus! {

/// A helper command that puts its standard input on the clipboard.
#[derive(Debug, Clone, PartialEq, Eq)]
pub struct Helper {
    /// Its place in the order of trial, from 0.
    pub number: usize,
    pub program: String,
    pub arguments: Vec<String>,
}

/// What became of a helper command.
#[derive(Debug, Clone, Copy, PartialEq, Eq, Structural)]
pub enum Trial {
    /// The program was not found.
    Missing,
    /// The program ran and reported a failure.
    Failed,
    /// The program ran and reported success.
    Copied,
    /// The program could not be run, or not to its end.
    Broken,
}

/// What to do next.
pub enum Step {
    /// Run this helper.
    Run(Helper),
    /// Stop: the text is on the clipboard.
    Done,
    /// Stop: a helper was there but could not be run.
    Stuck,
    /// Stop: no helper is left.
    Exhausted,
}

/// What a `Helper` holds.
pub struct HelperView {
    pub number: nat,
    pub program: Seq<char>,
    pub arguments: Seq<Seq<char>>,
}

impl View for Helper {
    type V = HelperView;

    open spec fn view(&self) -> HelperView {
        HelperView {
            number: self.number as nat,
            program: self.program@,
            arguments: self.arguments@.map_values(|a: String| a@),
        }
    }
}

/// What a `Step` holds.
pub enum StepView {
    Run(HelperView),
    Done,
    Stuck,
    Exhausted,
}

impl View for Step {
    type V = StepView;

    open spec fn view(&self) -> StepView {
        match *self {
            Step::Run(helper) => StepView::Run(helper@),
            Step::Done => StepView::Done,
            Step::Stuck => StepView::Stuck,
            Step::Exhausted => StepView::Exhausted,
        }
    }
}

// ---------------------------------------------------------------------------
// Specification
// ---------------------------------------------------------------------------

/// The programs and their arguments, in the order of trial: macOS, Wayland,
/// X11, Windows.
pub open spec fn helpers() -> Seq<(Seq<char>, Seq<Seq<char>>)> {
    seq![
        ("pbcopy"@, seq![]),
        ("wl-copy"@, seq![]),
        ("xclip"@, seq!["-selection"@, "clipboard"@]),
        ("clip.exe"@, seq![]),
    ]
}

/// The step that runs the helper at place `n`, if there is one.
pub open spec fn run(n: nat) -> StepView {
    if n < helpers().len() {
        StepView::Run(
            HelperView {
                number: n,
                program: helpers()[n as int].0,
                arguments: helpers()[n as int].1,
            },
        )
    } else {
        StepView::Exhausted
    }
}

/// Whether a helper that came out like this makes way for the next one.
pub open spec fn passes(trial: Trial) -> bool {
    trial == Trial::Missing || trial == Trial::Failed
}

/// The step after the helper at place `n` was tried: a program that is missing
/// or fails makes way for the next one.
pub open spec fn step_after(n: nat, trial: Trial) -> StepView {
    if passes(trial) {
        run(n + 1)
    } else if trial == Trial::Copied {
        StepView::Done
    } else {
        StepView::Stuck
    }
}

/// Where the trials end if they go on at place `n` and the helper at each place
/// `i` comes out as `trials[i]`.
pub open spec fn final_step(n: nat, trials: Seq<Trial>) -> StepView
    decreases helpers().len() - n,
{
    if n < helpers().len() && passes(trials[n as int]) {
        final_step(n + 1, trials)
    } else if n < helpers().len() {
        step_after(n, trials[n as int])
    } else {
        run(n)
    }
}

// ---------------------------------------------------------------------------
// Operations
// ---------------------------------------------------------------------------

/// The step that runs the helper at place `n`, if there is one.
fn run_helper(n: usize) -> (r: Step)
    ensures
        r@ == run(n as nat),
{
    let mut arguments: Vec<String> = Vec::new();
    let program = if n == 0 {
        "pbcopy"
    } else if n == 1 {
        "wl-copy"
    } else if n == 2 {
        arguments.push("-selection".to_owned());
        arguments.push("clipboard".to_owned());
        "xclip"
    } else if n == 3 {
        "clip.exe"
    } else {
        return Step::Exhausted;
    };
    let helper = Helper { number: n, program: program.to_owned(), arguments };
    assert(helper@.arguments == helpers()[n as int].1);
    Step::Run(helper)
}

/// The first step.
pub fn first_step() -> (r: Step)
    ensures
        r@ == run(0),
{
    run_helper(0)
}

/// The step after `helper` was tried.
pub fn next_step(helper: &Helper, trial: Trial) -> (r: Step)
    ensures
        r@ == step_after(helper.number as nat, trial),
{
    match trial {
        Trial::Copied => Step::Done,
        Trial::Broken => Step::Stuck,
        _ => if helper.number < 3 {
            run_helper(helper.number + 1)
        } else {
            Step::Exhausted
        },
    }
}

// ---------------------------------------------------------------------------
// Laws
// ---------------------------------------------------------------------------

/// The trials follow the steps: a helper that runs is followed by the step
/// after its trial, until a step stops.
pub proof fn law_trials_follow_steps(n: nat, trials: Seq<Trial>)
    ensures
        final_step(n, trials) == match run(n) {
            StepView::Run(_) => match step_after(n, trials[n as int]) {
                StepView::Run(next) => final_step(next.number, trials),
                end => end,
            },
            end => end,
        },
{
    reveal_with_fuel(final_step, 3);
}

/// The first helper from place `n` on that is neither missing nor fails decides
/// where the trials end; if there is none, they end with no helper left.
pub proof fn law_first_working_helper(n: nat, i: nat, trials: Seq<Trial>)
    requires
        n <= i <= helpers().len(),
        forall|j: int| n <= j < i ==> passes(#[trigger] trials[j]),
        i < helpers().len() ==> !passes(trials[i as int]),
    ensures
        final_step(n, trials) == if i == helpers().len() {
            StepView::Exhausted
        } else if trials[i as int] == Trial::Copied {
            StepView::Done
        } else {
            StepView::Stuck
        },
    decreases i - n,
{
    if n < i {
        assert(passes(trials[n as int]));
        law_first_working_helper(n + 1, i, trials);
    }
}

/// The helpers are those of macOS, Wayland, X11 and Windows, in this order, and
/// only the one for X11 takes arguments; past them there is none.
pub proof fn law_helpers_in_order(n: nat)
    ensures
        run(n) == if n >= 4 {
            StepView::Exhausted
        } else {
            StepView::Run(
                HelperView {
                    number: n,
                    program: seq!["pbcopy"@, "wl-copy"@, "xclip"@, "clip.exe"@][n as int],
                    arguments: if n == 2 {
                        seq!["-selection"@, "clipboard"@]
                    } else {
                        seq![]
                    },
                },
            )
        },
{
}

/// A trial that copied ends the trials, one that could not be run ends them too,
/// and every other one makes way for the next helper.
pub proof fn law_step_after(n: nat)
    ensures
        step_after(n, Trial::Copied) == StepView::Done,
        step_after(n, Trial::Broken) == StepView::Stuck,
        step_after(n, Trial::Missing) == run(n + 1),
        step_after(n, Trial::Failed) == run(n + 1),
{
}

/// A helper and a step are seen with their own contents.
pub proof fn law_step_seen(helper: Helper, i: int)
    ensures
        helper@.number == helper.number,
        helper@.program == helper.program@,
        helper@.arguments.len() == helper.arguments@.len(),
        0 <= i < helper.arguments@.len() ==> helper@.arguments[i] == helper.arguments@[i]@,
        Step::Run(helper)@ == StepView::Run(helper@),
        Step::Done@ == StepView::Done,
        Step::Stuck@ == StepView::Stuck,
        Step::Exhausted@ == StepView::Exhausted,
{
}

} // verus!

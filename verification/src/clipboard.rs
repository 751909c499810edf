//! Copying to the system clipboard through whichever native helper works:
//! the helpers are tried in turn until one succeeds.
use vstd::prelude::*;

use crate::text::string_views;

verus! {

/// How many helpers there are.
pub const HELPER_COUNT: usize = 4;

/// The program of helper `i`.
pub open spec fn helper_name(i: int) -> Seq<char> {
    if i == 0 {
        "pbcopy"@
    } else if i == 1 {
        "wl-copy"@
    } else if i == 2 {
        "xclip"@
    } else {
        "xsel"@
    }
}

/// The arguments of helper `i`.
pub open spec fn helper_args(i: int) -> Seq<Seq<char>> {
    if i <= 1 {
        Seq::empty()
    } else if i == 2 {
        seq!["-selection"@, "clipboard"@]
    } else {
        seq!["--clipboard"@, "--input"@]
    }
}

/// Helper `i`: its program and arguments.
pub fn helper(i: usize) -> (r: (String, Vec<String>))
    requires
        i < HELPER_COUNT,
    ensures
        r.0@ == helper_name(i as int),
        string_views(r.1@) == helper_args(i as int),
{
    let mut args: Vec<String> = Vec::new();
    let name = if i == 0 {
        "pbcopy".to_owned()
    } else if i == 1 {
        "wl-copy".to_owned()
    } else if i == 2 {
        args.push("-selection".to_owned());
        args.push("clipboard".to_owned());
        "xclip".to_owned()
    } else {
        args.push("--clipboard".to_owned());
        args.push("--input".to_owned());
        "xsel".to_owned()
    };
    assert(string_views(args@) =~= helper_args(i as int));
    (name, args)
}

/// What the copier does next.
pub enum CopyStep {
    /// Run this helper, writing the text to its standard input.
    Run { bin: String, args: Vec<String> },
    /// Stop: the name of the helper that worked, or the last error.
    Done(Result<String, String>),
}

/// A step with its strings taken as character sequences.
pub enum StepView {
    Run(Seq<char>, Seq<Seq<char>>),
    Done(Result<Seq<char>, Seq<char>>),
}

impl vstd::view::View for CopyStep {
    type V = StepView;

    open spec fn view(&self) -> StepView {
        match self {
            CopyStep::Run { bin, args } => StepView::Run(bin@, string_views(args@)),
            CopyStep::Done(Ok(name)) => StepView::Done(Ok(name@)),
            CopyStep::Done(Err(e)) => StepView::Done(Err(e@)),
        }
    }
}

/// Progress through the helpers.
pub struct ClipboardCopy {
    /// How many helpers have failed so far.
    pub tried: usize,
    /// The error of the last helper that failed.
    pub last_err: Option<String>,
    /// The helper that succeeded, if any.
    pub succeeded: Option<usize>,
}

/// The message when no helper could be run at all.
pub open spec fn no_helper_msg() -> Seq<char> {
    "no clipboard helper found"@
}

/// The error reported when every helper failed.
pub open spec fn final_error(last_err: Option<String>) -> Seq<char> {
    match last_err {
        Some(m) => m@,
        None => no_helper_msg(),
    }
}

impl ClipboardCopy {
    pub open spec fn spec_new() -> ClipboardCopy {
        ClipboardCopy { tried: 0, last_err: None, succeeded: None }
    }

    pub fn new() -> (r: Self)
        ensures
            r == Self::spec_new(),
    {
        ClipboardCopy { tried: 0, last_err: None, succeeded: None }
    }

    /// Once a helper succeeded: done with its name. Else, while helpers
    /// remain: run the next. Else: done with the last error.
    pub open spec fn spec_next_step(self) -> StepView {
        match self.succeeded {
            Some(i) => if i < HELPER_COUNT {
                StepView::Done(Ok(helper_name(i as int)))
            } else {
                StepView::Done(Err(no_helper_msg()))
            },
            None => if self.tried < HELPER_COUNT {
                StepView::Run(helper_name(self.tried as int), helper_args(self.tried as int))
            } else {
                StepView::Done(Err(final_error(self.last_err)))
            },
        }
    }

    /// What the copier does next.
    pub fn next_step(&self) -> (s: CopyStep)
        ensures
            s@ == self.spec_next_step(),
    {
        match self.succeeded {
            Some(i) => {
                if i < HELPER_COUNT {
                    let (name, _) = helper(i);
                    CopyStep::Done(Ok(name))
                } else {
                    CopyStep::Done(Err("no clipboard helper found".to_owned()))
                }
            },
            None => {
                if self.tried < HELPER_COUNT {
                    let (bin, args) = helper(self.tried);
                    CopyStep::Run { bin, args }
                } else {
                    match &self.last_err {
                        Some(m) => CopyStep::Done(Err(m.clone())),
                        None => CopyStep::Done(Err("no clipboard helper found".to_owned())),
                    }
                }
            },
        }
    }

    /// The progress after the helper being run went `outcome`.
    pub open spec fn spec_recorded(self, outcome: Result<(), String>) -> ClipboardCopy {
        match outcome {
            Ok(()) => ClipboardCopy { succeeded: Some(self.tried), ..self },
            Err(e) => ClipboardCopy { tried: (self.tried + 1) as usize, last_err: Some(e), ..self },
        }
    }

    /// Records how running helper `tried` went.
    pub fn record(&mut self, outcome: Result<(), String>)
        requires
            old(self).succeeded is None,
            old(self).tried < HELPER_COUNT,
        ensures
            *final(self) == old(self).spec_recorded(outcome),
    {
        match outcome {
            Ok(()) => {
                self.succeeded = Some(self.tried);
            },
            Err(e) => {
                self.last_err = Some(e);
                self.tried = self.tried + 1;
            },
        }
    }
}

/// Where the copier stands after at most `n` more runs, the `k`-th run
/// going `outcomes[k]`: the step it is at when done or out of runs.
pub open spec fn driven(c: ClipboardCopy, outcomes: Seq<Result<(), String>>, n: nat) -> StepView
    decreases n,
{
    match c.spec_next_step() {
        StepView::Run(_, _) => if n == 0 {
            c.spec_next_step()
        } else {
            driven(c.spec_recorded(outcomes[c.tried as int]), outcomes, (n - 1) as nat)
        },
        StepView::Done(r) => StepView::Done(r),
    }
}

/// The result of trying helpers `k..` in turn, `last` being the error of
/// the last failure so far: the name of the first that works, else the
/// last error.
pub open spec fn outcome_from(
    outcomes: Seq<Result<(), String>>,
    k: nat,
    last: Option<String>,
) -> Result<Seq<char>, Seq<char>>
    decreases HELPER_COUNT - k,
{
    if k >= HELPER_COUNT {
        Err(final_error(last))
    } else {
        match outcomes[k as int] {
            Ok(()) => Ok(helper_name(k as int)),
            Err(e) => outcome_from(outcomes, k + 1, Some(e)),
        }
    }
}

proof fn lemma_driven_from(c: ClipboardCopy, outcomes: Seq<Result<(), String>>)
    requires
        c.succeeded is None,
        c.tried <= HELPER_COUNT,
        outcomes.len() >= HELPER_COUNT,
    ensures
        driven(c, outcomes, (HELPER_COUNT - c.tried) as nat) == StepView::Done(
            outcome_from(outcomes, c.tried as nat, c.last_err),
        ),
    decreases HELPER_COUNT - c.tried,
{
    let n = (HELPER_COUNT - c.tried) as nat;
    if c.tried < HELPER_COUNT {
        let c2 = c.spec_recorded(outcomes[c.tried as int]);
        assert(driven(c, outcomes, n) == driven(c2, outcomes, (n - 1) as nat));
        match outcomes[c.tried as int] {
            Ok(()) => {
                assert(c2.spec_next_step() == StepView::Done(Ok(helper_name(c.tried as int))));
                assert(driven(c2, outcomes, (n - 1) as nat) == StepView::Done(
                    Ok(helper_name(c.tried as int)),
                ));
            },
            Err(e) => {
                lemma_driven_from(c2, outcomes);
                assert(c2.tried == c.tried + 1);
                assert((HELPER_COUNT - c2.tried) as nat == (n - 1) as nat);
            },
        }
    }
}

/// Copying tries the helpers in order and stops at the first that works:
/// driven by how each run goes, the copier ends, within `HELPER_COUNT`
/// runs, with the name of the first helper that worked, or, when all
/// failed, with the last error.
pub proof fn lemma_copy_tries_in_order(outcomes: Seq<Result<(), String>>)
    requires
        outcomes.len() >= HELPER_COUNT,
    ensures
        driven(ClipboardCopy::spec_new(), outcomes, HELPER_COUNT as nat) == StepView::Done(
            outcome_from(outcomes, 0, None),
        ),
{
    lemma_driven_from(ClipboardCopy::spec_new(), outcomes);
}

} // verus!

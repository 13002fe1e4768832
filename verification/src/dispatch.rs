//! What the editor does when a motion is typed: the decisions, from the
//! mode and the pending operators, that the editor then carries out.

use vstd::prelude::*;

use crate::motion::Motion;

verus! {

/// The mode Vim is in.
#[derive(Clone, Copy, Debug, PartialEq, Eq, Structural)]
pub enum Mode {
    Normal,
    Insert,
    Replace,
    Visual,
    VisualLine,
    VisualBlock,
}

impl Mode {
    pub open spec fn is_visual(self) -> bool {
        self == Mode::Visual || self == Mode::VisualLine || self == Mode::VisualBlock
    }
}

/// What a motion needs to know of a pending operator.
#[derive(Clone, Copy, Debug, PartialEq, Eq, Structural)]
pub enum OperatorKind {
    /// `f` or `t`, waiting for its character.
    FindForward,
    /// `F` or `T`, waiting for its character.
    FindBackward,
    /// `ys`, adding surrounding characters; with or without its target yet.
    AddSurrounds { has_target: bool },
    /// Any other operator.
    Other,
}

/// Where the motion goes.
#[derive(Clone, Copy, Debug, PartialEq, Eq, Structural)]
pub enum MotionDispatch {
    /// Move in normal mode, applying the pending operator, if any.
    Normal { operator: Option<OperatorKind> },
    /// Extend the selections in visual mode.
    Visual,
    /// Become the target of `ys`, which then waits for the characters to add.
    SurroundTarget,
}

/// What to do with a typed motion. After the dispatch the pending
/// operators are always cleared.
#[derive(Clone, Copy, Debug, PartialEq, Eq, Structural)]
pub struct MotionPlan {
    /// Whether the pending find operator on top of the stack is dropped first.
    pub pop_find: bool,
    pub dispatch: MotionDispatch,
    /// The operator pushed again once the pending ones are cleared, with the
    /// count it keeps: `ys` with the typed motion as its target, when the
    /// motion became that target.
    pub push_again: Option<PendingOperator>,
}

/// An operator to push, with the count kept for it.
#[derive(Clone, Copy, Debug, PartialEq, Eq, Structural)]
pub struct PendingOperator {
    pub operator: OperatorKind,
    pub pre_count: Option<usize>,
}

pub open spec fn is_find_operator(op: OperatorKind) -> bool {
    op == OperatorKind::FindForward || op == OperatorKind::FindBackward
}

/// The plan for a motion typed in `mode` with `operators` pending (the
/// last one on top): a pending find is dropped; then in a visual mode the
/// selections move; otherwise, when the operator on top is `ys` without a
/// target, the motion becomes its target, and else the cursor moves
/// with the operator on top applied. Afterwards the pending operators are
/// cleared, and a `ys` that got its target is pushed again, keeping `count`.
pub open spec fn motion_plan_of(mode: Mode, operators: Seq<OperatorKind>, count: Option<usize>) -> MotionPlan {
    let pop_find = operators.len() > 0 && is_find_operator(operators.last());
    let rest = if pop_find {
        operators.drop_last()
    } else {
        operators
    };
    let active = if rest.len() > 0 {
        Some(rest.last())
    } else {
        None
    };
    let dispatch = if mode.is_visual() {
        MotionDispatch::Visual
    } else if active == Some(OperatorKind::AddSurrounds { has_target: false }) {
        MotionDispatch::SurroundTarget
    } else {
        MotionDispatch::Normal { operator: active }
    };
    let push_again = if dispatch == MotionDispatch::SurroundTarget {
        Some(PendingOperator { operator: OperatorKind::AddSurrounds { has_target: true }, pre_count: count })
    } else {
        None
    };
    MotionPlan { pop_find, dispatch, push_again }
}

pub fn motion_plan(mode: Mode, operators: &Vec<OperatorKind>, count: Option<usize>) -> (plan:
    MotionPlan)
    ensures
        plan == motion_plan_of(mode, operators@, count),
{
    let n = operators.len();
    let pop_find = n > 0 && (operators[n - 1] == OperatorKind::FindForward || operators[n - 1]
        == OperatorKind::FindBackward);
    let rest_len = if pop_find {
        n - 1
    } else {
        n
    };
    let active = if rest_len > 0 {
        Some(operators[rest_len - 1])
    } else {
        None
    };
    proof {
        let rest = if pop_find {
            operators@.drop_last()
        } else {
            operators@
        };
        assert(rest.len() == rest_len);
        if rest_len > 0 {
            assert(rest.last() == operators@[rest_len - 1]);
        }
    }
    let visual = match mode {
        Mode::Visual | Mode::VisualLine | Mode::VisualBlock => true,
        _ => false,
    };
    let dispatch = if visual {
        MotionDispatch::Visual
    } else if active == Some(OperatorKind::AddSurrounds { has_target: false }) {
        MotionDispatch::SurroundTarget
    } else {
        MotionDispatch::Normal { operator: active }
    };
    let push_again = match dispatch {
        MotionDispatch::SurroundTarget => Some(PendingOperator { operator: OperatorKind::AddSurrounds { has_target: true }, pre_count: count }),
        _ => None,
    };
    MotionPlan { pop_find, dispatch, push_again }
}

/// What to do with the result of a search.
#[derive(Clone, Copy, Debug, PartialEq, Eq, Structural)]
pub struct SearchPlan {
    /// Whether the selections from before the search are put back first.
    pub restore_prior_selections: bool,
    /// Whether the motion is carried out at all.
    pub run_motion: bool,
}

/// For a search result: in a visual mode the selections from before the
/// search are put back (when there are any) and the motion extends them;
/// in the other modes the motion runs only when an operator is pending.
/// Any other motion just runs.
pub open spec fn search_plan_of(m: Motion, mode: Mode, has_active_operator: bool) -> SearchPlan {
    match m {
        Motion::ZedSearchResult { prior_selections, .. } => if mode.is_visual() {
            SearchPlan { restore_prior_selections: prior_selections@.len() > 0, run_motion: true }
        } else {
            SearchPlan { restore_prior_selections: false, run_motion: has_active_operator }
        },
        _ => SearchPlan { restore_prior_selections: false, run_motion: true },
    }
}

pub fn search_plan(m: &Motion, mode: Mode, has_active_operator: bool) -> (plan: SearchPlan)
    ensures
        plan == search_plan_of(*m, mode, has_active_operator),
{
    if let Motion::ZedSearchResult { prior_selections, .. } = m {
        match mode {
            Mode::Visual | Mode::VisualLine | Mode::VisualBlock => {
                return SearchPlan {
                    restore_prior_selections: prior_selections.len() > 0,
                    run_motion: true,
                };
            },
            Mode::Normal | Mode::Replace | Mode::Insert => {
                if !has_active_operator {
                    return SearchPlan { restore_prior_selections: false, run_motion: false };
                }
                return SearchPlan { restore_prior_selections: false, run_motion: true };
            },
        }
    }
    SearchPlan { restore_prior_selections: false, run_motion: true }
}

} // verus!

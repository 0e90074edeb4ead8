use vstd::prelude::*;

verus! {

/// One of the two states of the chain.
#[derive(Clone, Copy, PartialEq, Eq, Structural, Debug, Hash)]
pub enum Label {
    White,
    Black,
}

/// The error kinds the library raises: `InvalidState` for an operation on a
/// degenerate value (an empty jar, a fully absorbing matrix), and
/// `InsufficientData` for a sequence too short to estimate from, or one in
/// which some state is never observed as a transition origin.
#[derive(Clone, Copy, PartialEq, Eq, Structural, Debug, Hash)]
pub enum ChainError {
    InvalidState,
    InsufficientData,
}

/// Classifies a pair of consecutive states. A jump is a change of state; the
/// result carries the jump flag together with the state the jump started
/// from, and is `None` when the state did not change.
pub fn is_jump(prev: Label, curr: Label) -> (r: Option<(bool, Label)>)
    ensures
        prev == Label::White && curr == Label::Black ==> r == Some((true, Label::White)),
        prev == Label::Black && curr == Label::White ==> r == Some((true, Label::Black)),
        prev == curr ==> r == None::<(bool, Label)>,
{
    if prev == Label::White && curr == Label::Black {
        Some((true, Label::White))
    } else if prev == Label::Black && curr == Label::White {
        Some((true, Label::Black))
    } else {
        None
    }
}

} // verus!

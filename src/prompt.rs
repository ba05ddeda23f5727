//! The operator's yes/no decision.

use vstd::prelude::*;

verus! {

/// Why the operator's answer did not confirm the removal.
#[derive(Clone, Copy, Debug, PartialEq, Eq, Structural)]
pub enum PromptError {
    Bailed,
}

/// `Ok` when the operator confirmed.
pub type PromptResult = Result<(), PromptError>;

/// The reply is `y` in either case.
pub open spec fn is_yes(reply: Seq<char>) -> bool {
    reply == seq!['y'] || reply == seq!['Y']
}

/// Decides on one line of operator input: `y` or `Y` accepts, anything
/// else (the empty line included) declines.
pub fn confirm(reply: &str) -> (r: PromptResult)
    ensures
        r == (if is_yes(reply@) {
            Ok::<(), PromptError>(())
        } else {
            Err(PromptError::Bailed)
        }),
{
    if reply.unicode_len() == 1 {
        let c = reply.get_char(0);
        if c == 'y' || c == 'Y' {
            assert(reply@ =~= seq![c]);
            return Ok(());
        }
        assert(reply@[0] == c);
    }
    Err(PromptError::Bailed)
}

} // verus!

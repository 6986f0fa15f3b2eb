//! Text that a sender may send as `null`.

use vstd::prelude::*;

verus! {

/// The text that was read, or the empty text where reading failed, as it
/// does on a `null`: the outcome is always a text.
pub fn deserialize<E>(read: Result<String, E>) -> (text: Result<String, E>)
    ensures
        text is Ok,
        text->Ok_0@ == match read {
            Ok(s) => s@,
            Err(_) => Seq::<char>::empty(),
        },
{
    match read {
        Ok(s) => Ok(s),
        Err(_) => Ok(String::new()),
    }
}

} // verus!

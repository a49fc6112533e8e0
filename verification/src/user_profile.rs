//! The learner's display name.
use vstd::prelude::*;

use crate::text::{chars_of, char_is_control, is_control_char, trim, trim_seq};

verus! {

/// Longest display name, in characters.
pub const MAX_DISPLAY_NAME_CHARS: usize = 80;

pub const NAME_TOO_LONG_MESSAGE: &'static str = "Your name must be 80 characters or fewer.";

pub const NAME_CONTROL_MESSAGE: &'static str = "Your name cannot contain control characters.";

/// The stored form of a display name: the trimmed name, which must have at
/// most 80 characters and no control character.
pub open spec fn display_name(value: Seq<char>) -> Result<Seq<char>, Seq<char>> {
    let name = trim_seq(value);
    if name.len() > MAX_DISPLAY_NAME_CHARS {
        Err(NAME_TOO_LONG_MESSAGE@)
    } else if exists|i: int| 0 <= i < name.len() && is_control_char(#[trigger] name[i]) {
        Err(NAME_CONTROL_MESSAGE@)
    } else {
        Ok(name)
    }
}

/// Normalizes a display name for storage, or says why it is refused.
pub fn normalize_display_name(value: &str) -> (r: Result<String, String>)
    ensures
        match r {
            Ok(name) => display_name(value@) == Ok::<Seq<char>, Seq<char>>(name@),
            Err(message) => display_name(value@) == Err::<Seq<char>, Seq<char>>(message@),
        },
{
    let name = trim(value);
    let chars = chars_of(name.as_str());
    if chars.len() > MAX_DISPLAY_NAME_CHARS {
        return Err(String::from_str(NAME_TOO_LONG_MESSAGE));
    }
    for i in 0..chars.len()
        invariant
            chars@ == trim_seq(value@),
            chars@.len() <= MAX_DISPLAY_NAME_CHARS,
            forall|j: int| 0 <= j < i ==> !is_control_char(#[trigger] chars@[j]),
    {
        if char_is_control(chars[i]) {
            assert(is_control_char(chars@[i as int]));
            return Err(String::from_str(NAME_CONTROL_MESSAGE));
        }
    }
    Ok(name)
}

} // verus!

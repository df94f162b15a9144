use vstd::prelude::*;

use crate::text::chars_of;

verus! {

/// Output encoding types.
#[derive(Debug, Clone, Copy, PartialEq, Eq, Structural)]
pub enum Output {
    HTML,
    Unicode,
}

/// Text of more than two characters that starts with `&#`, the opening of
/// an escaped HTML character.
pub open spec fn is_escaped_html(s: Seq<char>) -> bool {
    s.len() > 2 && s[0] == '&' && s[1] == '#'
}

impl Output {
    /// `Some(HTML)` when `raw` reads as escaped HTML characters, else `None`.
    pub fn from_raw(raw: &str) -> (r: Option<Output>)
        ensures
            r == if is_escaped_html(raw@) {
                Some(Output::HTML)
            } else {
                None
            },
    {
        let chars = chars_of(raw);
        if chars.len() > 2 && chars[0] == '&' && chars[1] == '#' {
            Some(Output::HTML)
        } else {
            None
        }
    }
}

} // verus!

//! Small helpers shared by the page-rendering layer.

use vstd::prelude::*;

verus! {

/// Which top-level page a rendered response belongs to; the navigation bar
/// highlights the active one.
#[derive(Copy, Clone, PartialEq, Eq, Structural, Debug)]
pub enum PageType {
    Home,
    Blog,
    Error,
}

/// Strips the first and last character of `string` (used to drop the double
/// quotes around a serialized token). The string must have at least the two
/// characters to strip.
pub fn remove_quotes(string: String) -> (r: String)
    requires
        string@.len() >= 2,
    ensures
        r@ == string@.subrange(1, string@.len() - 1),
{
    let n = string.as_str().unicode_len();
    let inner = string.as_str().substring_char(1, n - 1);
    inner.to_owned()
}

} // verus!

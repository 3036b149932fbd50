//! The clipboard of the host.

use vstd::prelude::*;

verus! {

/// Access to the clipboard of the host, for the registers that stand for it. The flag
/// says whether the text is made of whole lines.
pub trait Clipboard: Send {
    /// What the clipboard holds; nothing where it is empty or cannot be read.
    fn get(&self) -> Option<(String, bool)>;

    /// Replace what the clipboard holds.
    fn set(&self, text: &str, linewise: bool);
}

} // verus!

//! The execution mode and its resolution from one environment value.

use crate::text::equals;
use vstd::prelude::*;

verus! {

/// Name of the environment variable whose value selects the mode.
pub const MODE_VARIABLE: &'static str = "TRYCMD";

/// What the runner does when actual output diverges from the expectation.
#[derive(Debug, PartialEq, Eq)]
pub enum Mode {
    /// Report a failure.
    Fail,
    /// Rewrite the expectation so that it matches the actual output.
    Overwrite,
    /// Write the actual output below the given directory; expectations stay
    /// as they are and nothing fails.
    Dump(String),
}

/// A mode with its destination as a character sequence.
pub enum ModeView {
    Fail,
    Overwrite,
    Dump(Seq<char>),
}

impl View for Mode {
    type V = ModeView;

    open spec fn view(&self) -> ModeView {
        match self {
            Mode::Fail => ModeView::Fail,
            Mode::Overwrite => ModeView::Overwrite,
            Mode::Dump(root) => ModeView::Dump(root@),
        }
    }
}

/// The mode that an environment value stands for: `overwrite` and `dump`
/// select their modes, spelled exactly so; anything else, and an unset
/// variable, keeps the strict default.
pub open spec fn resolve_mode(var: Option<Seq<char>>) -> ModeView {
    if var == Some("overwrite"@) {
        ModeView::Overwrite
    } else if var == Some("dump"@) {
        ModeView::Dump("dump"@)
    } else {
        ModeView::Fail
    }
}

/// Resolves the mode from the value of [`MODE_VARIABLE`], `None` where it is
/// unset.
pub fn parse_mode(var: Option<&str>) -> (mode: Mode)
    ensures
        mode@ == resolve_mode(var.deep_view()),
{
    match var {
        Some(value) => {
            if equals(value, "overwrite") {
                Mode::Overwrite
            } else if equals(value, "dump") {
                Mode::Dump("dump".to_owned())
            } else {
                Mode::Fail
            }
        },
        None => Mode::Fail,
    }
}

impl Clone for Mode {
    fn clone(&self) -> (copy: Self)
        ensures
            copy@ == self@,
    {
        match self {
            Mode::Fail => Mode::Fail,
            Mode::Overwrite => Mode::Overwrite,
            Mode::Dump(root) => Mode::Dump(root.clone()),
        }
    }
}

impl Mode {
    /// The directory that must exist before the runner starts, if the mode
    /// writes to one.
    pub fn destination(&self) -> (root: Option<&str>)
        ensures
            root.deep_view() == match self@ {
                ModeView::Dump(dir) => Some(dir),
                _ => None,
            },
    {
        match self {
            Mode::Dump(root) => Some(root.as_str()),
            _ => None,
        }
    }
}

/// Whatever the variable holds besides the two recognised words, the mode is
/// `Fail`, and so it is where the variable is unset: an unknown or mistyped
/// value never permits a write. Only the two words select another mode.
pub proof fn lemma_fail_unless_recognised(var: Option<Seq<char>>)
    ensures
        var != Some("overwrite"@) && var != Some("dump"@) ==> resolve_mode(var) == ModeView::Fail,
        resolve_mode(var) == ModeView::Fail ==> var != Some("overwrite"@) && var != Some("dump"@),
        resolve_mode(None) == ModeView::Fail,
{
}

/// Each of the two recognised words selects its own mode.
pub proof fn lemma_recognised_values()
    ensures
        resolve_mode(Some("overwrite"@)) == ModeView::Overwrite,
        resolve_mode(Some("dump"@)) == ModeView::Dump("dump"@),
{
    reveal_strlit("overwrite");
    reveal_strlit("dump");
    assert("overwrite"@.len() != "dump"@.len());
}

} // verus!

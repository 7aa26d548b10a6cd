//! The values that a registration carries: the outcome expected of a case and
//! the executable that a case runs.

use vstd::prelude::*;

verus! {

/// The outcome expected of a case, where the registration overrides what the
/// case's own record says.
#[derive(Clone, Copy, Debug, PartialEq, Eq, Structural)]
pub enum CommandStatus {
    Pass,
    Fail,
    Interrupted,
    Skip,
}

/// The executable that a case runs where it names none of its own.
#[derive(Debug, PartialEq, Eq)]
pub enum Bin {
    /// A location in the file system.
    Path(String),
    /// A name that the runner resolves.
    Name(String),
}

/// An executable reference with its text as a character sequence.
pub enum BinView {
    Path(Seq<char>),
    Name(Seq<char>),
}

impl View for Bin {
    type V = BinView;

    open spec fn view(&self) -> BinView {
        match self {
            Bin::Path(path) => BinView::Path(path@),
            Bin::Name(name) => BinView::Name(name@),
        }
    }
}

impl Clone for Bin {
    fn clone(&self) -> (copy: Self)
        ensures
            copy@ == self@,
    {
        match self {
            Bin::Path(path) => Bin::Path(path.clone()),
            Bin::Name(name) => Bin::Name(name.clone()),
        }
    }
}

impl DeepView for Bin {
    type V = BinView;

    open spec fn deep_view(&self) -> BinView {
        self@
    }
}

} // verus!

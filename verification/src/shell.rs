//! Small value types the surrounding shells share: tray menu identities,
//! the front end's tab bar, and the plain start options of the earliest
//! server shape.

use vstd::prelude::*;

verus! {

use vstd::string::StringExecFns;

/// The tray menu entries.
#[derive(Clone, Copy, Debug, PartialEq, Eq, Structural)]
pub enum MenuId {
    ShowHide,
    Quit,
}

impl MenuId {
    /// The label and identifier of the menu entry.
    pub fn as_str(&self) -> (r: &'static str)
        ensures
            self is ShowHide ==> r@ == "Show/Hide"@,
            self is Quit ==> r@ == "Quit"@,
    {
        match self {
            MenuId::ShowHide => "Show/Hide",
            MenuId::Quit => "Quit",
        }
    }
}

/// The top-level tabs of the front end.
#[derive(Clone, Copy, Debug, PartialEq, Eq, Structural)]
pub enum TopTabBar {
    DashBoard,
    Log,
    Config,
}

/// The plain options of the earliest server shape: only an address to
/// bind.
#[derive(Clone, Debug)]
pub struct StartOptions {
    pub addr: String,
}

/// A greeting that proves the library is linked and alive.
pub fn greet() -> (r: String)
    ensures
        r@ == "Hello from Rust! 🦀"@,
{
    String::from_str("Hello from Rust! 🦀")
}

} // verus!

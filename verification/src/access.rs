use vstd::prelude::*;

verus! {

/// Access attribute of a composite object.
#[derive(Clone, Copy, Debug, PartialEq, Eq, Structural)]
pub enum Access {
    Unlimited,
    ReadOnly,
    ExecuteOnly,
    NoAccess,
}

impl Default for Access {
    fn default() -> (r: Self)
        ensures
            r == Access::Unlimited,
    {
        Access::Unlimited
    }
}

impl Access {
    pub fn is_read_only(&self) -> (r: bool)
        ensures
            r <==> *self == Access::ReadOnly,
    {
        matches!(self, Access::ReadOnly)
    }

    pub fn is_exec_only(&self) -> (r: bool)
        ensures
            r <==> *self == Access::ExecuteOnly,
    {
        matches!(self, Access::ExecuteOnly)
    }

    pub fn has_no_access(&self) -> (r: bool)
        ensures
            r <==> *self == Access::NoAccess,
    {
        matches!(self, Access::NoAccess)
    }

    pub fn is_writeable(&self) -> (r: bool)
        ensures
            r <==> *self == Access::Unlimited,
    {
        matches!(self, Access::Unlimited)
    }

    pub fn is_readable(&self) -> (r: bool)
        ensures
            r <==> (*self == Access::Unlimited || *self == Access::ReadOnly),
    {
        self.is_writeable() || self.is_read_only()
    }

    pub fn is_executable(&self) -> (r: bool)
        ensures
            r <==> *self != Access::NoAccess,
    {
        self.is_readable() || self.is_exec_only()
    }
}

/// Literal or executable attribute of an object.
#[derive(Clone, Copy, Debug, PartialEq, Eq, Structural)]
pub enum Mode {
    Executable,
    Literal,
}

impl Default for Mode {
    fn default() -> (r: Self)
        ensures
            r == Mode::Executable,
    {
        Mode::Executable
    }
}

impl Mode {
    pub fn is_literal(self) -> (r: bool)
        ensures
            r <==> self == Mode::Literal,
    {
        matches!(self, Mode::Literal)
    }

    pub fn is_executable(self) -> (r: bool)
        ensures
            r <==> self == Mode::Executable,
    {
        matches!(self, Mode::Executable)
    }
}

} // verus!

//! Device roles and class data as the input extension reports them.

use vstd::prelude::*;

verus! {

/// What role a device plays in the input hierarchy.
#[derive(Debug, Clone, Copy, PartialEq, Eq, Structural)]
pub enum Use {
    MasterPointer,
    MasterKeyboard,
    SlavePointer,
    SlaveKeyboard,
    FloatingSlave,
}

impl Use {
    /// Whether the device is a slave, attached or floating.
    pub fn is_slave(&self) -> (r: bool)
        ensures
            r == (self is SlavePointer || self is SlaveKeyboard || self is FloatingSlave),
    {
        match self {
            Use::MasterPointer => false,
            Use::MasterKeyboard => false,
            Use::SlavePointer => true,
            Use::SlaveKeyboard => true,
            Use::FloatingSlave => true,
        }
    }

    /// Whether the device floats free of any master.
    pub fn is_floating(&self) -> (r: bool)
        ensures
            r == (self is FloatingSlave),
    {
        matches!(self, Use::FloatingSlave)
    }

    /// Decodes the protocol's device-use code; master pointer is one,
    /// master keyboard two, then attached and floating slaves.
    pub fn from_code(value: i32) -> (r: Result<Use, i32>)
        ensures
            value == 1 ==> r == Result::<Use, i32>::Ok(Use::MasterPointer),
            value == 2 ==> r == Result::<Use, i32>::Ok(Use::MasterKeyboard),
            value == 3 ==> r == Result::<Use, i32>::Ok(Use::SlavePointer),
            value == 4 ==> r == Result::<Use, i32>::Ok(Use::SlaveKeyboard),
            value == 5 ==> r == Result::<Use, i32>::Ok(Use::FloatingSlave),
            !(1 <= value <= 5) ==> r == Result::<Use, i32>::Err(value),
    {
        if value == 1 {
            Ok(Use::MasterPointer)
        } else if value == 2 {
            Ok(Use::MasterKeyboard)
        } else if value == 3 {
            Ok(Use::SlavePointer)
        } else if value == 4 {
            Ok(Use::SlaveKeyboard)
        } else if value == 5 {
            Ok(Use::FloatingSlave)
        } else {
            Err(value)
        }
    }
}

/// One class of a device's capabilities; only the key class matters
/// here.
pub enum ClassInfo {
    Key { codes: Vec<i32> },
}

impl ClassInfo {
    /// The keycodes of a key class.
    pub fn get_keyclass_info(&self) -> (r: Option<&Vec<i32>>)
        ensures
            self matches ClassInfo::Key { codes } ==> r matches Some(cs) && cs@ == codes@,
    {
        match self {
            ClassInfo::Key { codes } => Some(codes),
        }
    }
}

} // verus!

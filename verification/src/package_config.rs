//! The kinds of package that a simulation can be configured with.

use vstd::prelude::*;
use vstd::string::StringExecFns;

verus! {

/// The smallest number that names a kind of package.
pub const ENUM_MIN_PACKAGE_TYPE: i8 = 0;

/// The largest number that names a kind of package.
pub const ENUM_MAX_PACKAGE_TYPE: i8 = 3;

/// The kind of a package, as the number that is written in a configuration.
/// Numbers outside the known kinds can be held and have no name.
#[derive(Clone, Copy, Debug, PartialEq, Eq, PartialOrd, Ord, Hash, Default)]
pub struct PackageType(pub i8);

/// Marks an offset into a buffer as that of a package.
#[derive(Clone, Copy, Debug, PartialEq, Eq)]
pub struct PackageOffset;

/// Marks an offset into a buffer as that of a package configuration.
#[derive(Clone, Copy, Debug, PartialEq, Eq)]
pub struct PackageConfigOffset;

/// The name of the kind of package with the number `value`, if it is a known kind.
pub open spec fn variant_name_of(value: i8) -> Option<Seq<char>> {
    if value == 0 {
        Some("Init"@)
    } else if value == 1 {
        Some("Context"@)
    } else if value == 2 {
        Some("State"@)
    } else if value == 3 {
        Some("Output"@)
    } else {
        None
    }
}

/// The text `<UNKNOWN n>` for the number `value`, as `format!` writes it
/// with `{:?}` for `n`.
pub uninterp spec fn unknown_label(value: i8) -> Seq<char>;

/// Writes `<UNKNOWN n>` with `format!`, where `n` is `value` as `{:?}` prints it.
#[verifier::external_body]
fn format_unknown(value: i8) -> (label: String)
    ensures
        label@ == unknown_label(value),
{
    format!("<UNKNOWN {:?}>", value)
}

impl PackageType {
    /// The kind of the packages that set up the first state.
    pub fn init() -> (kind: PackageType)
        ensures
            kind.0 == 0,
    {
        PackageType(0)
    }

    /// The kind of the packages that provide context to every step.
    pub fn context() -> (kind: PackageType)
        ensures
            kind.0 == 1,
    {
        PackageType(1)
    }

    /// The kind of the packages that change the state.
    pub fn state() -> (kind: PackageType)
        ensures
            kind.0 == 2,
    {
        PackageType(2)
    }

    /// The kind of the packages that write output.
    pub fn output() -> (kind: PackageType)
        ensures
            kind.0 == 3,
    {
        PackageType(3)
    }

    pub const ENUM_MIN: i8 = 0;

    pub const ENUM_MAX: i8 = 3;

    /// The known kinds, in the order of their numbers.
    pub fn enum_values() -> (values: [PackageType; 4])
        ensures
            forall|i: int| 0 <= i < 4 ==> values@[i].0 == i,
    {
        [PackageType(0), PackageType(1), PackageType(2), PackageType(3)]
    }

    /// Whether the number is that of a known kind.
    pub open spec fn is_known(self) -> bool {
        ENUM_MIN_PACKAGE_TYPE <= self.0 <= ENUM_MAX_PACKAGE_TYPE
    }

    /// The name of the kind, or nothing for a number that names no kind.
    pub fn variant_name(self) -> (name: Option<&'static str>)
        ensures
            name is Some <==> self.is_known(),
            match name {
                Some(text) => variant_name_of(self.0) == Some(text@),
                None => variant_name_of(self.0) is None,
            },
    {
        if self.0 == 0 {
            Some("Init")
        } else if self.0 == 1 {
            Some("Context")
        } else if self.0 == 2 {
            Some("State")
        } else if self.0 == 3 {
            Some("Output")
        } else {
            None
        }
    }

    /// The kind as it is shown to a reader: its name, or `<UNKNOWN n>` for
    /// a number `n` that names no kind.
    pub fn debug_text(self) -> (text: String)
        ensures
            text@ == match variant_name_of(self.0) {
                Some(name) => name,
                None => unknown_label(self.0),
            },
    {
        match self.variant_name() {
            Some(name) => String::from_str(name),
            None => format_unknown(self.0),
        }
    }
}

} // verus!

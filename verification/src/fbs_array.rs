use vstd::prelude::*;

use crate::text::{decimal, push_decimal, push_str};

verus! {

/// Version tag stored in the `version` slot of a serialized array table.
#[derive(Clone, Copy, PartialEq, Eq, Structural, PartialOrd, Ord, Hash, Default)]
pub struct Version(pub u8);

impl Version {
    /// The only version defined so far.
    pub fn v0() -> (v: Version)
        ensures
            v.0 == 0,
    {
        Version(0)
    }

    /// Smallest raw value that names a known version.
    pub const ENUM_MIN: u8 = 0;

    /// Largest raw value that names a known version.
    pub const ENUM_MAX: u8 = 0;

    /// Whether the raw value names a known version.
    pub open spec fn is_known(self) -> bool {
        self.0 == 0
    }

    /// Returns the variant's name, or `None` when the raw value is unknown.
    pub fn variant_name(self) -> (res: Option<&'static str>)
        ensures
            self.is_known() <==> res is Some,
            res matches Some(name) ==> name@ == "V0"@,
    {
        if self.0 == 0 {
            Some("V0")
        } else {
            None
        }
    }

    /// The text a debug print shows: the variant's name, or `<UNKNOWN n>` for a raw value
    /// that names no version.
    pub open spec fn debug_text(self) -> Seq<char> {
        if self.is_known() {
            "V0"@
        } else {
            "<UNKNOWN "@ + decimal(self.0 as nat) + ">"@
        }
    }

    /// Renders the value as a debug print does.
    pub fn debug_string(&self) -> (res: String)
        ensures
            res@ == self.debug_text(),
    {
        let mut s = String::new();
        match self.variant_name() {
            Some(name) => {
                push_str(&mut s, name);
            },
            None => {
                push_str(&mut s, "<UNKNOWN ");
                push_decimal(&mut s, self.0 as u128);
                push_str(&mut s, ">");
            },
        }
        s
    }

    /// Reads a version stored as a single byte at `loc` in `buf`.
    pub fn follow(buf: &[u8], loc: usize) -> (res: Version)
        requires
            loc < buf@.len(),
        ensures
            res.0 == buf@[loc as int],
    {
        Version(buf[loc])
    }
}

/// Marker for offsets that point at an `Array` table; it has no public constructor and is only
/// named as a type.
pub struct ArrayOffset {
    marker: (),
}

/// Marker for offsets that point at an `ArrayStats` table; it has no public constructor and is
/// only named as a type.
pub struct ArrayStatsOffset {
    marker: (),
}

} // verus!

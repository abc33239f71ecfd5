//! Rendering the permission bits of a file mode.

use vstd::prelude::*;
use vstd::string::*;

verus! {

/// Whose permissions are meant.
#[derive(Debug, Clone, Copy, PartialEq, Eq, Structural)]
pub enum Owner {
    User,
    Group,
    Other,
}

impl Owner {
    /// The bit that grants this owner reading.
    pub open spec fn read_mask(self) -> u32 {
        match self {
            Owner::User => 0o400,
            Owner::Group => 0o040,
            Owner::Other => 0o004,
        }
    }

    /// The bit that grants this owner writing.
    pub open spec fn write_mask(self) -> u32 {
        match self {
            Owner::User => 0o200,
            Owner::Group => 0o020,
            Owner::Other => 0o002,
        }
    }

    /// The bit that grants this owner execution.
    pub open spec fn execute_mask(self) -> u32 {
        match self {
            Owner::User => 0o100,
            Owner::Group => 0o010,
            Owner::Other => 0o001,
        }
    }

    /// The read, write and execute bits of this owner, in that order.
    pub fn masks(&self) -> (bits: [u32; 3])
        ensures
            bits[0] == self.read_mask(),
            bits[1] == self.write_mask(),
            bits[2] == self.execute_mask(),
    {
        match self {
            Owner::User => [0o400, 0o200, 0o100],
            Owner::Group => [0o040, 0o020, 0o010],
            Owner::Other => [0o004, 0o002, 0o001],
        }
    }
}

/// The letter for a permission where `mode` has the bit, a dash where not.
pub open spec fn flag_char(mode: u32, mask: u32, letter: char) -> char {
    if mode & mask == 0 {
        '-'
    } else {
        letter
    }
}

/// The three characters that show one owner's permissions in `mode`.
pub open spec fn triple_of(mode: u32, owner: Owner) -> Seq<char> {
    seq![
        flag_char(mode, owner.read_mask(), 'r'),
        flag_char(mode, owner.write_mask(), 'w'),
        flag_char(mode, owner.execute_mask(), 'x'),
    ]
}

/// Renders one owner's permissions, such as `r-x`.
pub fn mk_triple(mode: u32, owner: Owner) -> (text: String)
    ensures
        text@ == triple_of(mode, owner),
{
    let bits = owner.masks();
    proof {
        reveal_strlit("-");
        reveal_strlit("r");
        reveal_strlit("w");
        reveal_strlit("x");
    }
    let read = if mode & bits[0] == 0 {
        "-"
    } else {
        "r"
    };
    let write = if mode & bits[1] == 0 {
        "-"
    } else {
        "w"
    };
    let execute = if mode & bits[2] == 0 {
        "-"
    } else {
        "x"
    };
    let text = String::from_str(read).concat(write).concat(execute);
    proof {
        assert(text@ =~= triple_of(mode, owner));
    }
    text
}

/// The nine characters that show the permissions in `mode`.
pub open spec fn mode_text(mode: u32) -> Seq<char> {
    triple_of(mode, Owner::User) + triple_of(mode, Owner::Group) + triple_of(mode, Owner::Other)
}

/// Renders the permissions of a mode such as `0o751` as `rwxr-x--x`.
pub fn format_mode(mode: u32) -> (text: String)
    ensures
        text@ == mode_text(mode),
{
    let group = mk_triple(mode, Owner::Group);
    let other = mk_triple(mode, Owner::Other);
    mk_triple(mode, Owner::User).concat(group.as_str()).concat(other.as_str())
}

} // verus!

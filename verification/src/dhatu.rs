//! The nine categories, in their fixed order.

use vstd::prelude::*;
use vstd::string::*;

verus! {

/// One of the nine categories. The order of declaration is the order in which
/// weights are stored and in which ties are broken.
#[derive(Debug, Clone, Copy, PartialEq, Eq, Hash, Structural)]
pub enum Dhatu {
    RELATE,
    MODAL,
    EXIST,
    EVAL,
    COMM,
    CAUSE,
    ITER,
    DECIDE,
    FEEL,
}

impl Dhatu {
    /// Every category, in declaration order.
    pub const ALL: [Dhatu; 9] = [
        Dhatu::RELATE,
        Dhatu::MODAL,
        Dhatu::EXIST,
        Dhatu::EVAL,
        Dhatu::COMM,
        Dhatu::CAUSE,
        Dhatu::ITER,
        Dhatu::DECIDE,
        Dhatu::FEEL,
    ];

    /// Position of the category in declaration order, from 0 to 8.
    pub open spec fn spec_index(self) -> int {
        match self {
            Dhatu::RELATE => 0,
            Dhatu::MODAL => 1,
            Dhatu::EXIST => 2,
            Dhatu::EVAL => 3,
            Dhatu::COMM => 4,
            Dhatu::CAUSE => 5,
            Dhatu::ITER => 6,
            Dhatu::DECIDE => 7,
            Dhatu::FEEL => 8,
        }
    }

    /// The category at a position; positions past the last give the last.
    pub open spec fn at(i: int) -> Dhatu {
        if i <= 0 {
            Dhatu::RELATE
        } else if i == 1 {
            Dhatu::MODAL
        } else if i == 2 {
            Dhatu::EXIST
        } else if i == 3 {
            Dhatu::EVAL
        } else if i == 4 {
            Dhatu::COMM
        } else if i == 5 {
            Dhatu::CAUSE
        } else if i == 6 {
            Dhatu::ITER
        } else if i == 7 {
            Dhatu::DECIDE
        } else {
            Dhatu::FEEL
        }
    }

    /// The canonical name as text.
    pub open spec fn name(self) -> Seq<char> {
        match self {
            Dhatu::RELATE => "RELATE"@,
            Dhatu::MODAL => "MODAL"@,
            Dhatu::EXIST => "EXIST"@,
            Dhatu::EVAL => "EVAL"@,
            Dhatu::COMM => "COMM"@,
            Dhatu::CAUSE => "CAUSE"@,
            Dhatu::ITER => "ITER"@,
            Dhatu::DECIDE => "DECIDE"@,
            Dhatu::FEEL => "FEEL"@,
        }
    }

    /// The canonical name as bytes. The names are ASCII, so each character is
    /// one byte.
    pub open spec fn name_bytes(self) -> Seq<u8> {
        Seq::new(self.name().len(), |i: int| self.name()[i] as u8)
    }

    /// Position of the category in declaration order.
    pub fn index(self) -> (i: usize)
        ensures
            i == self.spec_index(),
            i < 9,
    {
        match self {
            Dhatu::RELATE => 0,
            Dhatu::MODAL => 1,
            Dhatu::EXIST => 2,
            Dhatu::EVAL => 3,
            Dhatu::COMM => 4,
            Dhatu::CAUSE => 5,
            Dhatu::ITER => 6,
            Dhatu::DECIDE => 7,
            Dhatu::FEEL => 8,
        }
    }

    /// The category at position `i` of the declaration order.
    pub fn from_index(i: usize) -> (d: Dhatu)
        requires
            i < 9,
        ensures
            d == Dhatu::at(i as int),
            d.spec_index() == i,
    {
        if i == 0 {
            Dhatu::RELATE
        } else if i == 1 {
            Dhatu::MODAL
        } else if i == 2 {
            Dhatu::EXIST
        } else if i == 3 {
            Dhatu::EVAL
        } else if i == 4 {
            Dhatu::COMM
        } else if i == 5 {
            Dhatu::CAUSE
        } else if i == 6 {
            Dhatu::ITER
        } else if i == 7 {
            Dhatu::DECIDE
        } else {
            Dhatu::FEEL
        }
    }

    /// The canonical upper-case name.
    pub fn as_str(&self) -> (s: &'static str)
        ensures
            s@ == self.name(),
    {
        match self {
            Dhatu::RELATE => "RELATE",
            Dhatu::MODAL => "MODAL",
            Dhatu::EXIST => "EXIST",
            Dhatu::EVAL => "EVAL",
            Dhatu::COMM => "COMM",
            Dhatu::CAUSE => "CAUSE",
            Dhatu::ITER => "ITER",
            Dhatu::DECIDE => "DECIDE",
            Dhatu::FEEL => "FEEL",
        }
    }

    /// The bytes of the canonical name.
    pub fn as_bytes(&self) -> (bytes: &'static [u8])
        ensures
            bytes@ == self.name_bytes(),
    {
        let s = self.as_str();
        proof {
            reveal_strlit("RELATE");
            reveal_strlit("MODAL");
            reveal_strlit("EXIST");
            reveal_strlit("EVAL");
            reveal_strlit("COMM");
            reveal_strlit("CAUSE");
            reveal_strlit("ITER");
            reveal_strlit("DECIDE");
            reveal_strlit("FEEL");
            assert(is_ascii(s));
            is_ascii_spec_bytes(s);
        }
        s.as_bytes()
    }
}

} // verus!

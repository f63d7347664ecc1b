//! Grid density: how large tiles aim to be.

use vstd::prelude::*;

use crate::text::same_text;

verus! {

#[derive(Clone, Copy, PartialEq, Eq, Structural, Debug)]
pub enum Density {
    Small,
    Medium,
    Large,
}

pub open spec fn density_label(d: Density) -> Seq<char> {
    match d {
        Density::Small => "S"@,
        Density::Medium => "M"@,
        Density::Large => "L"@,
    }
}

pub open spec fn density_pref(d: Density) -> Seq<char> {
    match d {
        Density::Small => "small"@,
        Density::Medium => "medium"@,
        Density::Large => "large"@,
    }
}

/// The stored names, read back; anything else is medium.
pub open spec fn density_from_pref(v: Seq<char>) -> Density {
    if v == "small"@ {
        Density::Small
    } else if v == "large"@ {
        Density::Large
    } else {
        Density::Medium
    }
}

pub open spec fn density_target(d: Density) -> u32 {
    match d {
        Density::Small => 120,
        Density::Medium => 176,
        Density::Large => 248,
    }
}

impl Density {
    /// The tile edge, in pixels, that the grid aims for.
    pub fn target(self) -> (r: u32)
        ensures
            r == density_target(self),
    {
        match self {
            Density::Small => 120,
            Density::Medium => 176,
            Density::Large => 248,
        }
    }

    /// The letter on the density button.
    pub fn label(self) -> (r: &'static str)
        ensures
            r@ == density_label(self),
    {
        match self {
            Density::Small => "S",
            Density::Medium => "M",
            Density::Large => "L",
        }
    }

    /// The name the density is stored under.
    pub fn as_pref(self) -> (r: &'static str)
        ensures
            r@ == density_pref(self),
    {
        match self {
            Density::Small => "small",
            Density::Medium => "medium",
            Density::Large => "large",
        }
    }

    pub fn from_pref(value: &str) -> (r: Density)
        ensures
            r == density_from_pref(value@),
    {
        if same_text(value, "small") {
            Density::Small
        } else if same_text(value, "large") {
            Density::Large
        } else {
            Density::Medium
        }
    }
}

/// A stored density reads back as itself.
pub proof fn law_density_pref_round_trip(d: Density)
    ensures
        density_from_pref(density_pref(d)) == d,
{
    reveal_strlit("small");
    reveal_strlit("medium");
    reveal_strlit("large");
    if d == Density::Medium {
        assert("medium"@ != "small"@) by {
            assert("medium"@.len() != "small"@.len());
        }
        assert("medium"@ != "large"@) by {
            assert("medium"@[0] != "large"@[0]);
        }
    }
    if d == Density::Large {
        assert("large"@ != "small"@) by {
            assert("large"@[0] != "small"@[0]);
        }
    }
}

} // verus!

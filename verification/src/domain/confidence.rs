use vstd::prelude::*;

verus! {

/// How well a relation is supported, from weakest to strongest.
#[derive(Debug, Clone, Copy, PartialEq, Eq, Structural, PartialOrd, Ord, Hash)]
pub enum Confidence {
    Unknown,
    Inferred,
    Strong,
    Exact,
}

/// The rank of a confidence level: `Unknown` lowest, `Exact` highest.
pub open spec fn confidence_rank(c: Confidence) -> nat {
    match c {
        Confidence::Unknown => 0,
        Confidence::Inferred => 1,
        Confidence::Strong => 2,
        Confidence::Exact => 3,
    }
}

/// The stronger of two confidence levels.
pub open spec fn stronger(a: Confidence, b: Confidence) -> Confidence {
    if confidence_rank(a) >= confidence_rank(b) {
        a
    } else {
        b
    }
}

/// The name under which a confidence level is shown.
pub open spec fn confidence_name(c: Confidence) -> Seq<char> {
    match c {
        Confidence::Exact => "exact"@,
        Confidence::Strong => "strong"@,
        Confidence::Inferred => "inferred"@,
        Confidence::Unknown => "unknown"@,
    }
}

impl Confidence {
    pub fn as_str(self) -> (r: &'static str)
        ensures
            r@ == confidence_name(self),
    {
        match self {
            Self::Exact => "exact",
            Self::Strong => "strong",
            Self::Inferred => "inferred",
            Self::Unknown => "unknown",
        }
    }

    /// The rank of this level, `0` for `Unknown` up to `3` for `Exact`.
    pub fn rank(self) -> (r: u8)
        ensures
            r as nat == confidence_rank(self),
    {
        match self {
            Self::Unknown => 0,
            Self::Inferred => 1,
            Self::Strong => 2,
            Self::Exact => 3,
        }
    }

    /// The stronger of `self` and `other`, as the derived order's `max`
    /// gives it.
    pub fn max(self, other: Confidence) -> (r: Confidence)
        ensures
            r == stronger(self, other),
    {
        if self.rank() >= other.rank() {
            self
        } else {
            other
        }
    }

    /// The text shown for this level.
    pub fn to_string(&self) -> (r: String)
        ensures
            r@ == confidence_name(*self),
    {
        crate::domain::text::owned(self.as_str())
    }
}

} // verus!

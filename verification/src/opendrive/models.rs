//! The OpenDRIVE vocabulary the checkers read from attributes.
use vstd::prelude::*;

use crate::text::str_eq;

verus! {

#[derive(Debug, Clone, Copy, PartialEq, Eq, Structural)]
pub enum LinkageTag {
    Predecessor,
    Successor,
}

impl LinkageTag {
    pub open spec fn spec_value(self) -> Seq<char> {
        match self {
            LinkageTag::Predecessor => "predecessor"@,
            LinkageTag::Successor => "successor"@,
        }
    }

    /// The element name of the linkage: `predecessor` or `successor`.
    pub fn value(self) -> (r: &'static str)
        ensures
            r@ == self.spec_value(),
    {
        match self {
            LinkageTag::Predecessor => "predecessor",
            LinkageTag::Successor => "successor",
        }
    }
}

#[derive(Debug, Clone, Copy, PartialEq, Eq, Structural)]
pub enum ContactPoint {
    Start,
    End,
}

impl ContactPoint {
    pub open spec fn spec_from_str(s: Seq<char>) -> Option<ContactPoint> {
        if s == "start"@ {
            Some(ContactPoint::Start)
        } else if s == "end"@ {
            Some(ContactPoint::End)
        } else {
            None
        }
    }

    pub open spec fn spec_value(self) -> Seq<char> {
        match self {
            ContactPoint::Start => "start"@,
            ContactPoint::End => "end"@,
        }
    }

    /// Reads `start` or `end`.
    pub fn from_str(s: &str) -> (r: Option<ContactPoint>)
        ensures
            r == Self::spec_from_str(s@),
    {
        if str_eq(s, "start") {
            Some(ContactPoint::Start)
        } else if str_eq(s, "end") {
            Some(ContactPoint::End)
        } else {
            None
        }
    }

    /// The attribute value: `start` or `end`.
    pub fn value(self) -> (r: &'static str)
        ensures
            r@ == self.spec_value(),
    {
        match self {
            ContactPoint::Start => "start",
            ContactPoint::End => "end",
        }
    }
}

/// A road link to another road: the road's id and the end it is linked at.
#[derive(Debug, Clone, Copy, PartialEq, Eq, Structural)]
pub struct RoadLinkage {
    pub id: i64,
    pub contact_point: ContactPoint,
}

#[derive(Debug, Clone, Copy, PartialEq, Eq, Structural)]
pub enum ParamPoly3Range {
    ArcLength,
    Normalized,
}

impl ParamPoly3Range {
    pub open spec fn spec_from_str(s: Seq<char>) -> Option<ParamPoly3Range> {
        if s == "arcLength"@ {
            Some(ParamPoly3Range::ArcLength)
        } else if s == "normalized"@ {
            Some(ParamPoly3Range::Normalized)
        } else {
            None
        }
    }

    pub open spec fn spec_as_str(self) -> Seq<char> {
        match self {
            ParamPoly3Range::ArcLength => "arcLength"@,
            ParamPoly3Range::Normalized => "normalized"@,
        }
    }

    /// Reads `arcLength` or `normalized`.
    pub fn from_str(s: &str) -> (r: Option<ParamPoly3Range>)
        ensures
            r == Self::spec_from_str(s@),
    {
        if str_eq(s, "arcLength") {
            Some(ParamPoly3Range::ArcLength)
        } else if str_eq(s, "normalized") {
            Some(ParamPoly3Range::Normalized)
        } else {
            None
        }
    }

    /// The attribute value: `arcLength` or `normalized`.
    pub fn as_str(self) -> (r: &'static str)
        ensures
            r@ == self.spec_as_str(),
    {
        match self {
            ParamPoly3Range::ArcLength => "arcLength",
            ParamPoly3Range::Normalized => "normalized",
        }
    }
}

#[derive(Debug, Clone, Copy, PartialEq, Eq, Structural)]
pub enum TrafficHandRule {
    LHT,
    RHT,
}

impl TrafficHandRule {
    pub open spec fn spec_from_str(s: Seq<char>) -> Option<TrafficHandRule> {
        if s == "LHT"@ {
            Some(TrafficHandRule::LHT)
        } else if s == "RHT"@ {
            Some(TrafficHandRule::RHT)
        } else {
            None
        }
    }

    /// Reads `LHT` or `RHT`.
    pub fn from_str(s: &str) -> (r: Option<TrafficHandRule>)
        ensures
            r == Self::spec_from_str(s@),
    {
        if str_eq(s, "LHT") {
            Some(TrafficHandRule::LHT)
        } else if str_eq(s, "RHT") {
            Some(TrafficHandRule::RHT)
        } else {
            None
        }
    }
}

#[derive(Debug, Clone, Copy, PartialEq, Eq, Structural)]
pub enum LaneDirection {
    Standard,
    Reversed,
    Both,
}

impl LaneDirection {
    pub open spec fn spec_from_str(s: Seq<char>) -> Option<LaneDirection> {
        if s == "standard"@ {
            Some(LaneDirection::Standard)
        } else if s == "reversed"@ {
            Some(LaneDirection::Reversed)
        } else if s == "both"@ {
            Some(LaneDirection::Both)
        } else {
            None
        }
    }

    /// Reads `standard`, `reversed` or `both`.
    pub fn from_str(s: &str) -> (r: Option<LaneDirection>)
        ensures
            r == Self::spec_from_str(s@),
    {
        if str_eq(s, "standard") {
            Some(LaneDirection::Standard)
        } else if str_eq(s, "reversed") {
            Some(LaneDirection::Reversed)
        } else if str_eq(s, "both") {
            Some(LaneDirection::Both)
        } else {
            None
        }
    }
}

/// A lane section that touches another one, and the linkage (predecessor or
/// successor) under which its lanes name the lanes of the other.
#[derive(Debug, Clone, Copy, PartialEq, Eq, Structural)]
pub struct ContactingLaneSection {
    pub lane_section: usize,
    pub linkage_tag: LinkageTag,
}

/// The lane sections at which an incoming road and a connecting road of a
/// junction connection touch.
#[derive(Debug, Clone, Copy, PartialEq, Eq, Structural)]
pub struct ContactingLaneSections {
    pub incoming: usize,
    pub connection: usize,
}

} // verus!

//! Contact tags of the OGB and VFH prefabs.
use vstd::prelude::*;

use crate::text::str_eq;

verus! {

broadcast use vstd::string::group_string_axioms;

/// The kind of an OGB prefab.
#[derive(Debug, Clone, Copy, PartialEq, Eq, Structural)]
pub enum OGBType {
    Orf,
    Pen,
}

/// A contact tag that is not one of the known tags.
#[derive(Debug, Clone)]
pub struct ParseOGBContactsError(pub String);

impl ParseOGBContactsError {
    /// The message shown to the user: the unknown tag.
    pub fn message(&self) -> (res: String)
        ensures
            res@ == "unknown OGB contact tag: "@ + self.0@,
    {
        let mut s = String::from_str("unknown OGB contact tag: ");
        s.append(self.0.as_str());
        s
    }
}

/// The contacts of an OGB prefab.
#[derive(Debug, Clone, Copy, PartialEq, Eq, Structural)]
pub enum OGBContacts {
    TouchSelf,
    TouchSelfClose,
    TouchOthers,
    TouchOthersClose,
    PenSelf,
    PenSelfNewRoot,
    PenSelfNewTip,
    PenOthers,
    PenOthersClose,
    PenOthersNewRoot,
    PenOthersNewTip,
    FrotOthers,
}

/// The contact that a tag names.
pub open spec fn spec_contact_of(val: Seq<char>) -> Option<OGBContacts> {
    if val == "TouchSelf"@ {
        Some(OGBContacts::TouchSelf)
    } else if val == "TouchSelfClose"@ {
        Some(OGBContacts::TouchSelfClose)
    } else if val == "TouchOthers"@ {
        Some(OGBContacts::TouchOthers)
    } else if val == "TouchOthersClose"@ {
        Some(OGBContacts::TouchOthersClose)
    } else if val == "PenSelf"@ {
        Some(OGBContacts::PenSelf)
    } else if val == "PenSelfNewRoot"@ {
        Some(OGBContacts::PenSelfNewRoot)
    } else if val == "PenSelfNewTip"@ {
        Some(OGBContacts::PenSelfNewTip)
    } else if val == "PenOthers"@ {
        Some(OGBContacts::PenOthers)
    } else if val == "PenOthersClose"@ {
        Some(OGBContacts::PenOthersClose)
    } else if val == "PenOthersNewRoot"@ {
        Some(OGBContacts::PenOthersNewRoot)
    } else if val == "PenOthersNewTip"@ {
        Some(OGBContacts::PenOthersNewTip)
    } else if val == "FrotOthers"@ {
        Some(OGBContacts::FrotOthers)
    } else {
        None
    }
}

impl OGBContacts {
    /// Reads a contact tag. An unknown tag is an error that carries it.
    pub fn parse_tag(val: &str) -> (res: Result<OGBContacts, ParseOGBContactsError>)
        ensures
            match (res, spec_contact_of(val@)) {
                (Ok(c), Some(d)) => c == d,
                (Err(e), None) => e.0@ == val@,
                _ => false,
            },
    {
        if str_eq(val, "TouchSelf") {
            Ok(OGBContacts::TouchSelf)
        } else if str_eq(val, "TouchSelfClose") {
            Ok(OGBContacts::TouchSelfClose)
        } else if str_eq(val, "TouchOthers") {
            Ok(OGBContacts::TouchOthers)
        } else if str_eq(val, "TouchOthersClose") {
            Ok(OGBContacts::TouchOthersClose)
        } else if str_eq(val, "PenSelf") {
            Ok(OGBContacts::PenSelf)
        } else if str_eq(val, "PenSelfNewRoot") {
            Ok(OGBContacts::PenSelfNewRoot)
        } else if str_eq(val, "PenSelfNewTip") {
            Ok(OGBContacts::PenSelfNewTip)
        } else if str_eq(val, "PenOthers") {
            Ok(OGBContacts::PenOthers)
        } else if str_eq(val, "PenOthersClose") {
            Ok(OGBContacts::PenOthersClose)
        } else if str_eq(val, "PenOthersNewRoot") {
            Ok(OGBContacts::PenOthersNewRoot)
        } else if str_eq(val, "PenOthersNewTip") {
            Ok(OGBContacts::PenOthersNewTip)
        } else if str_eq(val, "FrotOthers") {
            Ok(OGBContacts::FrotOthers)
        } else {
            Err(ParseOGBContactsError(val.to_owned()))
        }
    }
}

impl core::str::FromStr for OGBContacts {
    type Err = ParseOGBContactsError;

    fn from_str(val: &str) -> (res: Result<Self, Self::Err>)
        ensures
            match (res, spec_contact_of(val@)) {
                (Ok(c), Some(d)) => c == d,
                (Err(e), None) => e.0@ == val@,
                _ => false,
            },
    {
        OGBContacts::parse_tag(val)
    }
}

} // verus!

//! Sections of the INFO command.
use vstd::prelude::*;
use vstd::string::StringExecFns;
use crate::fold::{is_word, names, uppercase, uppercase_of, utf8_text};

verus! {

#[derive(Clone, Copy, Debug, PartialEq, Eq, Structural)]
pub enum InfoSection {
    REPLICATION,
}

/// The section that a name selects, ignoring case.
pub open spec fn section_of(name: Seq<u8>) -> Option<InfoSection> {
    if names(name, "REPLICATION"@) {
        Some(InfoSection::REPLICATION)
    } else {
        None
    }
}

impl InfoSection {
    /// The section named by the bytes of `section`, or `None` for a section
    /// this server does not have.
    pub fn parse(section: &[u8]) -> (r: Option<InfoSection>)
        ensures
            r == section_of(section@),
    {
        match utf8_text(section) {
            None => None,
            Some(t) => {
                if is_word(&uppercase(t), "REPLICATION") {
                    Some(InfoSection::from_str(t))
                } else {
                    None
                }
            },
        }
    }

    /// The section named by `section`, which must be one this server has.
    pub fn from_str(section: &str) -> (r: InfoSection)
        requires
            uppercase_of(section@) == "REPLICATION"@,
        ensures
            r == InfoSection::REPLICATION,
    {
        InfoSection::REPLICATION
    }

    pub fn to_string(&self) -> (r: String)
        ensures
            r@ == "REPLICATION"@,
    {
        match self {
            InfoSection::REPLICATION => String::from_str("REPLICATION"),
        }
    }
}

} // verus!

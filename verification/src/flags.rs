//! The flag column of the summary table.

use vstd::prelude::*;
use vstd::std_specs::convert::FromSpecImpl;
use vstd::string::*;

use crate::text::same_text;

verus! {

/// What a summary row says its sequence number counts.
#[derive(Debug, Clone, Copy, PartialEq, Eq)]
pub enum RibbitFlags {
    Versions,
    CDNS,
    BGDL,
    Unknown,
}

/// The flag that a cell of the flag column stands for. Anything outside the
/// three known spellings is `Unknown`.
pub open spec fn flag_of(text: Seq<char>) -> RibbitFlags {
    if text == "versions"@ {
        RibbitFlags::Versions
    } else if text == "cdn"@ {
        RibbitFlags::CDNS
    } else if text == "bgdl"@ {
        RibbitFlags::BGDL
    } else {
        RibbitFlags::Unknown
    }
}

/// The name under which a flag is shown.
pub open spec fn flag_name(flag: RibbitFlags) -> Seq<char> {
    match flag {
        RibbitFlags::Versions => "Versions"@,
        RibbitFlags::CDNS => "CDNS"@,
        RibbitFlags::BGDL => "BGDL"@,
        RibbitFlags::Unknown => "Unknown"@,
    }
}

impl RibbitFlags {
    /// Reads a flag from the text of a cell.
    pub fn parse(text: &str) -> (flag: RibbitFlags)
        ensures
            flag == flag_of(text@),
    {
        if same_text(text, "versions") {
            RibbitFlags::Versions
        } else if same_text(text, "cdn") {
            RibbitFlags::CDNS
        } else if same_text(text, "bgdl") {
            RibbitFlags::BGDL
        } else {
            RibbitFlags::Unknown
        }
    }

    /// The name under which the flag is shown.
    pub fn name(&self) -> (name: String)
        ensures
            name@ == flag_name(*self),
    {
        match self {
            RibbitFlags::Versions => "Versions".to_owned(),
            RibbitFlags::CDNS => "CDNS".to_owned(),
            RibbitFlags::BGDL => "BGDL".to_owned(),
            RibbitFlags::Unknown => "Unknown".to_owned(),
        }
    }
}

impl Default for RibbitFlags {
    fn default() -> (flag: Self)
        ensures
            flag == RibbitFlags::Unknown,
    {
        RibbitFlags::Unknown
    }
}

impl From<String> for RibbitFlags {
    fn from(flag: String) -> (parsed: Self) {
        RibbitFlags::parse(flag.as_str())
    }
}

impl FromSpecImpl<String> for RibbitFlags {
    open spec fn obeys_from_spec() -> bool {
        true
    }

    open spec fn from_spec(flag: String) -> Self {
        flag_of(flag@)
    }
}

} // verus!

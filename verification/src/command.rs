//! Requests: which resource of which product is asked for, and the path
//! that stands for it on the wire.

use vstd::prelude::*;
use vstd::string::*;

use crate::text::{same_text, strip_prefix, strip_suffix, without_prefix, without_suffix};

verus! {

/// The region whose endpoint is contacted.
#[derive(Debug, Clone, Copy, PartialEq, Eq)]
pub enum Region {
    US,
}

/// The per-product tables that can be asked for.
#[derive(Debug, Clone, Copy, PartialEq, Eq)]
pub enum FileType {
    Version,
    BGDL,
    CDN,
}

/// One request: the summary of all products, or one table of one product,
/// named by its product code.
#[derive(Debug, Clone, PartialEq, Eq)]
pub enum RibbitCommand {
    Summary,
    Versions(String),
    Cdns(String),
    Bgdl(String),
}

/// What a `RibbitCommand` holds.
pub enum CommandView {
    Summary,
    Versions(Seq<char>),
    Cdns(Seq<char>),
    Bgdl(Seq<char>),
}

impl View for RibbitCommand {
    type V = CommandView;

    open spec fn view(&self) -> CommandView {
        match self {
            RibbitCommand::Summary => CommandView::Summary,
            RibbitCommand::Versions(code) => CommandView::Versions(code@),
            RibbitCommand::Cdns(code) => CommandView::Cdns(code@),
            RibbitCommand::Bgdl(code) => CommandView::Bgdl(code@),
        }
    }
}

/// The host name and port of a region's endpoint.
pub open spec fn endpoint_of(region: Region) -> Seq<char> {
    match region {
        Region::US => "us.version.battle.net:1119"@,
    }
}

/// The name of a per-product table in a path.
pub open spec fn resource_of(file: FileType) -> Seq<char> {
    match file {
        FileType::Version => "versions"@,
        FileType::BGDL => "bgdl"@,
        FileType::CDN => "cdns"@,
    }
}

/// The path that stands for a command.
pub open spec fn path_of(command: CommandView) -> Seq<char> {
    match command {
        CommandView::Summary => "v2/summary"@,
        CommandView::Versions(code) => "v2/products/"@ + code + "/versions"@,
        CommandView::Cdns(code) => "v2/products/"@ + code + "/cdns"@,
        CommandView::Bgdl(code) => "v2/products/"@ + code + "/bgdl"@,
    }
}

/// The path under which the first version of the protocol has a table of a
/// product.
pub open spec fn legacy_path_of(file: FileType, code: Seq<char>) -> Seq<char> {
    "v1/products/"@ + code + "/"@ + resource_of(file)
}

/// The line that asks for a path: the path and a line ending.
pub open spec fn request_of(path: Seq<char>) -> Seq<char> {
    path + "\r\n"@
}

/// What follows the products prefix of either protocol version in a path.
pub open spec fn product_part(path: Seq<char>) -> Option<Seq<char>> {
    match without_prefix(path, "v2/products/"@) {
        Some(rest) => Some(rest),
        None => without_prefix(path, "v1/products/"@),
    }
}

/// The command that a path stands for, under either protocol version, or
/// `None` where it stands for none.
pub open spec fn command_at(path: Seq<char>) -> Option<CommandView> {
    if path == "v2/summary"@ || path == "v1/summary"@ {
        Some(CommandView::Summary)
    } else {
        match product_part(path) {
            None => None,
            Some(rest) => match without_suffix(rest, "/versions"@) {
                Some(code) => Some(CommandView::Versions(code)),
                None => match without_suffix(rest, "/cdns"@) {
                    Some(code) => Some(CommandView::Cdns(code)),
                    None => match without_suffix(rest, "/bgdl"@) {
                        Some(code) => Some(CommandView::Bgdl(code)),
                        None => None,
                    },
                },
            },
        }
    }
}

/// What an optional command holds.
pub open spec fn optional_view(command: Option<RibbitCommand>) -> Option<CommandView> {
    match command {
        Some(command) => Some(command@),
        None => None,
    }
}

impl Region {
    /// The host name and port to connect to.
    pub fn endpoint(&self) -> (endpoint: String)
        ensures
            endpoint@ == endpoint_of(*self),
    {
        match self {
            Region::US => "us.version.battle.net:1119".to_owned(),
        }
    }
}

impl FileType {
    /// The name of the table in a path.
    pub fn resource(&self) -> (name: String)
        ensures
            name@ == resource_of(*self),
    {
        match self {
            FileType::Version => "versions".to_owned(),
            FileType::BGDL => "bgdl".to_owned(),
            FileType::CDN => "cdns".to_owned(),
        }
    }

    /// The command that asks for this table of the product `code`.
    pub fn command(&self, code: String) -> (command: RibbitCommand)
        ensures
            command@ == match *self {
                FileType::Version => CommandView::Versions(code@),
                FileType::BGDL => CommandView::Bgdl(code@),
                FileType::CDN => CommandView::Cdns(code@),
            },
    {
        match self {
            FileType::Version => RibbitCommand::Versions(code),
            FileType::BGDL => RibbitCommand::Bgdl(code),
            FileType::CDN => RibbitCommand::Cdns(code),
        }
    }

    /// The path of this table of the product `code` in the first version of
    /// the protocol.
    pub fn legacy_path(&self, code: &str) -> (path: String)
        ensures
            path@ == legacy_path_of(*self, code@),
    {
        let mut path = "v1/products/".to_owned();
        path.append(code);
        path.append("/");
        path.append(self.resource().as_str());
        path
    }
}

impl RibbitCommand {
    /// The path that stands for the command.
    pub fn path(&self) -> (path: String)
        ensures
            path@ == path_of(self@),
    {
        match self {
            RibbitCommand::Summary => "v2/summary".to_owned(),
            RibbitCommand::Versions(code) => {
                let mut path = "v2/products/".to_owned();
                path.append(code.as_str());
                path.append("/versions");
                path
            },
            RibbitCommand::Cdns(code) => {
                let mut path = "v2/products/".to_owned();
                path.append(code.as_str());
                path.append("/cdns");
                path
            },
            RibbitCommand::Bgdl(code) => {
                let mut path = "v2/products/".to_owned();
                path.append(code.as_str());
                path.append("/bgdl");
                path
            },
        }
    }

    /// The line to send for the command.
    pub fn request(&self) -> (line: String)
        ensures
            line@ == request_of(path_of(self@)),
    {
        request_line(self.path().as_str())
    }

    /// Reads a command back from a path of either protocol version.
    pub fn from_path(path: &str) -> (command: Option<RibbitCommand>)
        ensures
            optional_view(command) == command_at(path@),
    {
        if same_text(path, "v2/summary") || same_text(path, "v1/summary") {
            return Some(RibbitCommand::Summary);
        }
        let rest = match strip_prefix(path, "v2/products/") {
            Some(rest) => rest,
            None => match strip_prefix(path, "v1/products/") {
                Some(rest) => rest,
                None => {
                    return None;
                },
            },
        };
        match strip_suffix(rest.as_str(), "/versions") {
            Some(code) => {
                return Some(RibbitCommand::Versions(code));
            },
            None => {},
        }
        match strip_suffix(rest.as_str(), "/cdns") {
            Some(code) => {
                return Some(RibbitCommand::Cdns(code));
            },
            None => {},
        }
        match strip_suffix(rest.as_str(), "/bgdl") {
            Some(code) => Some(RibbitCommand::Bgdl(code)),
            None => None,
        }
    }
}

/// The line to send for a path: the path and a line ending.
pub fn request_line(path: &str) -> (line: String)
    ensures
        line@ == request_of(path@),
{
    let mut line = path.to_owned();
    line.append("\r\n");
    line
}

/// Round trip: the path of a command is read back as that command, with
/// the same resource and the same product code.
pub proof fn lemma_command_round_trip(command: CommandView)
    ensures
        command_at(path_of(command)) == Some(command),
{
    reveal_strlit("v2/summary");
    reveal_strlit("v1/summary");
    reveal_strlit("v2/products/");
    reveal_strlit("v1/products/");
    reveal_strlit("/versions");
    reveal_strlit("/cdns");
    reveal_strlit("/bgdl");
    let path = path_of(command);
    let lead = "v2/products/"@;
    match command {
        CommandView::Summary => {},
        CommandView::Versions(code) => {
            lemma_framed(lead, code, "/versions"@);
        },
        CommandView::Cdns(code) => {
            lemma_framed(lead, code, "/cdns"@);
            let rest = code + "/cdns"@;
            assert(rest[rest.len() - 5] == '/');
            if without_suffix(rest, "/versions"@) is Some {
                assert(rest.skip(rest.len() - 9)[4] == 's');
            }
        },
        CommandView::Bgdl(code) => {
            lemma_framed(lead, code, "/bgdl"@);
            let rest = code + "/bgdl"@;
            assert(rest[rest.len() - 1] == 'l');
            if without_suffix(rest, "/versions"@) is Some {
                assert(rest.skip(rest.len() - 9)[8] == 's');
            }
            if without_suffix(rest, "/cdns"@) is Some {
                assert(rest.skip(rest.len() - 5)[4] == 's');
            }
        },
    }
}

/// A text between a prefix and a suffix is found again by removing both.
pub proof fn lemma_framed(prefix: Seq<char>, middle: Seq<char>, suffix: Seq<char>)
    ensures
        without_prefix(prefix + middle + suffix, prefix) == Some(middle + suffix),
        without_suffix(middle + suffix, suffix) == Some(middle),
{
    let whole = prefix + middle + suffix;
    let rest = middle + suffix;
    assert(whole.take(prefix.len() as int) =~= prefix);
    assert(whole.skip(prefix.len() as int) =~= rest);
    assert(rest.skip(rest.len() - suffix.len()) =~= suffix);
    assert(rest.take(rest.len() - suffix.len()) =~= middle);
}

} // verus!

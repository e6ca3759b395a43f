//! Targets and the lines they are read from.
//!
//! A line names a host, or a host and the address to reach it at, separated
//! by one space. Whether the text after the space is an address is decided
//! by the caller, who hands in the address in its canonical form.

use crate::fqdn::{dotted, is_fqdn_text, split_dots, Fqdn, ParseFqdnError};
use vstd::prelude::*;

verus! {

/// What a line of input holds.
#[derive(Debug, Clone, Copy, PartialEq, Eq, Structural)]
pub enum LineFormat {
    /// A name alone.
    Name,
    /// A name, one space and an address.
    NameAndAddress,
}

/// What is probed: a name, or a name at a given address.
#[derive(Debug, Clone)]
pub enum Target {
    Name(Fqdn),
    Host { fqdn: Fqdn, address: String },
}

/// Why a line gives no target, or a target no probe.
#[derive(Debug, Clone, Copy, PartialEq, Eq, Structural)]
pub enum LineError {
    /// The line holds no space to split it at.
    InputSplit,
    /// The name is no fully qualified domain name.
    Fqdn,
    /// The text after the space is no address.
    IpAddr,
    /// The address makes no URL to ask.
    Url,
}

/// A target as plain values: the labels of its name and, where it has one,
/// the text of its address.
pub ghost struct TargetView {
    pub labels: Seq<Seq<char>>,
    pub address: Option<Seq<char>>,
}

impl View for Target {
    type V = TargetView;

    open spec fn view(&self) -> TargetView {
        match self {
            Target::Name(fqdn) => TargetView { labels: fqdn@, address: None },
            Target::Host { fqdn, address } => TargetView {
                labels: fqdn@,
                address: Some(address@),
            },
        }
    }
}

/// The position of the first space of `text`, or the length of `text` where
/// it holds none.
pub open spec fn first_space(text: Seq<char>) -> int
    decreases text.len(),
{
    if text.len() == 0 || text[0] == ' ' {
        0
    } else {
        1 + first_space(text.drop_first())
    }
}

/// The part of a line that names the host: all of it before the first space.
pub open spec fn name_part(line: Seq<char>) -> Seq<char> {
    line.subrange(0, first_space(line))
}

/// The part of a line after its first space, where it has one.
pub open spec fn address_part(line: Seq<char>) -> Option<Seq<char>> {
    if first_space(line) < line.len() {
        Some(line.subrange(first_space(line) + 1, line.len() as int))
    } else {
        None
    }
}

/// What a line gives. `address` is the canonical text of the address that
/// the line's address part holds, or `None` where that part holds none.
pub open spec fn read_line(
    format: LineFormat,
    strict: bool,
    line: Seq<char>,
    address: Option<Seq<char>>,
) -> Result<TargetView, LineError> {
    match format {
        LineFormat::Name => if is_fqdn_text(line, strict) {
            Ok(TargetView { labels: split_dots(line), address: None })
        } else {
            Err(LineError::Fqdn)
        },
        LineFormat::NameAndAddress => if address_part(line) is None {
            Err(LineError::InputSplit)
        } else if !is_fqdn_text(name_part(line), strict) {
            Err(LineError::Fqdn)
        } else if address is None {
            Err(LineError::IpAddr)
        } else {
            Ok(TargetView { labels: split_dots(name_part(line)), address })
        },
    }
}

/// A position before which there is no space, and which holds one or ends
/// the text, is the first space.
pub proof fn lemma_first_space_at(text: Seq<char>, at: int)
    requires
        0 <= at <= text.len(),
        at < text.len() ==> text[at] == ' ',
        forall|j: int| 0 <= j < at ==> #[trigger] text[j] != ' ',
    ensures
        first_space(text) == at,
    decreases text.len(),
{
    if at > 0 {
        let rest = text.drop_first();
        assert forall|j: int| 0 <= j < at - 1 implies #[trigger] rest[j] != ' ' by {
            assert(rest[j] == text[j + 1]);
        }
        lemma_first_space_at(rest, at - 1);
    }
}

/// The position of the first space of `line`, or its length in characters.
fn find_space(line: &str) -> (found: (usize, usize))
    ensures
        found.0 == first_space(line@),
        found.1 == line@.len(),
        found.0 <= found.1,
{
    broadcast use vstd::string::is_ascii_spec_bytes;

    let mut i: usize = 0;
    if line.is_ascii() {
        let bytes = line.as_bytes();
        let n = bytes.len();
        while i < n
            invariant
                0 <= i <= n,
                n == line@.len(),
                n == bytes@.len(),
                vstd::string::is_ascii(line),
                forall|j: int| 0 <= j < n ==> bytes@[j] == #[trigger] line@[j] as u8,
                forall|j: int| 0 <= j < i ==> #[trigger] line@[j] != ' ',
            ensures
                i < n ==> line@[i as int] == ' ',
            decreases n - i,
        {
            let b = bytes[i];
            assert(b == line@[i as int] as u8);
            assert('\0' <= line@[i as int] <= '\u{7f}');
            if b == 32 {
                break ;
            }
            i += 1;
        }
        proof {
            lemma_first_space_at(line@, i as int);
        }
        (i, n)
    } else {
        let n = line.unicode_len();
        while i < n
            invariant
                0 <= i <= n,
                n == line@.len(),
                forall|j: int| 0 <= j < i ==> #[trigger] line@[j] != ' ',
            ensures
                i < n ==> line@[i as int] == ' ',
            decreases n - i,
        {
            if line.get_char(i) == ' ' {
                break ;
            }
            i += 1;
        }
        proof {
            lemma_first_space_at(line@, i as int);
        }
        (i, n)
    }
}

/// The text of `line` after its first space: what is to be read as an
/// address.
pub fn address_text(line: &str) -> (part: Option<String>)
    ensures
        part.is_some() == address_part(line@).is_some(),
        part matches Some(text) ==> text@ == address_part(line@).unwrap(),
{
    let (at, n) = find_space(line);
    if at < n {
        Some(line.substring_char(at + 1, n).to_owned())
    } else {
        None
    }
}

/// The text of `line` before its first space: what is to be read as a name.
pub fn name_text(line: &str) -> (part: String)
    ensures
        part@ == name_part(line@),
{
    let (at, _) = find_space(line);
    line.substring_char(0, at).to_owned()
}

impl LineError {
    /// The message of the error.
    pub fn to_text(&self) -> (text: String)
        ensures
            text@ == match self {
                LineError::InputSplit => "Cannot split each line of the input exactly once with a whitespace"@,
                LineError::Fqdn => "expected a fully qualified domain name"@,
                LineError::IpAddr => "invalid IP address syntax"@,
                LineError::Url => "the address makes no URL"@,
            },
    {
        match self {
            LineError::InputSplit => "Cannot split each line of the input exactly once with a whitespace".to_owned(),
            LineError::Fqdn => ParseFqdnError.to_text(),
            LineError::IpAddr => "invalid IP address syntax".to_owned(),
            LineError::Url => "the address makes no URL".to_owned(),
        }
    }
}

impl Target {
    /// The name of the target.
    pub fn fqdn(&self) -> (fqdn: &Fqdn)
        ensures
            fqdn@ == self@.labels,
    {
        match self {
            Target::Name(fqdn) => fqdn,
            Target::Host { fqdn, .. } => fqdn,
        }
    }

    /// A target is well formed when its name is.
    pub open spec fn wf(&self) -> bool {
        crate::fqdn::are_fqdn_labels(self@.labels, false)
    }

    /// Reads one line of input. `address` is the canonical text of the
    /// address found in `address_text(line)`, or `None` where there is no
    /// such text or it holds no address; it is not looked at where the
    /// format has no address.
    pub fn read(format: LineFormat, strict: bool, line: &str, address: Option<String>) -> (out:
        Result<Target, LineError>)
        ensures
            out is Ok <==> read_line(format, strict, line@, option_text(address)) is Ok,
            out matches Ok(target) ==> Ok::<TargetView, LineError>(target@) == read_line(
                format,
                strict,
                line@,
                option_text(address),
            ) && target.wf(),
            out matches Err(e) ==> Err::<TargetView, LineError>(e) == read_line(
                format,
                strict,
                line@,
                option_text(address),
            ),
    {
        match format {
            LineFormat::Name => match Fqdn::parse(line, strict) {
                Ok(fqdn) => Ok(Target::Name(fqdn)),
                Err(_) => Err(LineError::Fqdn),
            },
            LineFormat::NameAndAddress => {
                let (at, n) = find_space(line);
                if at >= n {
                    return Err(LineError::InputSplit);
                }
                let name = line.substring_char(0, at);
                match Fqdn::parse(name, strict) {
                    Ok(fqdn) => match address {
                        Some(address) => Ok(Target::Host { fqdn, address }),
                        None => Err(LineError::IpAddr),
                    },
                    Err(_) => Err(LineError::Fqdn),
                }
            },
        }
    }
}

/// A host given by address or by name.
#[derive(Debug, Clone)]
pub enum IpAddrOrFqdn {
    /// The canonical text of an address.
    IpAddr(String),
    Fqdn(Fqdn),
}

/// The failure to read a text as an address or as a name.
#[derive(Debug, Clone, Copy, PartialEq, Eq, Structural)]
pub struct ParseIpAddrOrFqdnError(pub ParseFqdnError);

impl IpAddrOrFqdn {
    /// Reads `text` as a host. `address` is the canonical text of the
    /// address that `text` holds, or `None` where it holds none; an address
    /// is preferred to a name.
    pub fn from_parsed(text: &str, address: Option<String>) -> (out: Result<
        IpAddrOrFqdn,
        ParseIpAddrOrFqdnError,
    >)
        ensures
            out is Ok <==> address is Some || is_fqdn_text(text@, false),
            out matches Ok(IpAddrOrFqdn::IpAddr(found)) ==> address == Some(found),
            out matches Ok(IpAddrOrFqdn::Fqdn(name)) ==> address is None && name@ == split_dots(
                text@,
            ),
    {
        match address {
            Some(found) => Ok(IpAddrOrFqdn::IpAddr(found)),
            None => match Fqdn::from_str(text) {
                Ok(name) => Ok(IpAddrOrFqdn::Fqdn(name)),
                Err(e) => Err(ParseIpAddrOrFqdnError(e)),
            },
        }
    }

    /// The host as text.
    pub fn to_text(&self) -> (text: String)
        ensures
            text@ == match self {
                IpAddrOrFqdn::IpAddr(address) => address@,
                IpAddrOrFqdn::Fqdn(name) => dotted(name@),
            },
    {
        match self {
            IpAddrOrFqdn::IpAddr(address) => address.clone(),
            IpAddrOrFqdn::Fqdn(name) => name.to_text(),
        }
    }
}

impl ParseIpAddrOrFqdnError {
    /// The message of the error; `address_error` says why the text is no
    /// address.
    pub fn to_text(&self, address_error: &str) -> (text: String)
        ensures
            text@ == "expected either an IP address or a fully qualified domain name: "@
                + address_error@ + "; "@ + "expected a fully qualified domain name"@,
    {
        let mut text = "expected either an IP address or a fully qualified domain name: ".to_owned();
        text.append(address_error);
        text.append("; ");
        text.append(self.0.to_text().as_str());
        text
    }
}

/// The text of an optional string.
pub open spec fn option_text(text: Option<String>) -> Option<Seq<char>> {
    match text {
        Some(text) => Some(text@),
        None => None,
    }
}

/// A target that was read renders to the name part of its line.
pub proof fn lemma_read_target_renders_its_line(
    format: LineFormat,
    strict: bool,
    line: Seq<char>,
    address: Option<Seq<char>>,
)
    requires
        read_line(format, strict, line, address) is Ok,
    ensures
        dotted(read_line(format, strict, line, address)->Ok_0.labels) == match format {
            LineFormat::Name => line,
            LineFormat::NameAndAddress => name_part(line),
        },
{
    crate::fqdn::lemma_dotted_split(line);
    crate::fqdn::lemma_dotted_split(name_part(line));
}

} // verus!

use vstd::prelude::*;

use crate::paths::same_text;

verus! {

/// A command typed at the server's console.
#[derive(Clone, Copy, Debug, PartialEq, Eq, Structural)]
pub enum Command {
    /// Show the list of commands.
    Help,
    /// Stop the server.
    Quit,
    /// Rescan the content, rebuild the snapshot and publish the new manifest.
    Reload,
    /// Anything else.
    Unknown,
}

/// The command that a console line names.
pub open spec fn command_of(s: Seq<char>) -> Command {
    if s == "?"@ || s == "h"@ || s == "help"@ {
        Command::Help
    } else if s == "q"@ || s == "quit"@ || s == "exit"@ || s == "stop"@ {
        Command::Quit
    } else if s == "r"@ || s == "reload"@ {
        Command::Reload
    } else {
        Command::Unknown
    }
}

/// Reads a console line, without its line ending, as a command.
pub fn parse_command(line: &str) -> (r: Command)
    ensures
        r == command_of(line@),
{
    if same_text(line, "?") || same_text(line, "h") || same_text(line, "help") {
        Command::Help
    } else if same_text(line, "q") || same_text(line, "quit") || same_text(line, "exit") || same_text(
        line,
        "stop",
    ) {
        Command::Quit
    } else if same_text(line, "r") || same_text(line, "reload") {
        Command::Reload
    } else {
        Command::Unknown
    }
}

/// Where the address of a client that made a request was found.
#[derive(Clone, Copy, Debug, PartialEq, Eq, Structural)]
pub enum ClientInfoSource {
    /// The address of the connection.
    RemoteAddr,
    /// The `X-Real-IP` header.
    XRealIp,
    /// The first address of the `X-Forwarded-For` header that parses.
    XForwardedFor,
}

/// Where a client's address is taken from, given which of the three
/// sources hold one: a forwarding header before the real-IP header before
/// the connection.
pub fn client_source(forwarded: bool, real_ip: bool, remote: bool) -> (r: Option<ClientInfoSource>)
    ensures
        forwarded ==> r == Some(ClientInfoSource::XForwardedFor),
        !forwarded && real_ip ==> r == Some(ClientInfoSource::XRealIp),
        !forwarded && !real_ip && remote ==> r == Some(ClientInfoSource::RemoteAddr),
        !forwarded && !real_ip && !remote ==> r is None,
{
    if forwarded {
        Some(ClientInfoSource::XForwardedFor)
    } else if real_ip {
        Some(ClientInfoSource::XRealIp)
    } else if remote {
        Some(ClientInfoSource::RemoteAddr)
    } else {
        None
    }
}

/// A request header that did not parse.
#[derive(Debug)]
pub struct InvalidHeader {
    pub name: &'static str,
}

impl InvalidHeader {
    /// The message that reports the header, its name in quotes.
    pub fn message(&self) -> (r: String)
        ensures
            r@ == "Invalid request header \""@ + self.name@ + "\""@,
    {
        let mut r = String::from_str("Invalid request header \"");
        r.append(self.name);
        r.append("\"");
        r
    }
}

} // verus!

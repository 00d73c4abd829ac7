use vstd::prelude::*;
use vstd::string::*;

verus! {

/// A notification announcing an address observation. Both variants wrap the
/// dotted-decimal address text in a fixed human-readable template.
#[derive(Debug, PartialEq)]
pub enum Message {
    /// Announced once after a (re)start.
    Reboot(String),
    /// Announced on every fresh observation.
    Change(String),
}

/// The exact text of the announcement built from a message.
pub open spec fn message_text(m: &Message) -> Seq<char> {
    match m {
        Message::Reboot(ip_addr) => "System rebooted. Current IP address is: ```"@ + ip_addr@
            + "```"@,
        Message::Change(ip_addr) => "IP address changed. ```"@ + ip_addr@ + "```"@,
    }
}

impl Message {
    /// Renders the announcement; the template depends only on the variant,
    /// the address text is embedded verbatim.
    pub fn to_string(&self) -> (r: String)
        ensures
            r@ == message_text(self),
    {
        match self {
            Message::Reboot(ip_addr) => {
                let mut s = String::from_str("System rebooted. Current IP address is: ```");
                s.append(ip_addr.as_str());
                s.append("```");
                s
            },
            Message::Change(ip_addr) => {
                let mut s = String::from_str("IP address changed. ```");
                s.append(ip_addr.as_str());
                s.append("```");
                s
            },
        }
    }
}

} // verus!

//! Well-known TCP and UDP port numbers.

use vstd::prelude::*;
use crate::text::{decimal, push_decimal};

verus! {

/// A TCP or UDP port number.
#[derive(Debug, Clone, Copy, PartialEq, Eq, Structural)]
pub struct Port {
    pub port: u16,
}

/// The name of the service that usually listens on port `p`.
pub open spec fn port_name(p: u16) -> Seq<char> {
    if p == 20 {
        "FTP-Data"@
    } else if p == 21 {
        "FTP"@
    } else if p == 22 {
        "SSH"@
    } else if p == 23 {
        "Telnet"@
    } else if p == 25 {
        "SMTP"@
    } else if p == 53 {
        "DNS"@
    } else if p == 67 {
        "DHCP-Server"@
    } else if p == 68 {
        "DHCP-Client"@
    } else if p == 80 {
        "HTTP"@
    } else if p == 110 {
        "POP3"@
    } else if p == 143 {
        "IMAP"@
    } else if p == 443 {
        "HTTPS"@
    } else if p == 993 {
        "IMAPS"@
    } else if p == 995 {
        "POP3S"@
    } else if p == 3306 {
        "MySQL"@
    } else if p == 3389 {
        "RDP"@
    } else if p == 5432 {
        "PostgreSQL"@
    } else if p == 8080 {
        "HTTP-Alt"@
    } else {
        "Unknown"@
    }
}

/// The text shown for a port: its service name and its number.
pub open spec fn port_text(p: u16) -> Seq<char> {
    port_name(p) + " ("@ + decimal(p as nat) + ")"@
}

impl Port {
    pub fn new(port: u16) -> (res: Self)
        ensures
            res.port == port,
    {
        Self { port }
    }

    pub fn name(&self) -> (res: &'static str)
        ensures
            res@ == port_name(self.port),
    {
        match self.port {
            20 => "FTP-Data",
            21 => "FTP",
            22 => "SSH",
            23 => "Telnet",
            25 => "SMTP",
            53 => "DNS",
            67 => "DHCP-Server",
            68 => "DHCP-Client",
            80 => "HTTP",
            110 => "POP3",
            143 => "IMAP",
            443 => "HTTPS",
            993 => "IMAPS",
            995 => "POP3S",
            3306 => "MySQL",
            3389 => "RDP",
            5432 => "PostgreSQL",
            8080 => "HTTP-Alt",
            _ => "Unknown",
        }
    }

    /// The text shown for this port, such as `HTTP (80)`.
    pub fn to_string(&self) -> (res: String)
        ensures
            res@ == port_text(self.port),
    {
        let mut s = String::from_str(self.name());
        s.append(" (");
        push_decimal(&mut s, self.port as u32);
        s.append(")");
        s
    }
}

} // verus!

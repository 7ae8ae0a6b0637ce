//! The options that the packet sniffer program takes on its command line.

use vstd::prelude::*;
use crate::parser::DisplayPacketOptions;

verus! {

/// Command-line options: whether to dump payloads, which process to keep
/// packets of, and how many packets to capture.
pub struct Args {
    pub show_payload: bool,
    pub pid: Option<u32>,
    pub count: Option<u32>,
}

impl Args {
    /// What a listing shows under these options.
    pub fn display_options(&self) -> (res: DisplayPacketOptions)
        ensures
            res.show_payload == self.show_payload,
            res.filter_by_pid == self.pid,
    {
        DisplayPacketOptions { show_payload: self.show_payload, filter_by_pid: self.pid }
    }
}

} // verus!

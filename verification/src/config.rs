//! The settings of a streaming session.
use vstd::prelude::*;

verus! {

/// Serial line settings and where the commands come from.
pub struct Config {
    /// The baud rate of the serial line.
    pub baud: u32,
    /// How long a read on the serial line waits, in milliseconds.
    pub timeout: u64,
    /// The serial port; the first one found when absent.
    pub port: Option<String>,
    /// The file of commands; standard input when absent.
    pub input: Option<std::path::PathBuf>,
}

} // verus!

//! Control of the Linux cpufreq subsystem through its tree of text files.
//!
//! The file tree is reached through [`CpuFreq`], so that the controller can
//! run against the kernel's sysfs mount or against an in-memory fixture.
//! Every request the controller makes is recorded, with its outcome, in a
//! ghost event log; the contracts of the controller's operations state the
//! exact sequence of requests each one issues and how the outcomes decide
//! its result.
use vstd::prelude::*;

pub mod attr;
pub mod cpu;
pub mod error;
pub mod paths;
pub mod protocol;
pub mod range;
pub mod text;
pub mod tree;

pub use attr::Attribute;
pub use cpu::CPU;
pub use error::{CpuFreqError, ErrorKind};
pub use range::{parse_range, ParseError};
pub use tree::{CpuFreq, FsFault};

verus! {

} // verus!

//! Streaming find-and-replace over text files: the pure diff and patch engine,
//! the hunk reference format exchanged with fzf, the input-stage decisions and
//! the option rules, each with its contract.

pub mod argparse;
pub mod displace;
pub mod errors;
pub mod hunk_ref;
pub mod input;
pub mod udiff;

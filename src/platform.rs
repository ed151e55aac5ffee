//! Where the store lives by default.

use vstd::prelude::*;
use vstd::string::StringExecFns;

verus! {

/// The operating system family that decides the default data directory.
#[derive(Debug, Clone, Copy, PartialEq, Eq, Structural)]
pub enum OS {
    Windows,
    MacOS,
    Linux,
    Other,
}

/// The data directory on Windows.
pub const WINDOWS_DATA_PATH: &'static str = "C:\\Users\\Username\\AppData\\Local\\SafeRemove";

/// The data directory on macOS and Linux.
pub const UNIX_DATA_PATH: &'static str = "~/.cache/doughtnerd/safe_remove";

/// The message for an operating system without a data directory.
pub const UNSUPPORTED_OS: &'static str = "Unsupported OS";

/// The name of the store's directory inside the working directory.
pub const CACHE_DIR_NAME: &'static str = ".safe-remove-cache";

/// The platform's data directory for the store.
pub fn get_variable_data_path(os: OS) -> (r: Result<String, String>)
    ensures
        os == OS::Windows ==> r is Ok && r->Ok_0@ == WINDOWS_DATA_PATH@,
        os == OS::MacOS || os == OS::Linux ==> r is Ok && r->Ok_0@ == UNIX_DATA_PATH@,
        os == OS::Other ==> r is Err && r->Err_0@ == UNSUPPORTED_OS@,
{
    match os {
        OS::Windows => Ok(String::from_str(WINDOWS_DATA_PATH)),
        OS::MacOS => Ok(String::from_str(UNIX_DATA_PATH)),
        OS::Linux => Ok(String::from_str(UNIX_DATA_PATH)),
        OS::Other => Err(String::from_str(UNSUPPORTED_OS)),
    }
}

/// The store's default directory inside the working directory `current_dir`.
pub fn cache_dir_in(current_dir: &str) -> (r: String)
    ensures
        r@ == current_dir@ + seq!['/'] + CACHE_DIR_NAME@,
{
    let sep = "/";
    proof {
        reveal_strlit("/");
    }
    let dir = String::from_str(current_dir);
    dir.concat(sep).concat(CACHE_DIR_NAME)
}

} // verus!

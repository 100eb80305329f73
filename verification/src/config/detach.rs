//! Where the server writes its pid and redirected output when it detaches.

use vstd::prelude::*;

verus! {

/// File locations used when the server runs detached from its terminal.
#[derive(Debug, Clone)]
pub struct DetachConfig {
    pub working_dir: String,
    pub pid_file_path: String,
    pub out_file_path: String,
    pub err_file_path: String,
}

impl Default for DetachConfig {
    /// The stock locations under the system's temporary directory.
    fn default() -> (r: Self)
        ensures
            r.working_dir@ == "/tmp"@,
            r.pid_file_path@ == "/tmp/hrdr.pid"@,
            r.out_file_path@ == "/tmp/hrdr.out"@,
            r.err_file_path@ == "/tmp/hrdr.err"@,
    {
        DetachConfig {
            working_dir: "/tmp".to_owned(),
            pid_file_path: "/tmp/hrdr.pid".to_owned(),
            out_file_path: "/tmp/hrdr.out".to_owned(),
            err_file_path: "/tmp/hrdr.err".to_owned(),
        }
    }
}

} // verus!

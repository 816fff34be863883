use vstd::prelude::*;
use vstd::string::*;
use crate::text::{decimal_of, decimal_string};

verus! {

/// The namespace links of one process, as `readlink` shows them.
#[derive(Debug, Clone)]
pub struct NamespaceInfo {
    pub mnt_ns: String,
    pub net_ns: String,
}

/// Whether two processes see different mount or network namespaces.
pub fn namespaces_differ(proc_ns: &NamespaceInfo, self_ns: &NamespaceInfo) -> (r: bool)
    ensures
        r == (proc_ns.mnt_ns@ != self_ns.mnt_ns@ || proc_ns.net_ns@ != self_ns.net_ns@),
{
    !(proc_ns.mnt_ns == self_ns.mnt_ns) || !(proc_ns.net_ns == self_ns.net_ns)
}

/// The path under which process `pid` sees `relative_path` (which starts with `/`).
pub fn get_proc_root_path(pid: u32, relative_path: &str) -> (r: String)
    ensures
        r@ == "/proc/"@ + decimal_of(pid as nat) + "/root"@ + relative_path@,
{
    let digits = decimal_string(pid);
    String::from_str("/proc/").concat(digits.as_str()).concat("/root").concat(relative_path)
}

/// The path of a namespace link of process `pid`, such as `mnt` or `net`.
pub fn namespace_link_path(pid: u32, kind: &str) -> (r: String)
    ensures
        r@ == "/proc/"@ + decimal_of(pid as nat) + "/ns/"@ + kind@,
{
    let digits = decimal_string(pid);
    String::from_str("/proc/").concat(digits.as_str()).concat("/ns/").concat(kind)
}

} // verus!

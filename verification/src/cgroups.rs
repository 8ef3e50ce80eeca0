//! The cgroup (v2) files that hold a container's limits.
use crate::options::ContainerReady;
use crate::text::{decimal, push_decimal, push_signed_decimal, push_str, signed_decimal, string_from};
use vstd::prelude::*;

verus! {

/// The period (microseconds) that CPU quotas are given for.
pub const CPU_PERIOD: u64 = 100000;

/// A file of a container's cgroup directory and what is written to it.
#[derive(Debug, Clone, PartialEq)]
pub struct CgroupWrite {
    pub file: String,
    pub content: String,
}

/// The content of `memory.max` for a limit of `memory` bytes: the limit as
/// an unsigned 64-bit number (a negative limit wraps around).
pub open spec fn memory_max_text(memory: i64) -> Seq<char> {
    decimal((memory as u64) as nat)
}

/// The content of `cpu.max` for a quota: `"{quota}, 100000"`.
pub open spec fn cpu_max_text(quota: i64) -> Seq<char> {
    signed_decimal(quota as int) + ", "@ + decimal(CPU_PERIOD as nat)
}

/// The files written into a container's cgroup directory: `memory.max`
/// when there is a memory limit, then `cpu.max` when there is a CPU quota.
pub fn cgroup_limit_files(opts: &ContainerReady) -> (r: Vec<CgroupWrite>)
    ensures
        r@.len() == (if opts.memory_limit is Some { 1int } else { 0 }) + (if opts.quota is Some {
            1int
        } else {
            0
        }),
        opts.memory_limit matches Some(m) ==> r@[0].file@ == "memory.max"@ && r@[0].content@
            == memory_max_text(m),
        opts.quota matches Some(q) ==> r@.last().file@ == "cpu.max"@ && r@.last().content@
            == cpu_max_text(q),
{
    let mut out: Vec<CgroupWrite> = Vec::new();
    if let Some(memory) = opts.memory_limit {
        let bytes = memory as u64;
        let mut content = String::new();
        push_decimal(&mut content, bytes);
        assert(content@ =~= memory_max_text(memory));
        out.push(CgroupWrite { file: string_from("memory.max"), content });
    }
    if let Some(quota) = opts.quota {
        let mut content = String::new();
        push_signed_decimal(&mut content, quota);
        push_str(&mut content, ", ");
        push_decimal(&mut content, CPU_PERIOD);
        assert(content@ =~= cpu_max_text(quota));
        out.push(CgroupWrite { file: string_from("cpu.max"), content });
    }
    out
}

/// What is written to `cgroup.procs` to move process `pid` into the cgroup:
/// its decimal number; a pid that is not positive gives the error
/// `"[CGROUP] Invalid pid: {pid}"`.
pub fn cgroup_procs_entry(pid: i32) -> (r: Result<String, String>)
    ensures
        match r {
            Ok(s) => pid > 0 && s@ == signed_decimal(pid as int),
            Err(e) => pid <= 0 && e@ == "[CGROUP] Invalid pid: "@ + signed_decimal(pid as int),
        },
{
    if pid <= 0 {
        let mut e = string_from("[CGROUP] Invalid pid: ");
        push_signed_decimal(&mut e, pid as i64);
        return Err(e);
    }
    let mut s = String::new();
    push_signed_decimal(&mut s, pid as i64);
    assert(s@ =~= signed_decimal(pid as int));
    Ok(s)
}

} // verus!

//! Running a command inside a running container.
use crate::text::{push_signed_decimal, push_str, signed_decimal, string_from};
use vstd::prelude::*;

verus! {

/// How to run a command in a container.
#[derive(Debug)]
pub struct ExecOptions {
    pub interactive: bool,
    pub tty: bool,
    pub cmd: String,
    pub args: Option<Vec<String>>,
}

/// Whether the command gets a pseudo-terminal or plain pipes.
#[derive(Debug, Clone, Copy, PartialEq, Eq)]
pub enum ExecMode {
    Tty,
    Pipes,
}

/// The mode a command runs in: a pseudo-terminal when `tty` is asked for,
/// plain pipes otherwise.
pub fn exec_in_container(opts: &ExecOptions) -> (r: ExecMode)
    ensures
        r == if opts.tty {
            ExecMode::Tty
        } else {
            ExecMode::Pipes
        },
{
    if opts.tty {
        ExecMode::Tty
    } else {
        ExecMode::Pipes
    }
}

/// The argument vector of the command: the command, then its arguments.
pub fn exec_argv(opts: &ExecOptions) -> (r: Vec<String>)
    ensures
        r@.len() >= 1,
        r@[0]@ == opts.cmd@,
        r@.skip(1) == match opts.args {
            Some(a) => a@,
            None => Seq::<String>::empty(),
        },
{
    let mut argv: Vec<String> = Vec::new();
    argv.push(opts.cmd.clone());
    match &opts.args {
        None => {
            assert(argv@.skip(1) =~= Seq::<String>::empty());
        },
        Some(args) => {
            let mut i: usize = 0;
            while i < args.len()
                invariant
                    i <= args@.len(),
                    argv@.len() == i + 1,
                    argv@[0]@ == opts.cmd@,
                    argv@.skip(1) =~= args@.take(i as int),
                decreases args@.len() - i,
            {
                argv.push(args[i].clone());
                assert(argv@.skip(1) =~= args@.take(i + 1));
                i += 1;
            }
            assert(args@.take(args@.len() as int) =~= args@);
        },
    }
    argv
}

/// `/proc/{pid}/ns/{namespace}`: the namespace file of a process.
pub fn namespace_path(pid: i32, namespace: &str) -> (r: String)
    ensures
        r@ == "/proc/"@ + signed_decimal(pid as int) + "/ns/"@ + namespace@,
{
    let mut s = string_from("/proc/");
    push_signed_decimal(&mut s, pid as i64);
    push_str(&mut s, "/ns/");
    push_str(&mut s, namespace);
    s
}

} // verus!

//! Settings of a container about to run: its id, command line and limits.
use crate::text::{push_str, string_from};
use vstd::prelude::*;

verus! {

/// `rand::random::<[u8; 6]>()`: six bytes from the thread-local random
/// generator. Nothing is stated of their values.
#[verifier::external_body]
fn random_bytes() -> (r: Vec<u8>)
    ensures
        r@.len() == 6,
{
    rand::random::<[u8; 6]>().to_vec()
}

/// The lower-case hexadecimal digit for `d < 16`.
pub open spec fn hex_digit(d: nat) -> char {
    if d < 10 {
        crate::text::digit_char(d)
    } else if d == 10 {
        'a'
    } else if d == 11 {
        'b'
    } else if d == 12 {
        'c'
    } else if d == 13 {
        'd'
    } else if d == 14 {
        'e'
    } else {
        'f'
    }
}

/// Two lower-case hexadecimal digits per byte (`{:02x}`), in order.
pub open spec fn hex(bytes: Seq<u8>) -> Seq<char>
    decreases bytes.len(),
{
    if bytes.len() == 0 {
        Seq::empty()
    } else {
        hex(bytes.drop_last()) + seq![
            hex_digit(bytes.last() as nat / 16),
            hex_digit(bytes.last() as nat % 16),
        ]
    }
}

/// `c` is one of `0-9a-f`.
pub open spec fn is_lower_hex(c: char) -> bool {
    ('0' <= c && c <= '9') || ('a' <= c && c <= 'f')
}

fn hex_char(d: u8) -> (c: char)
    requires
        d < 16,
    ensures
        c == hex_digit(d as nat),
{
    if d == 0 { '0' }
    else if d == 1 { '1' }
    else if d == 2 { '2' }
    else if d == 3 { '3' }
    else if d == 4 { '4' }
    else if d == 5 { '5' }
    else if d == 6 { '6' }
    else if d == 7 { '7' }
    else if d == 8 { '8' }
    else if d == 9 { '9' }
    else if d == 10 { 'a' }
    else if d == 11 { 'b' }
    else if d == 12 { 'c' }
    else if d == 13 { 'd' }
    else if d == 14 { 'e' }
    else { 'f' }
}

/// The bytes as lower-case hexadecimal, two digits each.
pub fn hex_string(bytes: &Vec<u8>) -> (r: String)
    ensures
        r@ == hex(bytes@),
{
    let mut s = String::new();
    let mut i: usize = 0;
    assert(bytes@.take(0) =~= Seq::<u8>::empty());
    while i < bytes.len()
        invariant
            i <= bytes@.len(),
            s@ == hex(bytes@.take(i as int)),
        decreases bytes@.len() - i,
    {
        let b = bytes[i];
        crate::text::string_push(&mut s, hex_char(b / 16));
        crate::text::string_push(&mut s, hex_char(b % 16));
        proof {
            assert(bytes@.take(i + 1).drop_last() =~= bytes@.take(i as int));
            assert(hex(bytes@.take(i + 1)) =~= hex(bytes@.take(i as int)).push(
                hex_digit(b as nat / 16),
            ).push(hex_digit(b as nat % 16)));
        }
        i += 1;
    }
    assert(bytes@.take(bytes@.len() as int) =~= bytes@);
    s
}

proof fn lemma_hex_shape(bytes: Seq<u8>)
    ensures
        hex(bytes).len() == 2 * bytes.len(),
        forall|i: int| 0 <= i < hex(bytes).len() ==> is_lower_hex(#[trigger] hex(bytes)[i]),
    decreases bytes.len(),
{
    if bytes.len() > 0 {
        lemma_hex_shape(bytes.drop_last());
        let h = hex(bytes);
        let p = hex(bytes.drop_last());
        assert forall|i: int| 0 <= i < h.len() implies is_lower_hex(#[trigger] h[i]) by {
            if i < p.len() {
                assert(h[i] == p[i]);
            }
        }
    }
}

/// A new container id: six random bytes as twelve lower-case hexadecimal digits.
pub fn generate_container_id() -> (r: String)
    ensures
        r@.len() == 12,
        forall|i: int| 0 <= i < 12 ==> is_lower_hex(#[trigger] r@[i]),
        exists|bytes: Seq<u8>| bytes.len() == 6 && r@ == hex(bytes),
{
    let bytes = random_bytes();
    proof {
        lemma_hex_shape(bytes@);
    }
    hex_string(&bytes)
}

fn clone_strings(v: &[String]) -> (r: Vec<String>)
    ensures
        r@ == v@,
{
    let mut out: Vec<String> = Vec::new();
    let mut i: usize = 0;
    while i < v.len()
        invariant
            i <= v@.len(),
            out@ =~= v@.take(i as int),
        decreases v@.len() - i,
    {
        out.push(v[i].clone());
        i += 1;
    }
    assert(v@.take(v@.len() as int) =~= v@);
    out
}

/// The command line of a container: the one given, or the layout's when
/// none is given.
pub fn resolve_args(args: &[String], layout_args: &[String]) -> (r: Vec<String>)
    ensures
        r@ == if args@.len() == 0 {
            layout_args@
        } else {
            args@
        },
{
    if args.len() == 0 {
        clone_strings(layout_args)
    } else {
        clone_strings(args)
    }
}

/// The CPU quota (per 100000-microsecond period) of a container: the
/// given number of whole cores times 100000, else the layout's quota, else
/// 100000 (one core).
pub fn resolve_cpu_limit(cpu_cores: Option<i64>, layout_cpu_limit: Option<i64>) -> (r: i64)
    requires
        cpu_cores matches Some(c) ==> i64::MIN <= c * 100000 <= i64::MAX,
    ensures
        r == match cpu_cores {
            Some(c) => c * 100000,
            None => match layout_cpu_limit {
                Some(q) => q as int,
                None => 100000,
            },
        },
{
    match cpu_cores {
        Some(c) => c * 100000,
        None => match layout_cpu_limit {
            Some(q) => q,
            None => 100000,
        },
    }
}

/// The memory limit (bytes) of a container: the one given, else the
/// layout's, else 1 GiB.
pub fn resolve_memory_limit(memory_limit: Option<i64>, layout_memory_limit: Option<i64>) -> (r: i64)
    ensures
        r == match memory_limit {
            Some(m) => m as int,
            None => match layout_memory_limit {
                Some(l) => l as int,
                None => 1073741824,
            },
        },
{
    match memory_limit {
        Some(m) => m,
        None => match layout_memory_limit {
            Some(l) => l,
            None => 1073741824,
        },
    }
}

/// The command line given to `run`: the command, if any, then its
/// arguments, if any.
pub fn command_line(command: Option<String>, args: Option<Vec<String>>) -> (r: Vec<String>)
    ensures
        r@ == (match command {
            Some(c) => seq![c],
            None => Seq::<String>::empty(),
        }) + (match args {
            Some(a) => a@,
            None => Seq::<String>::empty(),
        }),
{
    let mut out: Vec<String> = Vec::new();
    if let Some(c) = command {
        out.push(c);
    }
    let ghost head = out@;
    if let Some(mut a) = args {
        out.append(&mut a);
    }
    assert(out@ =~= head + (match args {
        Some(a) => a@,
        None => Seq::<String>::empty(),
    }));
    out
}

/// The container's name: the one given, or its id.
pub fn container_name(name: Option<&str>, container_id: &str) -> (r: String)
    ensures
        r@ == match name {
            Some(n) => n@,
            None => container_id@,
        },
{
    match name {
        Some(n) => string_from(n),
        None => string_from(container_id),
    }
}

/// The program that runs inside each container and starts its command.
pub open spec fn init_path() -> Seq<char> {
    "/dev/.crabtainer_init"@
}

/// The argument vector the container's first process is started with: the
/// init program, then the command line. `None` when there is no command.
pub fn container_argv(args: &Vec<String>) -> (r: Option<Vec<String>>)
    ensures
        match r {
            Some(argv) => args@.len() > 0 && argv@.len() == args@.len() + 1 && argv@[0]@
                == init_path() && argv@.skip(1) == args@,
            None => args@.len() == 0,
        },
{
    if args.len() == 0 {
        return None;
    }
    let mut argv: Vec<String> = Vec::new();
    argv.push(string_from("/dev/.crabtainer_init"));
    let mut i: usize = 0;
    while i < args.len()
        invariant
            i <= args@.len(),
            argv@.len() == i + 1,
            argv@[0]@ == init_path(),
            argv@.skip(1) =~= args@.take(i as int),
        decreases args@.len() - i,
    {
        argv.push(args[i].clone());
        assert(argv@.skip(1) =~= args@.take(i + 1));
        i += 1;
    }
    assert(args@.take(args@.len() as int) =~= args@);
    Some(argv)
}

/// `lowerdir={lower},upperdir={upper},workdir={work}`: the overlayfs mount
/// options of a container's root.
pub fn overlay_options(lower: &str, upper: &str, work: &str) -> (r: String)
    ensures
        r@ == "lowerdir="@ + lower@ + ",upperdir="@ + upper@ + ",workdir="@ + work@,
{
    let mut s = string_from("lowerdir=");
    push_str(&mut s, lower);
    push_str(&mut s, ",upperdir=");
    push_str(&mut s, upper);
    push_str(&mut s, ",workdir=");
    push_str(&mut s, work);
    s
}

} // verus!

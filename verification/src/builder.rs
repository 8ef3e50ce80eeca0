//! Building a layout: the settings its Rustockerfile leaves behind, and how
//! a `COPY` instruction reads its source and destination.
use crate::buildfile::strings_view;
use crate::rustockerfile::{instructions_view, Instruction, InstructionView};
use crate::text::{chars_of, skip_char, span_contains, str_eq, string_of, trim_start_char};
use vstd::prelude::*;

verus! {

/// What a layout runs with, as its instructions set it: the command line of
/// its last `CMD` (none: empty), and the argument of its last `CPU_LIMIT` and
/// of its last `MEMORY_LIMIT`.
pub struct LayoutSettings {
    pub args: Vec<String>,
    pub cpu_limit: Option<String>,
    pub memory_limit: Option<String>,
}

pub struct SettingsView {
    pub args: Seq<Seq<char>>,
    pub cpu_limit: Option<Seq<char>>,
    pub memory_limit: Option<Seq<char>>,
}

pub open spec fn opt_view(o: Option<String>) -> Option<Seq<char>> {
    match o {
        Some(s) => Some(s@),
        None => None,
    }
}

impl View for LayoutSettings {
    type V = SettingsView;

    open spec fn view(&self) -> SettingsView {
        SettingsView {
            args: strings_view(self.args@),
            cpu_limit: opt_view(self.cpu_limit),
            memory_limit: opt_view(self.memory_limit),
        }
    }
}

/// The settings before any instruction.
pub open spec fn no_settings() -> SettingsView {
    SettingsView { args: Seq::empty(), cpu_limit: None, memory_limit: None }
}

/// The settings after one more instruction.
pub open spec fn apply_instruction(s: SettingsView, i: InstructionView) -> SettingsView {
    match i {
        InstructionView::Cmd { args } => SettingsView { args, ..s },
        InstructionView::CpuLimit(c) => SettingsView { cpu_limit: Some(c), ..s },
        InstructionView::MemoryLimit(m) => SettingsView { memory_limit: Some(m), ..s },
        _ => s,
    }
}

/// The settings that the instructions leave, applied in order.
pub open spec fn spec_layout_settings(instrs: Seq<InstructionView>) -> SettingsView
    decreases instrs.len(),
{
    if instrs.len() == 0 {
        no_settings()
    } else {
        apply_instruction(spec_layout_settings(instrs.drop_last()), instrs.last())
    }
}

fn copy_strings(v: &Vec<String>) -> (r: Vec<String>)
    ensures
        r@ == v@,
{
    let mut out: Vec<String> = Vec::new();
    let mut i: usize = 0;
    while i < v.len()
        invariant
            i <= v@.len(),
            out@ =~= v@.take(i as int),
        decreases v@.len() - i,
    {
        out.push(v[i].clone());
        i += 1;
    }
    assert(v@.take(v@.len() as int) =~= v@);
    out
}

/// The settings a layout is saved with, from the instructions of its
/// Rustockerfile: a later `CMD`, `CPU_LIMIT` or `MEMORY_LIMIT` replaces an
/// earlier one; the other instructions change nothing.
pub fn layout_settings(instructions: &Vec<Instruction>) -> (r: LayoutSettings)
    ensures
        r@ == spec_layout_settings(instructions_view(instructions@)),
{
    let mut out = LayoutSettings { args: Vec::new(), cpu_limit: None, memory_limit: None };
    let mut i: usize = 0;
    proof {
        assert(instructions_view(instructions@).take(0) =~= Seq::<InstructionView>::empty());
        assert(strings_view(out.args@) =~= Seq::<Seq<char>>::empty());
    }
    while i < instructions.len()
        invariant
            i <= instructions@.len(),
            out@ == spec_layout_settings(instructions_view(instructions@).take(i as int)),
        decreases instructions@.len() - i,
    {
        let ghost before = out@;
        match &instructions[i] {
            Instruction::Cmd { args } => {
                out.args = copy_strings(args);
            },
            Instruction::CpuLimit(c) => {
                out.cpu_limit = Some(c.clone());
            },
            Instruction::MemoryLimit(m) => {
                out.memory_limit = Some(m.clone());
            },
            _ => {},
        }
        proof {
            let all = instructions_view(instructions@);
            assert(all.take(i + 1).drop_last() =~= all.take(i as int));
            assert(all.take(i + 1).last() == instructions@[i as int]@);
            assert(out@ == apply_instruction(before, instructions@[i as int]@));
        }
        i += 1;
    }
    assert(instructions_view(instructions@).take(instructions@.len() as int) =~= instructions_view(
        instructions@,
    ));
    out
}

/// The command line of a layout is that of its last `CMD`: whatever comes
/// after it, unless another `CMD`, leaves it as it is.
pub proof fn law_last_cmd_decides(instrs: Seq<InstructionView>, k: int)
    requires
        0 <= k < instrs.len(),
        instrs[k] is Cmd,
        forall|j: int| k < j < instrs.len() ==> !(#[trigger] instrs[j] is Cmd),
    ensures
        spec_layout_settings(instrs).args == instrs[k]->Cmd_args,
    decreases instrs.len(),
{
    if k < instrs.len() - 1 {
        assert(instrs.drop_last()[k] == instrs[k]);
        assert forall|j: int| k < j < instrs.drop_last().len() implies !(
        #[trigger] instrs.drop_last()[j] is Cmd) by {
            assert(instrs.drop_last()[j] == instrs[j]);
        }
        law_last_cmd_decides(instrs.drop_last(), k);
        assert(!(instrs[instrs.len() - 1] is Cmd));
    }
}

/// The CPU limit of a layout is the argument of its last `CPU_LIMIT`.
pub proof fn law_last_cpu_limit_decides(instrs: Seq<InstructionView>, k: int)
    requires
        0 <= k < instrs.len(),
        instrs[k] is CpuLimit,
        forall|j: int| k < j < instrs.len() ==> !(#[trigger] instrs[j] is CpuLimit),
    ensures
        spec_layout_settings(instrs).cpu_limit == Some(instrs[k]->CpuLimit_0),
    decreases instrs.len(),
{
    if k < instrs.len() - 1 {
        assert(instrs.drop_last()[k] == instrs[k]);
        assert forall|j: int| k < j < instrs.drop_last().len() implies !(
        #[trigger] instrs.drop_last()[j] is CpuLimit) by {
            assert(instrs.drop_last()[j] == instrs[j]);
        }
        law_last_cpu_limit_decides(instrs.drop_last(), k);
        assert(!(instrs[instrs.len() - 1] is CpuLimit));
    }
}

/// The memory limit of a layout is the argument of its last `MEMORY_LIMIT`.
pub proof fn law_last_memory_limit_decides(instrs: Seq<InstructionView>, k: int)
    requires
        0 <= k < instrs.len(),
        instrs[k] is MemoryLimit,
        forall|j: int| k < j < instrs.len() ==> !(#[trigger] instrs[j] is MemoryLimit),
    ensures
        spec_layout_settings(instrs).memory_limit == Some(instrs[k]->MemoryLimit_0),
    decreases instrs.len(),
{
    if k < instrs.len() - 1 {
        assert(instrs.drop_last()[k] == instrs[k]);
        assert forall|j: int| k < j < instrs.drop_last().len() implies !(
        #[trigger] instrs.drop_last()[j] is MemoryLimit) by {
            assert(instrs.drop_last()[j] == instrs[j]);
        }
        law_last_memory_limit_decides(instrs.drop_last(), k);
        assert(!(instrs[instrs.len() - 1] is MemoryLimit));
    }
}

/// Instructions other than `CMD`, `CPU_LIMIT` and `MEMORY_LIMIT` leave the
/// settings as they are.
pub proof fn law_other_instructions_keep_settings(instrs: Seq<InstructionView>, i: InstructionView)
    requires
        !(i is Cmd),
        !(i is CpuLimit),
        !(i is MemoryLimit),
    ensures
        spec_layout_settings(instrs.push(i)) == spec_layout_settings(instrs),
{
    assert(instrs.push(i).drop_last() =~= instrs);
}

/// Where a `COPY` takes its files from.
#[derive(Debug, Clone, Copy, PartialEq, Eq)]
pub enum CopySource {
    /// `*`: the whole workspace, less what the ignore file leaves out.
    Workspace,
    /// A glob pattern (it holds `*`, `?` or `[`), to be expanded.
    Pattern,
    /// One file or directory.
    Path,
}

pub open spec fn spec_copy_source(src: Seq<char>) -> CopySource {
    if src == "*"@ {
        CopySource::Workspace
    } else if src.contains('*') || src.contains('?') || src.contains('[') {
        CopySource::Pattern
    } else {
        CopySource::Path
    }
}

/// How the source of a `COPY` is read.
pub fn copy_source(src: &str) -> (r: CopySource)
    ensures
        r == spec_copy_source(src@),
{
    if str_eq(src, "*") {
        return CopySource::Workspace;
    }
    let v = chars_of(src);
    let n = v.len();
    assert(v@.subrange(0, n as int) =~= v@);
    if span_contains(&v, 0, n, '*') || span_contains(&v, 0, n, '?') || span_contains(
        &v,
        0,
        n,
        '[',
    ) {
        CopySource::Pattern
    } else {
        CopySource::Path
    }
}

/// The destination of a `COPY` relative to the layout's root: `dst`
/// without its leading slashes.
pub fn relative_destination(dst: &str) -> (r: String)
    ensures
        r@ == trim_start_char(dst@, '/'),
{
    let v = chars_of(dst);
    let n = v.len();
    assert(v@.subrange(0, n as int) =~= v@);
    let a = skip_char(&v, 0, n, '/');
    string_of(&v, a, n)
}

/// `s` without the separators and `.` components at its front, as a
/// path's remaining components are read after their first one.
pub open spec fn trim_front_components(s: Seq<char>) -> Seq<char>
    decreases s.len(),
{
    if s.len() > 0 && s[0] == '/' {
        trim_front_components(s.drop_first())
    } else if s.len() > 0 && s[0] == '.' && (s.len() == 1 || s[1] == '/') {
        trim_front_components(s.drop_first())
    } else {
        s
    }
}

/// `s` without the separators and `.` components at its back.
pub open spec fn trim_back_components(s: Seq<char>) -> Seq<char>
    decreases s.len(),
{
    if s.len() > 0 && s.last() == '/' {
        trim_back_components(s.drop_last())
    } else if s.len() > 0 && s.last() == '.' && (s.len() == 1 || s[s.len() - 2] == '/') {
        trim_back_components(s.drop_last())
    } else {
        s
    }
}

/// Whether the first component of the path `p` is `.`.
pub open spec fn starts_with_cur_dir(p: Seq<char>) -> bool {
    p.len() > 0 && p[0] == '.' && (p.len() == 1 || p[1] == '/')
}

/// `Path::strip_prefix("./")` on `p`, or `p` itself when its first component
/// is not `.`: what follows that component, without separators and `.`
/// components at either end.
pub open spec fn spec_workspace_relative(p: Seq<char>) -> Seq<char> {
    if starts_with_cur_dir(p) {
        trim_back_components(trim_front_components(p.drop_first()))
    } else {
        p
    }
}

/// `p` relative to the workspace, as the ignore rules see it: its leading
/// `.` component taken off (`Path::strip_prefix("./")`), or `p` unchanged
/// when it has none.
pub fn workspace_relative(p: &str) -> (r: String)
    ensures
        r@ == spec_workspace_relative(p@),
{
    let v = chars_of(p);
    let n = v.len();
    if !(n >= 1 && v[0] == '.' && (n == 1 || v[1] == '/')) {
        assert(v@.subrange(0, n as int) =~= v@);
        return string_of(&v, 0, n);
    }
    let mut i: usize = 1;
    assert(v@.drop_first() =~= v@.subrange(1, n as int));
    while i < n && (v[i] == '/' || (v[i] == '.' && (i + 1 == n || v[i + 1] == '/')))
        invariant
            1 <= i <= n,
            n == v@.len(),
            trim_front_components(v@.drop_first()) == trim_front_components(
                v@.subrange(i as int, n as int),
            ),
        decreases n - i,
    {
        assert(v@.subrange(i as int, n as int).drop_first() =~= v@.subrange(i + 1, n as int));
        i += 1;
    }
    let ghost front = v@.subrange(i as int, n as int);
    assert(trim_front_components(front) == front);
    let mut j: usize = n;
    assert(front =~= v@.subrange(i as int, j as int));
    while j > i && (v[j - 1] == '/' || (v[j - 1] == '.' && (j - 1 == i || v[j - 2] == '/')))
        invariant
            1 <= i <= j <= n,
            n == v@.len(),
            trim_back_components(front) == trim_back_components(v@.subrange(i as int, j as int)),
        decreases j - i,
    {
        assert(v@.subrange(i as int, j as int).drop_last() =~= v@.subrange(i as int, j - 1));
        j -= 1;
    }
    string_of(&v, i, j)
}

} // verus!

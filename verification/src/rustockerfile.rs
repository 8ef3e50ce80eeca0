//! The Rustockerfile: the Rockerfile's instructions plus `CPU_LIMIT` and
//! `MEMORY_LIMIT`.
//!
//! Whether the argument of a limit line is a valid number is decided by a
//! floating-point parse, which this library does not hold. Parsing is
//! therefore done in two steps: [`Rustockerfile::limit_arguments`] lists the
//! arguments of the limit lines, the caller checks each of them as a number
//! ([`NumberCheck`]), and [`Rustockerfile::parse`] takes those verdicts and
//! does the rest.
use crate::buildfile::{blank_or_comment, kept_lines, classify, classify_line, line_msg, strings_view, LineItem, LineSpec};
use crate::text::{
    chars_of, line_spans, lines, push_str, case_lower, ascii_lower, is_ascii_text, string_from, string_of, to_lowercase,
    trim, trim_span,
};
use vstd::prelude::*;

verus! {

#[derive(Debug, Clone, PartialEq)]
pub enum Instruction {
    Download { url: String, alias: String },
    From(String),
    Copy { src: String, dst: String },
    Run(String),
    Cmd { args: Vec<String> },
    /// A `CPU_LIMIT` line; the text of its number, checked to be positive.
    CpuLimit(String),
    /// A `MEMORY_LIMIT` line; its argument as written.
    MemoryLimit(String),
}

pub enum InstructionView {
    Download { url: Seq<char>, alias: Seq<char> },
    From(Seq<char>),
    Copy { src: Seq<char>, dst: Seq<char> },
    Run(Seq<char>),
    Cmd { args: Seq<Seq<char>> },
    CpuLimit(Seq<char>),
    MemoryLimit(Seq<char>),
}

impl View for Instruction {
    type V = InstructionView;

    open spec fn view(&self) -> InstructionView {
        match self {
            Instruction::Download { url, alias } => InstructionView::Download {
                url: url@,
                alias: alias@,
            },
            Instruction::From(s) => InstructionView::From(s@),
            Instruction::Copy { src, dst } => InstructionView::Copy { src: src@, dst: dst@ },
            Instruction::Run(s) => InstructionView::Run(s@),
            Instruction::Cmd { args } => InstructionView::Cmd { args: strings_view(args@) },
            Instruction::CpuLimit(s) => InstructionView::CpuLimit(s@),
            Instruction::MemoryLimit(s) => InstructionView::MemoryLimit(s@),
        }
    }
}

#[derive(Debug)]
pub struct Rustockerfile {
    pub instructions: Vec<Instruction>,
}

impl Default for Rustockerfile {
    /// A build file without instructions.
    fn default() -> (r: Self)
        ensures
            r.instructions@.len() == 0,
    {
        Rustockerfile { instructions: Vec::new() }
    }
}

/// The verdict on the argument of a limit line, read as a floating-point number.
#[derive(Debug, Clone, Copy, PartialEq, Eq)]
pub enum NumberCheck {
    /// It is a number (for `CPU_LIMIT`: one greater than 0).
    Valid,
    /// It is not a number.
    NotANumber,
    /// It is a number, but not greater than 0.
    NotPositive,
}

#[derive(Debug, Clone, Copy, PartialEq, Eq)]
pub enum LimitKind {
    Cpu,
    Memory,
}

/// The argument of a limit line, to be checked as a number.
#[derive(Debug, Clone, PartialEq)]
pub struct LimitArgument {
    /// Index of the line (0 for the first).
    pub line: usize,
    pub kind: LimitKind,
    /// For `CPU_LIMIT` the argument itself; for `MEMORY_LIMIT` the whole
    /// argument (its number part is [`memory_limit_parts`]'s business).
    pub text: String,
}

pub open spec fn instructions_view(v: Seq<Instruction>) -> Seq<InstructionView> {
    v.map_values(|i: Instruction| i@)
}

/// The instruction a classified line stands for (for lines that hold one).
pub open spec fn instruction_of(l: LineSpec) -> InstructionView {
    match l {
        LineSpec::Download { url, alias } => InstructionView::Download { url, alias },
        LineSpec::From(s) => InstructionView::From(s),
        LineSpec::Copy { src, dst } => InstructionView::Copy { src, dst },
        LineSpec::Run(s) => InstructionView::Run(s),
        LineSpec::Cmd(a) => InstructionView::Cmd { args: a },
        LineSpec::CpuLimit(s) => InstructionView::CpuLimit(s),
        LineSpec::MemoryLimit(s) => InstructionView::MemoryLimit(s),
        _ => InstructionView::Run(Seq::empty()),
    }
}

/// `"Invalid MEMORY_LIMIT value: '{s}' (expected e.g. '512m', '2g', or a byte count)"`.
pub open spec fn memory_limit_error_text(s: Seq<char>) -> Seq<char> {
    "Invalid MEMORY_LIMIT value: '"@ + s + "' (expected e.g. '512m', '2g', or a byte count)"@
}

/// The `j`-th verdict (`Valid` past the end, which `Rustockerfile::parse`,
/// handed one verdict per limit argument, never reads).
pub open spec fn verdict(vs: Seq<NumberCheck>, j: nat) -> NumberCheck {
    if j < vs.len() {
        vs[j as int]
    } else {
        NumberCheck::Valid
    }
}

/// `done` followed by what `r` holds, or `r`'s error.
pub open spec fn after<T>(done: Seq<T>, r: Result<Seq<T>, Seq<char>>) -> Result<
    Seq<T>,
    Seq<char>,
> {
    match r {
        Ok(rest) => Ok(done + rest),
        Err(m) => Err(m),
    }
}

/// The arguments of the limit lines among lines `i..`, in order.
pub open spec fn limit_args(ls: Seq<Seq<char>>, i: nat) -> Seq<(nat, LimitKind, Seq<char>)>
    decreases ls.len() - i,
{
    if i >= ls.len() {
        Seq::empty()
    } else {
        match classify(i, ls[i as int], true) {
            LineSpec::CpuLimit(a) => seq![(i, LimitKind::Cpu, a)] + limit_args(ls, i + 1),
            LineSpec::MemoryLimit(a) => seq![(i, LimitKind::Memory, a)] + limit_args(ls, i + 1),
            _ => limit_args(ls, i + 1),
        }
    }
}

/// The instructions of lines `i..`, or the message of the first line among
/// them that is refused; `vs[j..]` are the verdicts on their limit arguments.
pub open spec fn parse_lines(ls: Seq<Seq<char>>, i: nat, vs: Seq<NumberCheck>, j: nat) -> Result<
    Seq<InstructionView>,
    Seq<char>,
>
    decreases ls.len() - i,
{
    if i >= ls.len() {
        Ok(Seq::empty())
    } else {
        let l = classify(i, ls[i as int], true);
        match l {
            LineSpec::Skip => parse_lines(ls, i + 1, vs, j),
            LineSpec::Fail(m) => Err(m),
            LineSpec::CpuLimit(a) => {
                if verdict(vs, j) == NumberCheck::NotANumber {
                    Err(line_msg(i, "CPU_LIMIT must be a number (e.g. CPU_LIMIT 1.5)"@))
                } else if verdict(vs, j) == NumberCheck::NotPositive {
                    Err(line_msg(i, "CPU_LIMIT must be greater than 0"@))
                } else {
                    after(seq![instruction_of(l)], parse_lines(ls, i + 1, vs, j + 1))
                }
            },
            LineSpec::MemoryLimit(a) => {
                if verdict(vs, j) == NumberCheck::Valid {
                    after(seq![instruction_of(l)], parse_lines(ls, i + 1, vs, j + 1))
                } else {
                    Err(line_msg(i, memory_limit_error_text(a)))
                }
            },
            _ => after(seq![instruction_of(l)], parse_lines(ls, i + 1, vs, j)),
        }
    }
}

/// What `Rustockerfile::parse` gives for `content`, with the verdicts `vs` on
/// its limit arguments.
pub open spec fn spec_parse(content: Seq<char>, vs: Seq<NumberCheck>) -> Result<
    Seq<InstructionView>,
    Seq<char>,
> {
    parse_lines(lines(content), 0, vs, 0)
}

/// What `Rustockerfile::limit_arguments` gives for `content`.
pub open spec fn spec_limit_arguments(content: Seq<char>) -> Seq<(nat, LimitKind, Seq<char>)> {
    limit_args(lines(content), 0)
}

impl LimitArgument {
    pub open spec fn view_triple(&self) -> (nat, LimitKind, Seq<char>) {
        (self.line as nat, self.kind, self.text@)
    }
}

/// Whether line `i` is a `CPU_LIMIT` or `MEMORY_LIMIT` line.
pub open spec fn is_limit_line(ls: Seq<Seq<char>>, i: int) -> bool {
    let l = classify(i as nat, ls[i], true);
    l is CpuLimit || l is MemoryLimit
}

/// How many of the lines before line `i` are limit lines: the index of
/// the verdict that line `i` gets, if it is one.
pub open spec fn limits_before(ls: Seq<Seq<char>>, i: int) -> nat
    decreases i,
{
    if i <= 0 {
        0
    } else if is_limit_line(ls, i - 1) {
        limits_before(ls, i - 1) + 1
    } else {
        limits_before(ls, i - 1)
    }
}

/// Why line `i` is refused, given the verdicts `vs`: the line itself, or
/// the verdict on its limit argument.
pub open spec fn refusal(ls: Seq<Seq<char>>, vs: Seq<NumberCheck>, i: int) -> Option<Seq<char>> {
    let l = classify(i as nat, ls[i], true);
    let v = verdict(vs, limits_before(ls, i));
    match l {
        LineSpec::Fail(m) => Some(m),
        LineSpec::CpuLimit(_) => if v == NumberCheck::NotANumber {
            Some(line_msg(i as nat, "CPU_LIMIT must be a number (e.g. CPU_LIMIT 1.5)"@))
        } else if v == NumberCheck::NotPositive {
            Some(line_msg(i as nat, "CPU_LIMIT must be greater than 0"@))
        } else {
            None
        },
        LineSpec::MemoryLimit(a) => if v == NumberCheck::Valid {
            None
        } else {
            Some(line_msg(i as nat, memory_limit_error_text(a)))
        },
        _ => None,
    }
}

proof fn lemma_refused_from(ls: Seq<Seq<char>>, vs: Seq<NumberCheck>, i: nat, k: int)
    requires
        i <= k < ls.len(),
        refusal(ls, vs, k) is Some,
        forall|j: int| i <= j < k ==> #[trigger] refusal(ls, vs, j) is None,
    ensures
        parse_lines(ls, i, vs, limits_before(ls, i as int)) == Err::<Seq<InstructionView>, _>(
            refusal(ls, vs, k)->0,
        ),
    decreases k - i,
{
    if i < k {
        assert(refusal(ls, vs, i as int) is None);
        lemma_refused_from(ls, vs, i + 1, k);
    }
}

proof fn lemma_accepted_from(ls: Seq<Seq<char>>, vs: Seq<NumberCheck>, i: nat)
    requires
        forall|j: int| i <= j < ls.len() ==> #[trigger] refusal(ls, vs, j) is None,
    ensures
        parse_lines(ls, i, vs, limits_before(ls, i as int)) is Ok,
    decreases ls.len() - i,
{
    if i < ls.len() {
        assert(refusal(ls, vs, i as int) is None);
        lemma_accepted_from(ls, vs, i + 1);
    }
}

/// A Rustockerfile none of whose lines is refused (by the line itself or
/// by the verdict on its limit argument) parses; otherwise it is refused
/// with the message of its first refused line.
pub proof fn law_first_refused_line_is_reported(content: Seq<char>, vs: Seq<NumberCheck>)
    ensures
        (forall|j: int| 0 <= j < lines(content).len() ==> #[trigger] refusal(lines(content), vs, j) is None)
            ==> spec_parse(content, vs) is Ok,
        forall|k: int|
            0 <= k < lines(content).len() && #[trigger] refusal(lines(content), vs, k) is Some && (
            forall|j: int| 0 <= j < k ==> #[trigger] refusal(lines(content), vs, j) is None)
                ==> spec_parse(content, vs) == Err::<Seq<InstructionView>, _>(
                refusal(lines(content), vs, k)->0,
            ),
{
    let ls = lines(content);
    if forall|j: int| 0 <= j < ls.len() ==> #[trigger] refusal(ls, vs, j) is None {
        lemma_accepted_from(ls, vs, 0);
    }
    assert forall|k: int|
        0 <= k < ls.len() && #[trigger] refusal(ls, vs, k) is Some && (forall|j: int|
            0 <= j < k ==> #[trigger] refusal(ls, vs, j) is None) implies spec_parse(content, vs)
        == Err::<Seq<InstructionView>, _>(refusal(ls, vs, k)->0) by {
        lemma_refused_from(ls, vs, 0, k);
    }
}

/// The entry of `Rustockerfile::limit_arguments` for limit line `i`.
pub open spec fn limit_entry(ls: Seq<Seq<char>>, i: int) -> (nat, LimitKind, Seq<char>) {
    match classify(i as nat, ls[i], true) {
        LineSpec::CpuLimit(a) => (i as nat, LimitKind::Cpu, a),
        LineSpec::MemoryLimit(a) => (i as nat, LimitKind::Memory, a),
        _ => (i as nat, LimitKind::Cpu, Seq::empty()),
    }
}

proof fn lemma_limit_args_index(ls: Seq<Seq<char>>, i0: nat)
    requires
        i0 <= ls.len(),
    ensures
        limit_args(ls, i0).len() + limits_before(ls, i0 as int) == limits_before(ls, ls.len() as int),
        forall|i: int|
            i0 <= i < ls.len() && #[trigger] is_limit_line(ls, i) ==> limit_args(ls, i0)[limits_before(
                ls,
                i,
            ) - limits_before(ls, i0 as int)] == limit_entry(ls, i),
    decreases ls.len() - i0,
{
    if i0 < ls.len() {
        lemma_limit_args_index(ls, i0 + 1);
        assert(limits_before(ls, i0 + 1int) == if is_limit_line(ls, i0 as int) {
            limits_before(ls, i0 as int) + 1
        } else {
            limits_before(ls, i0 as int) + 0
        });
        let rest = limit_args(ls, i0 + 1);
        if is_limit_line(ls, i0 as int) {
            assert(limit_args(ls, i0) == seq![limit_entry(ls, i0 as int)] + rest);
        } else {
            assert(limit_args(ls, i0) == rest);
        }
        assert forall|i: int|
            i0 <= i < ls.len() && #[trigger] is_limit_line(ls, i) implies limit_args(ls, i0)[limits_before(
            ls,
            i,
        ) - limits_before(ls, i0 as int)] == limit_entry(ls, i) by {
            if i > i0 {
                lemma_limits_before_mono(ls, i0 + 1int, i);
                lemma_limits_before_mono(ls, i + 1, ls.len() as int);
                assert(limits_before(ls, i + 1) == limits_before(ls, i) + 1);
                assert(0 <= limits_before(ls, i) - limits_before(ls, i0 + 1int) < rest.len());
            }
        }
    }
}

proof fn lemma_limits_before_mono(ls: Seq<Seq<char>>, a: int, b: int)
    requires
        0 <= a <= b,
    ensures
        limits_before(ls, a) <= limits_before(ls, b),
    decreases b - a,
{
    if a < b {
        lemma_limits_before_mono(ls, a, b - 1);
    }
}

/// The verdicts line up with the limit arguments: the verdict that limit
/// line `i` gets from `Rustockerfile::parse` (number `limits_before(i)`) is
/// the one on the argument that `Rustockerfile::limit_arguments` lists at
/// that place, and the list holds one argument per limit line.
pub proof fn law_verdicts_follow_limit_arguments(content: Seq<char>)
    ensures
        spec_limit_arguments(content).len() == limits_before(
            lines(content),
            lines(content).len() as int,
        ),
        forall|i: int|
            0 <= i < lines(content).len() && #[trigger] is_limit_line(lines(content), i)
                ==> spec_limit_arguments(content)[limits_before(lines(content), i) as int]
                == limit_entry(lines(content), i),
{
    lemma_limit_args_index(lines(content), 0);
}

/// The instructions of the lines of `ls` from line `i` on that are neither
/// blank nor comments, in order.
pub open spec fn kept_instructions(ls: Seq<Seq<char>>, i: nat) -> Seq<InstructionView>
    decreases ls.len() - i,
{
    if i >= ls.len() {
        Seq::empty()
    } else if blank_or_comment(ls[i as int]) {
        kept_instructions(ls, i + 1)
    } else {
        seq![instruction_of(classify(i, ls[i as int], true))] + kept_instructions(ls, i + 1)
    }
}

proof fn lemma_ok_is_kept(ls: Seq<Seq<char>>, vs: Seq<NumberCheck>, j: nat, i: nat)
    ensures
        parse_lines(ls, i, vs, j) matches Ok(r) ==> r == kept_instructions(ls, i),
    decreases ls.len() - i,
{
    if i < ls.len() {
        lemma_ok_is_kept(ls, vs, j, (i + 1) as nat);
        lemma_ok_is_kept(ls, vs, (j + 1) as nat, (i + 1) as nat);
    }
}

proof fn lemma_kept_index(ls: Seq<Seq<char>>, i: nat)
    ensures
        kept_instructions(ls, i).len() == kept_lines(ls, i).len(),
        forall|k: int|
            0 <= k < kept_lines(ls, i).len() ==> #[trigger] kept_instructions(ls, i)[k]
                == instruction_of(classify(kept_lines(ls, i)[k], ls[kept_lines(ls, i)[k] as int], true)),
    decreases ls.len() - i,
{
    if i < ls.len() {
        lemma_kept_index(ls, i + 1);
        if !blank_or_comment(ls[i as int]) {
            assert forall|k: int| 0 <= k < kept_lines(ls, i).len() implies #[trigger] kept_instructions(
                ls,
                i,
            )[k] == instruction_of(classify(kept_lines(ls, i)[k], ls[kept_lines(ls, i)[k] as int], true)) by {
                if k > 0 {
                    assert(kept_instructions(ls, i)[k] == kept_instructions(ls, i + 1)[k - 1]);
                    assert(kept_lines(ls, i)[k] == kept_lines(ls, i + 1)[k - 1]);
                }
            }
        }
    }
}

/// A parse that succeeds gives one instruction per line that is neither
/// blank nor a comment, in the order of the lines: the `k`-th instruction
/// is what the `k`-th such line says.
pub proof fn law_one_instruction_per_kept_line(content: Seq<char>, vs: Seq<NumberCheck>)
    ensures
        spec_parse(content, vs) matches Ok(r) ==> {
            &&& r == kept_instructions(lines(content), 0)
            &&& r.len() == kept_lines(lines(content), 0).len()
            &&& forall|k: int|
                0 <= k < r.len() ==> #[trigger] r[k] == instruction_of(
                    classify(
                        kept_lines(lines(content), 0)[k],
                        lines(content)[kept_lines(lines(content), 0)[k] as int],
                        true,
                    ),
                )
        },
{
    let ls = lines(content);
    lemma_ok_is_kept(ls, vs, 0, 0);
    lemma_kept_index(ls, 0);
}

impl Rustockerfile {
    /// The arguments of the `CPU_LIMIT` and `MEMORY_LIMIT` lines of
    /// `content`, in order, each to be checked as a number.
    pub fn limit_arguments(content: &str) -> (r: Vec<LimitArgument>)
        ensures
            r@.len() == spec_limit_arguments(content@).len(),
            forall|k: int|
                0 <= k < r@.len() ==> (#[trigger] r@[k]).view_triple()
                    == spec_limit_arguments(content@)[k],
    {
        let v = chars_of(content);
        let spans = line_spans(&v);
        let ghost ls = lines(v@);
        let mut out: Vec<LimitArgument> = Vec::new();
        let ghost done: Seq<(nat, LimitKind, Seq<char>)> = Seq::empty();
        let mut i: usize = 0;
        while i < spans.len()
            invariant
                v@ == content@,
                ls == lines(v@),
                spans@.len() == ls.len(),
                forall|k: int|
                    0 <= k < spans@.len() ==> {
                        &&& (#[trigger] spans@[k]).0 <= spans@[k].1 <= v@.len()
                        &&& v@.subrange(spans@[k].0 as int, spans@[k].1 as int) == ls[k]
                    },
                i <= spans@.len(),
                out@.len() == done.len(),
                forall|k: int| 0 <= k < out@.len() ==> (#[trigger] out@[k]).view_triple() == done[k],
                done + limit_args(ls, i as nat) == spec_limit_arguments(content@),
            decreases spans@.len() - i,
        {
            let (a, b) = spans[i];
            let item = classify_line(&v, a, b, i, true);
            match item {
                LineItem::CpuLimit(t) => {
                    out.push(LimitArgument { line: i, kind: LimitKind::Cpu, text: t });
                    proof {
                        assert(done + limit_args(ls, i as nat) =~= done.push(out@.last().view_triple())
                            + limit_args(ls, (i + 1) as nat));
                        done = done.push(out@.last().view_triple());
                    }
                },
                LineItem::MemoryLimit(t) => {
                    out.push(LimitArgument { line: i, kind: LimitKind::Memory, text: t });
                    proof {
                        assert(done + limit_args(ls, i as nat) =~= done.push(out@.last().view_triple())
                            + limit_args(ls, (i + 1) as nat));
                        done = done.push(out@.last().view_triple());
                    }
                },
                _ => {},
            }
            i += 1;
        }
        proof {
            assert(done + Seq::<(nat, LimitKind, Seq<char>)>::empty() =~= done);
        }
        out
    }

    /// Parses a Rustockerfile. `verdicts[k]` is the verdict on the `k`-th
    /// of [`Rustockerfile::limit_arguments`]. Blank lines and lines starting
    /// with `#` are skipped; keywords are matched case-insensitively; the
    /// first refused line gives the error `"Line N: ..."`.
    #[verifier::rlimit(60)]
    pub fn parse(content: &str, verdicts: &Vec<NumberCheck>) -> (r: Result<Rustockerfile, String>)
        requires
            verdicts@.len() == spec_limit_arguments(content@).len(),
        ensures
            match r {
                Ok(f) => spec_parse(content@, verdicts@) == Ok::<_, Seq<char>>(
                    instructions_view(f.instructions@),
                ),
                Err(e) => spec_parse(content@, verdicts@) == Err::<Seq<InstructionView>, _>(e@),
            },
    {
        let v = chars_of(content);
        let spans = line_spans(&v);
        let ghost ls = lines(v@);
        let mut out: Vec<Instruction> = Vec::new();
        let mut i: usize = 0;
        let mut j: usize = 0;
        assert(instructions_view(out@) =~= Seq::<InstructionView>::empty());
        while i < spans.len()
            invariant
                v@ == content@,
                ls == lines(v@),
                spans@.len() == ls.len(),
                forall|k: int|
                    0 <= k < spans@.len() ==> {
                        &&& (#[trigger] spans@[k]).0 <= spans@[k].1 <= v@.len()
                        &&& v@.subrange(spans@[k].0 as int, spans@[k].1 as int) == ls[k]
                    },
                i <= spans@.len(),
                j <= i,
                spec_parse(content@, verdicts@) == after(
                    instructions_view(out@),
                    parse_lines(ls, i as nat, verdicts@, j as nat),
                ),
            decreases spans@.len() - i,
        {
            let (a, b) = spans[i];
            let item = classify_line(&v, a, b, i, true);
            let ghost l = classify(i as nat, ls[i as int], true);
            let ghost before = instructions_view(out@);
            let check = if j < verdicts.len() {
                verdicts[j]
            } else {
                NumberCheck::Valid
            };
            let mut used_verdict = false;
            match item {
                LineItem::Skip => {},
                LineItem::Fail(m) => {
                    return Err(m);
                },
                LineItem::Download { url, alias } => {
                    out.push(Instruction::Download { url, alias });
                },
                LineItem::From(s) => {
                    out.push(Instruction::From(s));
                },
                LineItem::Copy { src, dst } => {
                    out.push(Instruction::Copy { src, dst });
                },
                LineItem::Run(s) => {
                    out.push(Instruction::Run(s));
                },
                LineItem::Cmd(w) => {
                    out.push(Instruction::Cmd { args: w });
                },
                LineItem::CpuLimit(s) => {
                    match check {
                        NumberCheck::NotANumber => {
                            return Err(
                                crate::buildfile::line_message(
                                    i,
                                    "CPU_LIMIT must be a number (e.g. CPU_LIMIT 1.5)",
                                ),
                            );
                        },
                        NumberCheck::NotPositive => {
                            return Err(
                                crate::buildfile::line_message(i, "CPU_LIMIT must be greater than 0"),
                            );
                        },
                        NumberCheck::Valid => {},
                    }
                    out.push(Instruction::CpuLimit(s));
                    used_verdict = true;
                },
                LineItem::MemoryLimit(s) => {
                    match check {
                        NumberCheck::Valid => {},
                        _ => {
                            let text = memory_limit_error(s.as_str());
                            return Err(crate::buildfile::line_message(i, text.as_str()));
                        },
                    }
                    out.push(Instruction::MemoryLimit(s));
                    used_verdict = true;
                },
            }
            proof {
                let jn: nat = if used_verdict {
                    (j + 1) as nat
                } else {
                    j as nat
                };
                let rest = parse_lines(ls, (i + 1) as nat, verdicts@, jn);
                if !(l is Skip) {
                    assert(instructions_view(out@) =~= before.push(instruction_of(l)));
                    match rest {
                        Ok(r) => {
                            assert(before + (seq![instruction_of(l)] + r) =~= instructions_view(
                                out@,
                            ) + r);
                        },
                        Err(_) => {},
                    }
                }
            }
            if used_verdict {
                j += 1;
            }
            i += 1;
        }
        proof {
            assert(instructions_view(out@) + Seq::<InstructionView>::empty() =~= instructions_view(
                out@,
            ));
        }
        Ok(Rustockerfile { instructions: out })
    }
}

/// `"Invalid MEMORY_LIMIT value: '{s}' (expected e.g. '512m', '2g', or a byte count)"`:
/// the message for a `MEMORY_LIMIT` argument that is not a size.
pub fn memory_limit_error(s: &str) -> (r: String)
    ensures
        r@ == memory_limit_error_text(s@),
{
    let mut r = string_from("Invalid MEMORY_LIMIT value: '");
    push_str(&mut r, s);
    push_str(&mut r, "' (expected e.g. '512m', '2g', or a byte count)");
    r
}

/// How a memory size is written: the number part and the factor its unit
/// stands for (`g`, `m`, `k`, `b` or none).
pub struct MemoryLimitParts {
    pub number: String,
    pub multiplier: u64,
}

/// The number part and unit factor of a lower-cased memory size `lower`:
/// one unit letter `g` (2^30), `m` (2^20), `k` (2^10) or `b` (1) taken off
/// its end (no letter: factor 1), and the rest trimmed.
pub open spec fn spec_split_unit(lower: Seq<char>) -> (Seq<char>, nat) {
    if lower.len() > 0 && lower.last() == 'g' {
        (trim(lower.drop_last()), 1073741824)
    } else if lower.len() > 0 && lower.last() == 'm' {
        (trim(lower.drop_last()), 1048576)
    } else if lower.len() > 0 && lower.last() == 'k' {
        (trim(lower.drop_last()), 1024)
    } else if lower.len() > 0 && lower.last() == 'b' {
        (trim(lower.drop_last()), 1)
    } else {
        (trim(lower), 1)
    }
}

/// The number part and unit factor of a memory size `s`, as
/// `parse_memory_limit` splits it: `s` trimmed and lower-cased, then split
/// by [`spec_split_unit`].
pub open spec fn spec_memory_limit_parts(s: Seq<char>) -> (Seq<char>, nat) {
    spec_split_unit(case_lower(trim(s)))
}

/// Size units are read in any case: two ASCII memory sizes that differ only
/// in the case of their letters (such as `512M` and `512m`) split into the
/// same number part and unit factor, the one that their lower-case spelling
/// gives.
pub proof fn law_unit_case_is_ignored(a: Seq<char>, b: Seq<char>)
    requires
        is_ascii_text(trim(a)),
        is_ascii_text(trim(b)),
        ascii_lower(trim(a)) == ascii_lower(trim(b)),
    ensures
        spec_memory_limit_parts(a) == spec_memory_limit_parts(b),
        spec_memory_limit_parts(a) == spec_split_unit(ascii_lower(trim(a))),
{
}

/// Splits a lower-cased memory size such as `"512m"` into its number part
/// and unit factor.
pub fn split_unit(lower: &str) -> (r: MemoryLimitParts)
    ensures
        (r.number@, r.multiplier as nat) == spec_split_unit(lower@),
{
    let l = chars_of(lower);
    let n = l.len();
    let mut end = n;
    let mut multiplier: u64 = 1;
    if n > 0 {
        let last = l[n - 1];
        if last == 'g' {
            end = n - 1;
            multiplier = 1073741824;
        } else if last == 'm' {
            end = n - 1;
            multiplier = 1048576;
        } else if last == 'k' {
            end = n - 1;
            multiplier = 1024;
        } else if last == 'b' {
            end = n - 1;
        }
    }
    let (c, d) = trim_span(&l, 0, end);
    proof {
        assert(l@.drop_last() =~= l@.subrange(0, n - 1));
        assert(l@ =~= l@.subrange(0, n as int));
    }
    MemoryLimitParts { number: string_of(&l, c, d), multiplier }
}

/// Splits a memory size such as `"512m"` into its number part and unit factor.
pub fn memory_limit_parts(s: &str) -> (r: MemoryLimitParts)
    ensures
        (r.number@, r.multiplier as nat) == spec_memory_limit_parts(s@),
{
    let v = chars_of(s);
    let (a, b) = trim_span(&v, 0, v.len());
    assert(v@.subrange(0, v@.len() as int) =~= v@);
    let trimmed = string_of(&v, a, b);
    let lower = to_lowercase(trimmed.as_str());
    split_unit(lower.as_str())
}

} // verus!

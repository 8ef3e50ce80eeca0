//! The Rockerfile: a build file of `DOWNLOAD`, `FROM`, `COPY`, `RUN` and `CMD`
//! lines, one instruction per line.
use crate::buildfile::{
    args_of, blank_or_comment, classify, classify_line, keyword_of, keyword_spec, kept_lines, line_msg,
    second_word_upper, strings_view, LineItem, LineSpec,
};
use crate::rustockerfile;
use crate::text::{case_upper, trim};
use crate::text::{chars_of, line_spans, lines};
use vstd::prelude::*;

verus! {

#[derive(Debug, Clone, PartialEq)]
pub enum Instruction {
    Download { url: String, alias: String },
    From(String),
    Copy { src: String, dst: String },
    Run(String),
    Cmd(Vec<String>),
}

pub enum InstructionView {
    Download { url: Seq<char>, alias: Seq<char> },
    From(Seq<char>),
    Copy { src: Seq<char>, dst: Seq<char> },
    Run(Seq<char>),
    Cmd(Seq<Seq<char>>),
}

impl View for Instruction {
    type V = InstructionView;

    open spec fn view(&self) -> InstructionView {
        match self {
            Instruction::Download { url, alias } => InstructionView::Download {
                url: url@,
                alias: alias@,
            },
            Instruction::From(s) => InstructionView::From(s@),
            Instruction::Copy { src, dst } => InstructionView::Copy { src: src@, dst: dst@ },
            Instruction::Run(s) => InstructionView::Run(s@),
            Instruction::Cmd(a) => InstructionView::Cmd(strings_view(a@)),
        }
    }
}

#[derive(Debug)]
pub struct Rockerfile {
    pub instructions: Vec<Instruction>,
}

impl Default for Rockerfile {
    /// A build file without instructions.
    fn default() -> (r: Self)
        ensures
            r.instructions@.len() == 0,
    {
        Rockerfile { instructions: Vec::new() }
    }
}

pub open spec fn instructions_view(v: Seq<Instruction>) -> Seq<InstructionView> {
    v.map_values(|i: Instruction| i@)
}

/// The instruction a classified line stands for (for lines that hold one).
pub open spec fn instruction_of(l: LineSpec) -> InstructionView {
    match l {
        LineSpec::Download { url, alias } => InstructionView::Download { url, alias },
        LineSpec::From(s) => InstructionView::From(s),
        LineSpec::Copy { src, dst } => InstructionView::Copy { src, dst },
        LineSpec::Run(s) => InstructionView::Run(s),
        LineSpec::Cmd(a) => InstructionView::Cmd(a),
        _ => InstructionView::Run(Seq::empty()),
    }
}

/// The instructions of lines `i..` of a Rockerfile, or the message of the
/// first line among them that is refused.
pub open spec fn parse_lines(ls: Seq<Seq<char>>, i: nat) -> Result<
    Seq<InstructionView>,
    Seq<char>,
>
    decreases ls.len() - i,
{
    if i >= ls.len() {
        Ok(Seq::empty())
    } else {
        let l = classify(i, ls[i as int], false);
        match l {
            LineSpec::Skip => parse_lines(ls, i + 1),
            LineSpec::Fail(m) => Err(m),
            _ => match parse_lines(ls, i + 1) {
                Ok(rest) => Ok(seq![instruction_of(l)] + rest),
                Err(m) => Err(m),
            },
        }
    }
}

/// What `Rockerfile::parse` gives for `content`.
pub open spec fn spec_parse(content: Seq<char>) -> Result<Seq<InstructionView>, Seq<char>> {
    parse_lines(lines(content), 0)
}

/// `done` followed by what `r` holds, or `r`'s error.
pub open spec fn after<T>(done: Seq<T>, r: Result<Seq<T>, Seq<char>>) -> Result<
    Seq<T>,
    Seq<char>,
> {
    match r {
        Ok(rest) => Ok(done + rest),
        Err(m) => Err(m),
    }
}

/// Whether line `j` of `ls` is refused.
pub open spec fn refused(ls: Seq<Seq<char>>, j: int) -> bool {
    classify(j as nat, ls[j], false) is Fail
}

proof fn lemma_refused_from(ls: Seq<Seq<char>>, i: nat, k: int)
    requires
        i <= k < ls.len(),
        refused(ls, k),
        forall|j: int| i <= j < k ==> !#[trigger] refused(ls, j),
    ensures
        parse_lines(ls, i) == Err::<Seq<InstructionView>, _>(
            classify(k as nat, ls[k], false)->Fail_0,
        ),
    decreases k - i,
{
    if i < k {
        assert(!refused(ls, i as int));
        lemma_refused_from(ls, i + 1, k);
    }
}

proof fn lemma_accepted_from(ls: Seq<Seq<char>>, i: nat)
    requires
        forall|j: int| i <= j < ls.len() ==> !#[trigger] refused(ls, j),
    ensures
        parse_lines(ls, i) is Ok,
    decreases ls.len() - i,
{
    if i < ls.len() {
        assert(!refused(ls, i as int));
        lemma_accepted_from(ls, i + 1);
    }
}

/// A Rockerfile whose lines are all accepted parses; one with a refused
/// line is refused with the message of its first refused line.
pub proof fn law_first_refused_line_is_reported(content: Seq<char>)
    ensures
        (forall|j: int| 0 <= j < lines(content).len() ==> !#[trigger] refused(lines(content), j))
            ==> spec_parse(content) is Ok,
        forall|k: int|
            0 <= k < lines(content).len() && #[trigger] refused(lines(content), k) && (forall|j: int|
                0 <= j < k ==> !#[trigger] refused(lines(content), j)) ==> spec_parse(content)
                == Err::<Seq<InstructionView>, _>(
                classify(k as nat, lines(content)[k], false)->Fail_0,
            ),
{
    let ls = lines(content);
    if forall|j: int| 0 <= j < ls.len() ==> !#[trigger] refused(ls, j) {
        lemma_accepted_from(ls, 0);
    }
    assert forall|k: int|
        0 <= k < ls.len() && #[trigger] refused(ls, k) && (forall|j: int|
            0 <= j < k ==> !#[trigger] refused(ls, j)) implies spec_parse(content)
        == Err::<Seq<InstructionView>, _>(classify(k as nat, ls[k], false)->Fail_0) by {
        lemma_refused_from(ls, 0, k);
    }
}

/// The instructions of the lines of `ls` from line `i` on that are neither
/// blank nor comments, in order.
pub open spec fn kept_instructions(ls: Seq<Seq<char>>, i: nat) -> Seq<InstructionView>
    decreases ls.len() - i,
{
    if i >= ls.len() {
        Seq::empty()
    } else if blank_or_comment(ls[i as int]) {
        kept_instructions(ls, i + 1)
    } else {
        seq![instruction_of(classify(i, ls[i as int], false))] + kept_instructions(ls, i + 1)
    }
}

proof fn lemma_ok_is_kept(ls: Seq<Seq<char>>, i: nat)
    ensures
        parse_lines(ls, i) matches Ok(r) ==> r == kept_instructions(ls, i),
    decreases ls.len() - i,
{
    if i < ls.len() {
        lemma_ok_is_kept(ls, (i + 1) as nat);
    }
}

proof fn lemma_kept_index(ls: Seq<Seq<char>>, i: nat)
    ensures
        kept_instructions(ls, i).len() == kept_lines(ls, i).len(),
        forall|k: int|
            0 <= k < kept_lines(ls, i).len() ==> #[trigger] kept_instructions(ls, i)[k]
                == instruction_of(classify(kept_lines(ls, i)[k], ls[kept_lines(ls, i)[k] as int], false)),
    decreases ls.len() - i,
{
    if i < ls.len() {
        lemma_kept_index(ls, i + 1);
        if !blank_or_comment(ls[i as int]) {
            assert forall|k: int| 0 <= k < kept_lines(ls, i).len() implies #[trigger] kept_instructions(
                ls,
                i,
            )[k] == instruction_of(classify(kept_lines(ls, i)[k], ls[kept_lines(ls, i)[k] as int], false)) by {
                if k > 0 {
                    assert(kept_instructions(ls, i)[k] == kept_instructions(ls, i + 1)[k - 1]);
                    assert(kept_lines(ls, i)[k] == kept_lines(ls, i + 1)[k - 1]);
                }
            }
        }
    }
}

/// A parse that succeeds gives one instruction per line that is neither
/// blank nor a comment, in the order of the lines: the `k`-th instruction
/// is what the `k`-th such line says.
pub proof fn law_one_instruction_per_kept_line(content: Seq<char>)
    ensures
        spec_parse(content) matches Ok(r) ==> {
            &&& r == kept_instructions(lines(content), 0)
            &&& r.len() == kept_lines(lines(content), 0).len()
            &&& forall|k: int|
                0 <= k < r.len() ==> #[trigger] r[k] == instruction_of(
                    classify(
                        kept_lines(lines(content), 0)[k],
                        lines(content)[kept_lines(lines(content), 0)[k] as int],
                        false,
                    ),
                )
        },
{
    let ls = lines(content);
    lemma_ok_is_kept(ls, 0);
    lemma_kept_index(ls, 0);
}

/// Whether a line's keyword, upper-cased, is `CPU_LIMIT` or `MEMORY_LIMIT`.
pub open spec fn has_limit_keyword(line: Seq<char>) -> bool {
    &&& !blank_or_comment(line)
    &&& (case_upper(keyword_of(trim(line))) == "CPU_LIMIT"@ || case_upper(
        keyword_of(trim(line)),
    ) == "MEMORY_LIMIT"@)
}

/// The Rockerfile form of a Rustockerfile instruction (`Cmd { args }` is
/// `Cmd(args)`; the limit instructions have none and stand as an empty `RUN`).
pub open spec fn from_rustocker(i: rustockerfile::InstructionView) -> InstructionView {
    match i {
        rustockerfile::InstructionView::Download { url, alias } => InstructionView::Download {
            url,
            alias,
        },
        rustockerfile::InstructionView::From(s) => InstructionView::From(s),
        rustockerfile::InstructionView::Copy { src, dst } => InstructionView::Copy { src, dst },
        rustockerfile::InstructionView::Run(s) => InstructionView::Run(s),
        rustockerfile::InstructionView::Cmd { args } => InstructionView::Cmd(args),
        _ => InstructionView::Run(Seq::empty()),
    }
}

/// The Rockerfile form of a Rustockerfile parse result.
pub open spec fn from_rustocker_result(
    r: Result<Seq<rustockerfile::InstructionView>, Seq<char>>,
) -> Result<Seq<InstructionView>, Seq<char>> {
    match r {
        Ok(v) => Ok(v.map_values(|i: rustockerfile::InstructionView| from_rustocker(i))),
        Err(m) => Err(m),
    }
}

proof fn lemma_same_parse_from(ls: Seq<Seq<char>>, vs: Seq<rustockerfile::NumberCheck>, i: nat, j: nat)
    requires
        forall|k: int| i <= k < ls.len() ==> !#[trigger] has_limit_keyword(ls[k]),
    ensures
        parse_lines(ls, i) == from_rustocker_result(rustockerfile::parse_lines(ls, i, vs, j)),
    decreases ls.len() - i,
{
    if i >= ls.len() {
        assert(Seq::<rustockerfile::InstructionView>::empty().map_values(
            |i: rustockerfile::InstructionView| from_rustocker(i),
        ) =~= Seq::<InstructionView>::empty());
    } else {
        lemma_same_parse_from(ls, vs, i + 1, j);
        assert(!has_limit_keyword(ls[i as int]));
        let l = classify(i, ls[i as int], false);
        assert(l == classify(i, ls[i as int], true));
        assert(!(l is CpuLimit) && !(l is MemoryLimit));
        let rest = rustockerfile::parse_lines(ls, i + 1, vs, j);
        match rest {
            Ok(r) => {
                let x = rustockerfile::instruction_of(l);
                assert((seq![x] + r).map_values(|i: rustockerfile::InstructionView| from_rustocker(i))
                    =~= seq![from_rustocker(x)] + r.map_values(
                    |i: rustockerfile::InstructionView| from_rustocker(i),
                ));
            },
            Err(_) => {},
        }
    }
}

/// A Rockerfile reads a file without `CPU_LIMIT` and `MEMORY_LIMIT` lines as
/// a Rustockerfile does (the same error, or the same instructions), whatever
/// the verdicts; a limit keyword on a line after lines it accepts is, for a
/// Rockerfile, an unknown keyword.
pub proof fn law_rockerfile_is_rustockerfile_without_limits(
    content: Seq<char>,
    vs: Seq<rustockerfile::NumberCheck>,
)
    ensures
        (forall|k: int| 0 <= k < lines(content).len() ==> !#[trigger] has_limit_keyword(lines(content)[k]))
            ==> spec_parse(content) == from_rustocker_result(rustockerfile::spec_parse(content, vs)),
        forall|k: int|
            0 <= k < lines(content).len() && #[trigger] has_limit_keyword(lines(content)[k]) && (
            forall|j: int| 0 <= j < k ==> !#[trigger] refused(lines(content), j)) ==> spec_parse(
                content,
            ) == Err::<Seq<InstructionView>, _>(line_msg(k as nat, "Unknown keyword"@)),
{
    let ls = lines(content);
    if forall|k: int| 0 <= k < ls.len() ==> !#[trigger] has_limit_keyword(ls[k]) {
        lemma_same_parse_from(ls, vs, 0, 0);
    }
    assert forall|k: int|
        0 <= k < ls.len() && #[trigger] has_limit_keyword(ls[k]) && (forall|j: int|
            0 <= j < k ==> !#[trigger] refused(ls, j)) implies spec_parse(content) == Err::<
        Seq<InstructionView>,
        _,
    >(line_msg(k as nat, "Unknown keyword"@)) by {
        reveal_strlit("CPU_LIMIT");
        reveal_strlit("MEMORY_LIMIT");
        reveal_strlit("DOWNLOAD");
        reveal_strlit("FROM");
        reveal_strlit("COPY");
        reveal_strlit("RUN");
        reveal_strlit("CMD");
        let t = trim(ls[k]);
        let kw = case_upper(keyword_of(t));
        assert(kw.len() == 9 || kw.len() == 12);
        assert(kw != "DOWNLOAD"@ && kw != "FROM"@ && kw != "COPY"@ && kw != "RUN"@ && kw != "CMD"@);
        assert(classify(k as nat, ls[k], false) == keyword_spec(
            k as nat,
            case_upper(keyword_of(t)),
            args_of(t),
            second_word_upper(args_of(t)),
            false,
        ));
        assert(classify(k as nat, ls[k], false) == LineSpec::Fail(
            line_msg(k as nat, "Unknown keyword"@),
        ));
        assert(refused(ls, k));
        law_first_refused_line_is_reported(content);
    }
}

impl Rockerfile {
    /// Parses a Rockerfile. Blank lines and lines starting with `#` are
    /// skipped; keywords are matched case-insensitively; the first refused
    /// line gives the error `"Line N: ..."`.
    pub fn parse(content: &str) -> (r: Result<Rockerfile, String>)
        ensures
            match r {
                Ok(f) => spec_parse(content@) == Ok::<_, Seq<char>>(
                    instructions_view(f.instructions@),
                ),
                Err(e) => spec_parse(content@) == Err::<Seq<InstructionView>, _>(e@),
            },
    {
        let v = chars_of(content);
        let spans = line_spans(&v);
        let ghost ls = lines(v@);
        let mut out: Vec<Instruction> = Vec::new();
        let mut i: usize = 0;
        assert(instructions_view(out@) =~= Seq::<InstructionView>::empty());
        while i < spans.len()
            invariant
                v@ == content@,
                ls == lines(v@),
                spans@.len() == ls.len(),
                forall|k: int|
                    0 <= k < spans@.len() ==> {
                        &&& (#[trigger] spans@[k]).0 <= spans@[k].1 <= v@.len()
                        &&& v@.subrange(spans@[k].0 as int, spans@[k].1 as int) == ls[k]
                    },
                i <= spans@.len(),
                spec_parse(content@) == after(instructions_view(out@), parse_lines(ls, i as nat)),
            decreases spans@.len() - i,
        {
            let (a, b) = spans[i];
            let item = classify_line(&v, a, b, i, false);
            let ghost rest = parse_lines(ls, (i + 1) as nat);
            let ghost before = instructions_view(out@);
            match item {
                LineItem::Skip => {},
                LineItem::Fail(m) => {
                    return Err(m);
                },
                LineItem::Download { url, alias } => {
                    out.push(Instruction::Download { url, alias });
                },
                LineItem::From(s) => {
                    out.push(Instruction::From(s));
                },
                LineItem::Copy { src, dst } => {
                    out.push(Instruction::Copy { src, dst });
                },
                LineItem::Run(s) => {
                    out.push(Instruction::Run(s));
                },
                LineItem::Cmd(w) => {
                    out.push(Instruction::Cmd(w));
                },
                LineItem::CpuLimit(_) | LineItem::MemoryLimit(_) => {
                    // Without limit keywords no line is classified as a limit.
                    assert(false);
                },
            }
            proof {
                if !(classify(i as nat, ls[i as int], false) is Skip) {
                    assert(instructions_view(out@) =~= before.push(
                        instruction_of(classify(i as nat, ls[i as int], false)),
                    ));
                    match rest {
                        Ok(r) => {
                            assert(before + (seq![
                                instruction_of(classify(i as nat, ls[i as int], false)),
                            ] + r) =~= instructions_view(out@) + r);
                        },
                        Err(_) => {},
                    }
                }
            }
            i += 1;
        }
        proof {
            assert(instructions_view(out@) + Seq::<InstructionView>::empty() =~= instructions_view(
                out@,
            ));
        }
        Ok(Rockerfile { instructions: out })
    }
}

} // verus!

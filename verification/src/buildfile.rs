//! One line of a build file (a Rockerfile or a Rustockerfile): what it says,
//! or why it is refused.
use crate::text::{
    chars_of, decimal, push_decimal, push_str, skip_word, span_eq, case_upper, ascii_upper, is_ascii_text, string_from,
    string_of, to_uppercase, trim, trim_span, word_prefix_len, words, words_of,
};
use vstd::prelude::*;

verus! {

/// What one line of a build file holds.
pub enum LineSpec {
    Skip,
    Download { url: Seq<char>, alias: Seq<char> },
    From(Seq<char>),
    Copy { src: Seq<char>, dst: Seq<char> },
    Run(Seq<char>),
    Cmd(Seq<Seq<char>>),
    CpuLimit(Seq<char>),
    MemoryLimit(Seq<char>),
    Fail(Seq<char>),
}

/// `"Line {n + 1}: {text}"`: an error message for the line with index `n`.
pub open spec fn line_msg(n: nat, text: Seq<char>) -> Seq<char> {
    "Line "@ + decimal(n + 1) + ": "@ + text
}

/// The keyword of a trimmed line: its characters before the first whitespace.
pub open spec fn keyword_of(t: Seq<char>) -> Seq<char> {
    t.take(word_prefix_len(t) as int)
}

/// The arguments of a trimmed line: what follows the keyword and one
/// whitespace character, trimmed; empty when the line is only a keyword.
pub open spec fn args_of(t: Seq<char>) -> Seq<char> {
    let k = word_prefix_len(t);
    if k < t.len() {
        trim(t.skip(k + 1 as int))
    } else {
        Seq::empty()
    }
}

/// The second of three words of `args`, upper-cased (empty when `args` is
/// not three words): the word a `DOWNLOAD` line must have as `AS`.
pub open spec fn second_word_upper(args: Seq<char>) -> Seq<char> {
    if words(args).len() == 3 {
        case_upper(words(args)[1])
    } else {
        Seq::empty()
    }
}

/// What a line with the upper-cased keyword `kw` and the arguments `args`
/// says, `as_word` being [`second_word_upper`] of `args`. `with_limits` is
/// whether the `CPU_LIMIT` and `MEMORY_LIMIT` keywords are known.
pub open spec fn keyword_spec(
    n: nat,
    kw: Seq<char>,
    args: Seq<char>,
    as_word: Seq<char>,
    with_limits: bool,
) -> LineSpec {
    if kw == "DOWNLOAD"@ {
        if args.len() == 0 {
            LineSpec::Fail(line_msg(n, "URL is required (DOWNLOAD)"@))
        } else {
            let w = words(args);
            if w.len() == 3 && as_word == "AS"@ {
                LineSpec::Download { url: w[0], alias: w[2] }
            } else {
                LineSpec::Fail(
                    line_msg(n, "DOWNLOAD syntax requires format: DOWNLOAD <URL> AS <ALIAS>"@),
                )
            }
        }
    } else if kw == "FROM"@ {
        if args.len() == 0 {
            LineSpec::Fail(line_msg(n, "Image name required (FROM)"@))
        } else {
            LineSpec::From(args)
        }
    } else if kw == "COPY"@ {
        let w = words(args);
        if w.len() != 2 {
            LineSpec::Fail(line_msg(n, "Copy requires 2 arguments"@))
        } else {
            LineSpec::Copy { src: w[0], dst: w[1] }
        }
    } else if kw == "RUN"@ {
        if args.len() == 0 {
            LineSpec::Fail(line_msg(n, "Required argument (RUN)"@))
        } else {
            LineSpec::Run(args)
        }
    } else if kw == "CMD"@ {
        if args.len() == 0 {
            LineSpec::Fail(line_msg(n, "Required argument (CMD)"@))
        } else {
            LineSpec::Cmd(words(args))
        }
    } else if with_limits && kw == "CPU_LIMIT"@ {
        if args.len() == 0 {
            LineSpec::Fail(line_msg(n, "Required argument (CPU_LIMIT)"@))
        } else {
            LineSpec::CpuLimit(args)
        }
    } else if with_limits && kw == "MEMORY_LIMIT"@ {
        if args.len() == 0 {
            LineSpec::Fail(line_msg(n, "Required argument (MEMORY_LIMIT)"@))
        } else {
            LineSpec::MemoryLimit(args)
        }
    } else {
        LineSpec::Fail(line_msg(n, "Unknown keyword"@))
    }
}

/// Whether a line is blank or a `#` comment (once trimmed).
pub open spec fn blank_or_comment(line: Seq<char>) -> bool {
    trim(line).len() == 0 || trim(line)[0] == '#'
}

/// The indices of the lines of `ls` from line `i` on that are neither blank
/// nor comments, in order.
pub open spec fn kept_lines(ls: Seq<Seq<char>>, i: nat) -> Seq<nat>
    decreases ls.len() - i,
{
    if i >= ls.len() {
        Seq::empty()
    } else if blank_or_comment(ls[i as int]) {
        kept_lines(ls, i + 1)
    } else {
        seq![i] + kept_lines(ls, i + 1)
    }
}

/// What line `n` of a build file says. `with_limits` is whether the
/// `CPU_LIMIT` and `MEMORY_LIMIT` keywords are known.
pub open spec fn classify(n: nat, line: Seq<char>, with_limits: bool) -> LineSpec {
    let t = trim(line);
    if blank_or_comment(line) {
        LineSpec::Skip
    } else {
        let args = args_of(t);
        keyword_spec(
            n,
            case_upper(keyword_of(t)),
            args,
            second_word_upper(args),
            with_limits,
        )
    }
}

/// Keywords are read in any case: two lines whose ASCII keywords differ only
/// in the case of their letters (such as `from` and `FROM`), and whose
/// arguments are the same, say the same thing, which is what the line with
/// the keyword in capitals says.
pub proof fn law_keyword_case_is_ignored(n: nat, a: Seq<char>, b: Seq<char>, with_limits: bool)
    requires
        !blank_or_comment(a),
        !blank_or_comment(b),
        is_ascii_text(keyword_of(trim(a))),
        is_ascii_text(keyword_of(trim(b))),
        ascii_upper(keyword_of(trim(a))) == ascii_upper(keyword_of(trim(b))),
        args_of(trim(a)) == args_of(trim(b)),
    ensures
        classify(n, a, with_limits) == classify(n, b, with_limits),
        classify(n, a, with_limits) == keyword_spec(
            n,
            ascii_upper(keyword_of(trim(a))),
            args_of(trim(a)),
            second_word_upper(args_of(trim(a))),
            with_limits,
        ),
{
}

/// The `AS` of a `DOWNLOAD` line is read in any case: two argument lists of
/// three words that differ only in the case of an ASCII middle word make the
/// same `DOWNLOAD` line.
pub proof fn law_as_word_case_is_ignored(n: nat, a: Seq<char>, b: Seq<char>, with_limits: bool)
    requires
        words(a).len() == 3,
        words(b).len() == 3,
        words(a)[0] == words(b)[0],
        words(a)[2] == words(b)[2],
        is_ascii_text(words(a)[1]),
        is_ascii_text(words(b)[1]),
        ascii_upper(words(a)[1]) == ascii_upper(words(b)[1]),
    ensures
        keyword_spec(n, "DOWNLOAD"@, a, second_word_upper(a), with_limits) == keyword_spec(
            n,
            "DOWNLOAD"@,
            b,
            second_word_upper(b),
            with_limits,
        ),
{
    assert(words(Seq::<char>::empty()).len() == 0);
    assert(a.len() > 0 && b.len() > 0) by {
        if a.len() == 0 {
            assert(a =~= Seq::<char>::empty());
        }
        if b.len() == 0 {
            assert(b =~= Seq::<char>::empty());
        }
    }
}

/// What one line of a build file holds (see [`LineSpec`]).
#[derive(Debug, PartialEq)]
pub enum LineItem {
    Skip,
    Download { url: String, alias: String },
    From(String),
    Copy { src: String, dst: String },
    Run(String),
    Cmd(Vec<String>),
    CpuLimit(String),
    MemoryLimit(String),
    Fail(String),
}

pub open spec fn strings_view(v: Seq<String>) -> Seq<Seq<char>> {
    v.map_values(|s: String| s@)
}

impl View for LineItem {
    type V = LineSpec;

    open spec fn view(&self) -> LineSpec {
        match self {
            LineItem::Skip => LineSpec::Skip,
            LineItem::Download { url, alias } => LineSpec::Download { url: url@, alias: alias@ },
            LineItem::From(s) => LineSpec::From(s@),
            LineItem::Copy { src, dst } => LineSpec::Copy { src: src@, dst: dst@ },
            LineItem::Run(s) => LineSpec::Run(s@),
            LineItem::Cmd(a) => LineSpec::Cmd(strings_view(a@)),
            LineItem::CpuLimit(s) => LineSpec::CpuLimit(s@),
            LineItem::MemoryLimit(s) => LineSpec::MemoryLimit(s@),
            LineItem::Fail(s) => LineSpec::Fail(s@),
        }
    }
}

/// `"Line {n + 1}: {text}"`.
pub fn line_message(n: usize, text: &str) -> (r: String)
    requires
        n < usize::MAX,
    ensures
        r@ == line_msg(n as nat, text@),
{
    let mut s = string_from("Line ");
    push_decimal(&mut s, (n + 1) as u64);
    push_str(&mut s, ": ");
    push_str(&mut s, text);
    s
}

/// Whether the characters of `v` spell `lit`.
pub fn is_literal(v: &Vec<char>, lit: &str) -> (r: bool)
    ensures
        r == (v@ == lit@),
{
    let l = chars_of(lit);
    assert(v@.subrange(0, v@.len() as int) =~= v@);
    span_eq(v, 0, v.len(), &l)
}

pub proof fn lemma_strings_view(w: Seq<String>, s: Seq<Seq<char>>)
    requires
        w.len() == s.len(),
        forall|i: int| 0 <= i < w.len() ==> #[trigger] w[i]@ == s[i],
    ensures
        strings_view(w) == s,
{
    assert(strings_view(w) =~= s);
}

/// What a line with the upper-cased keyword `keyword` and the (trimmed)
/// arguments `args` says (see [`keyword_spec`]); `as_word` is the second
/// of the three words of a `DOWNLOAD` line, upper-cased.
pub fn classify_keyword(n: usize, keyword: &str, args: &str, as_word: &str, with_limits: bool) -> (r:
    LineItem)
    requires
        n < usize::MAX,
    ensures
        r@ == keyword_spec(n as nat, keyword@, args@, as_word@, with_limits),
{
    let kw = chars_of(keyword);
    let v = chars_of(args);
    let len = v.len();
    assert(v@.subrange(0, len as int) =~= args@);
    let empty_args = len == 0;
    if is_literal(&kw, "DOWNLOAD") {
        if empty_args {
            return LineItem::Fail(line_message(n, "URL is required (DOWNLOAD)"));
        }
        let w = words_of(&v, 0, len);
        let asv = chars_of(as_word);
        if w.len() == 3 && is_literal(&asv, "AS") {
            let url = w[0].clone();
            let alias = w[2].clone();
            return LineItem::Download { url, alias };
        }
        return LineItem::Fail(
            line_message(n, "DOWNLOAD syntax requires format: DOWNLOAD <URL> AS <ALIAS>"),
        );
    } else if is_literal(&kw, "FROM") {
        if empty_args {
            return LineItem::Fail(line_message(n, "Image name required (FROM)"));
        }
        return LineItem::From(string_from(args));
    } else if is_literal(&kw, "COPY") {
        let w = words_of(&v, 0, len);
        if w.len() != 2 {
            return LineItem::Fail(line_message(n, "Copy requires 2 arguments"));
        }
        let src = w[0].clone();
        let dst = w[1].clone();
        return LineItem::Copy { src, dst };
    } else if is_literal(&kw, "RUN") {
        if empty_args {
            return LineItem::Fail(line_message(n, "Required argument (RUN)"));
        }
        return LineItem::Run(string_from(args));
    } else if is_literal(&kw, "CMD") {
        if empty_args {
            return LineItem::Fail(line_message(n, "Required argument (CMD)"));
        }
        let w = words_of(&v, 0, len);
        proof {
            lemma_strings_view(w@, words(args@));
        }
        return LineItem::Cmd(w);
    } else if with_limits && is_literal(&kw, "CPU_LIMIT") {
        if empty_args {
            return LineItem::Fail(line_message(n, "Required argument (CPU_LIMIT)"));
        }
        return LineItem::CpuLimit(string_from(args));
    } else if with_limits && is_literal(&kw, "MEMORY_LIMIT") {
        if empty_args {
            return LineItem::Fail(line_message(n, "Required argument (MEMORY_LIMIT)"));
        }
        return LineItem::MemoryLimit(string_from(args));
    }
    LineItem::Fail(line_message(n, "Unknown keyword"))
}

/// Reads line `n`, the characters `v[from..to]`, of a build file (see [`classify`]).
pub fn classify_line(v: &Vec<char>, from: usize, to: usize, n: usize, with_limits: bool) -> (r:
    LineItem)
    requires
        from <= to <= v@.len(),
        n < usize::MAX,
    ensures
        r@ == classify(n as nat, v@.subrange(from as int, to as int), with_limits),
{
    let ghost line = v@.subrange(from as int, to as int);
    let (a, b) = trim_span(v, from, to);
    let ghost t = trim(line);
    assert(t == v@.subrange(a as int, b as int));
    if a == b || v[a] == '#' {
        return LineItem::Skip;
    }
    let k = skip_word(v, a, b);
    assert(keyword_of(t) == v@.subrange(a as int, k as int));
    let kw_text = string_of(v, a, k);
    let kw_upper = to_uppercase(kw_text.as_str());
    let (c, d) = if k < b {
        trim_span(v, k + 1, b)
    } else {
        (b, b)
    };
    proof {
        if k < b {
            assert(t.skip(k - a + 1) =~= v@.subrange(k + 1, b as int));
        } else {
            assert(v@.subrange(b as int, b as int) =~= Seq::<char>::empty());
        }
    }
    let ghost args = args_of(t);
    assert(args == v@.subrange(c as int, d as int));
    let args_text = string_of(v, c, d);
    let w = words_of(v, c, d);
    let as_word = if w.len() == 3 {
        to_uppercase(w[1].as_str())
    } else {
        String::new()
    };
    proof {
        if w@.len() != 3 {
            assert(as_word@ =~= Seq::<char>::empty());
        }
    }
    classify_keyword(n, kw_upper.as_str(), args_text.as_str(), as_word.as_str(), with_limits)
}

} // verus!

//! Ignore files (`.rustockerignore`, `.crabtainerignore`): glob rules, one per
//! line, that keep paths out of a `COPY`. A rule starting with `!` takes a
//! path back in; the last rule that matches a path decides.
use crate::text::{
    char_suffix_len, back_skip_char, lemma_char_suffix_le, chars_of, lines, line_spans, push_str, skip_char, span_contains,
    string_from, string_of, trim, trim_end_char, trim_span, trim_start_char, is_ws, char_prefix_len, lemma_char_prefix_le,
};
use crate::buildfile::strings_view;
use globset::{Glob, GlobSet, GlobSetBuilder};
use vstd::prelude::*;

verus! {

#[verifier::external_type_specification]
#[verifier::external_body]
pub struct ExGlobSet(GlobSet);

/// Whether `Glob::new` accepts `pattern`.
pub uninterp spec fn spec_glob_valid(pattern: Seq<char>) -> bool;

/// Whether the glob `pattern` matches `path`, as globset matches it.
pub uninterp spec fn spec_glob_match(pattern: Seq<char>, path: Seq<char>) -> bool;

/// Whether `GlobSetBuilder::build` succeeds on the globs `patterns`.
pub uninterp spec fn spec_glob_set_builds(patterns: Seq<Seq<char>>) -> bool;

/// The globs a `GlobSet` was built from, in order.
pub uninterp spec fn glob_set_patterns(set: GlobSet) -> Seq<Seq<char>>;

/// Whether `Path::new(a) == Path::new(b)` (paths compared component by component).
pub uninterp spec fn spec_path_eq(a: Seq<char>, b: Seq<char>) -> bool;

/// Whether `p` holds none of the characters that globset reads specially
/// (`?`, `*`, `[`, `{`, `}`, `\\`): every character stands for itself.
pub open spec fn glob_plain(p: Seq<char>) -> bool {
    &&& !p.contains('?')
    &&& !p.contains('*')
    &&& !p.contains('[')
    &&& !p.contains('{')
    &&& !p.contains('}')
    &&& !p.contains('\\')
}

/// Whether `p` is `d/**` with `d` plain.
pub open spec fn plain_dir_glob(p: Seq<char>) -> bool {
    p.len() >= 3 && p.skip(p.len() - 3) == "/**"@ && glob_plain(p.take(p.len() - 3))
}

/// Whether `p` is a plain glob or a plain `d/**`.
pub open spec fn simple_glob(p: Seq<char>) -> bool {
    glob_plain(p) || plain_dir_glob(p)
}

/// What a simple glob matches: a plain glob only the path spelled the same;
/// `d/**` every path that starts with `d/`.
pub open spec fn simple_glob_match(p: Seq<char>, path: Seq<char>) -> bool {
    if plain_dir_glob(p) {
        path.len() >= p.len() - 2 && path.take(p.len() - 2) == p.take(p.len() - 2)
    } else {
        path == p
    }
}

/// Whether every glob of `ps` is simple.
pub open spec fn all_simple(ps: Seq<Seq<char>>) -> bool {
    forall|i: int| 0 <= i < ps.len() ==> simple_glob(#[trigger] ps[i])
}

/// Whether one of the simple globs `ps` matches `path`.
pub open spec fn any_simple_match(ps: Seq<Seq<char>>, path: Seq<char>) -> bool {
    exists|i: int| 0 <= i < ps.len() && simple_glob_match(#[trigger] ps[i], path)
}

/// `Glob::new(pattern)`: whether globset accepts the pattern. globset's glob
/// grammar is not stated here; the answer is named by `spec_glob_valid`.
/// A simple glob is always accepted: its parse only reads literal
/// characters and a final `/**`.
#[verifier::external_body]
fn glob_is_valid(pattern: &str) -> (r: bool)
    ensures
        r == spec_glob_valid(pattern@),
        simple_glob(pattern@) ==> r,
{
    Glob::new(pattern).is_ok()
}

/// `GlobSetBuilder::build` on a builder given `Glob::new(p)` for each
/// pattern, in order; `None` when `build` fails (which depends on the
/// patterns only, and is named by `spec_glob_set_builds`). The set holds the
/// patterns' globs. Simple globs always build: globset keeps them as
/// literals and prefixes, which need no regex.
#[verifier::external_body]
fn build_glob_set(patterns: &Vec<String>) -> (r: Option<GlobSet>)
    requires
        forall|i: int| 0 <= i < patterns@.len() ==> spec_glob_valid(#[trigger] patterns@[i]@),
    ensures
        r is Some == spec_glob_set_builds(strings_view(patterns@)),
        all_simple(strings_view(patterns@)) ==> r is Some,
        r matches Some(set) ==> glob_set_patterns(set) == strings_view(patterns@),
{
    let mut builder = GlobSetBuilder::new();
    for p in patterns.iter() {
        builder.add(Glob::new(p).unwrap());
    }
    builder.build().ok()
}

/// `GlobSet::is_match`: whether any glob of the set matches `path` (as its
/// documentation says). How one glob matches a path is not stated here; it
/// is named by `spec_glob_match`, except for simple globs: globset matches a
/// plain glob as a literal (the whole path must be equal) and a plain `d/**`
/// as the literal prefix `d/`.
#[verifier::external_body]
fn glob_set_matches(set: &GlobSet, path: &str) -> (r: bool)
    ensures
        r == any_glob_matches(glob_set_patterns(*set), path@),
        all_simple(glob_set_patterns(*set)) ==> r == any_simple_match(glob_set_patterns(*set), path@),
        forall|i: int| 0 <= i < glob_set_patterns(*set).len() && spec_glob_match(#[trigger] glob_set_patterns(*set)[i], path@) ==> r,
{
    set.is_match(path)
}

/// `Path::new(a) == Path::new(b)`. std's component rules are not stated
/// here; the answer is named by `spec_path_eq`.
#[verifier::external_body]
fn same_path(a: &str, b: &str) -> (r: bool)
    ensures
        r == spec_path_eq(a@, b@),
{
    std::path::Path::new(a) == std::path::Path::new(b)
}

/// One rule: a set of globs, and whether it takes paths back in.
pub struct IgnoreRule {
    set: GlobSet,
    negated: bool,
}

pub struct RuleView {
    pub patterns: Seq<Seq<char>>,
    pub negated: bool,
}

impl View for IgnoreRule {
    type V = RuleView;

    closed spec fn view(&self) -> RuleView {
        RuleView { patterns: glob_set_patterns(self.set), negated: self.negated }
    }
}

pub open spec fn rules_view(rules: Seq<IgnoreRule>) -> Seq<RuleView> {
    rules.map_values(|r: IgnoreRule| r@)
}

/// Whether one of the globs `patterns` matches `path`.
pub open spec fn any_glob_matches(patterns: Seq<Seq<char>>, path: Seq<char>) -> bool {
    exists|i: int| 0 <= i < patterns.len() && spec_glob_match(#[trigger] patterns[i], path)
}

/// Whether one of the rule's globs matches `path`.
pub open spec fn rule_matches(r: RuleView, path: Seq<char>) -> bool {
    any_glob_matches(r.patterns, path)
}

/// Whether `rules` keep `path` out: the last rule that matches it decides
/// (a negated one takes it back in); no match keeps it in.
pub open spec fn ignored_by(rules: Seq<RuleView>, path: Seq<char>) -> bool
    decreases rules.len(),
{
    if rules.len() == 0 {
        false
    } else if rule_matches(rules.last(), path) {
        !rules.last().negated
    } else {
        ignored_by(rules.drop_last(), path)
    }
}

/// The last rule that matches a path decides: it keeps the path out unless
/// it is negated, whatever the rules before it say.
pub proof fn law_last_matching_rule_decides(rules: Seq<RuleView>, path: Seq<char>, k: int)
    requires
        0 <= k < rules.len(),
        rule_matches(rules[k], path),
        forall|j: int| k < j < rules.len() ==> !rule_matches(#[trigger] rules[j], path),
    ensures
        ignored_by(rules, path) == !rules[k].negated,
    decreases rules.len(),
{
    if k < rules.len() - 1 {
        let d = rules.drop_last();
        assert(!rule_matches(rules[rules.len() - 1], path));
        assert forall|j: int| k < j < d.len() implies !rule_matches(#[trigger] d[j], path) by {
            assert(d[j] == rules[j]);
        }
        assert(d[k] == rules[k]);
        law_last_matching_rule_decides(d, path, k);
    }
}

/// A path that no rule matches is not ignored.
pub proof fn law_unmatched_path_is_kept(rules: Seq<RuleView>, path: Seq<char>)
    requires
        forall|j: int| 0 <= j < rules.len() ==> !rule_matches(#[trigger] rules[j], path),
    ensures
        !ignored_by(rules, path),
    decreases rules.len(),
{
    if rules.len() > 0 {
        let d = rules.drop_last();
        assert(!rule_matches(rules[rules.len() - 1], path));
        assert forall|j: int| 0 <= j < d.len() implies !rule_matches(#[trigger] d[j], path) by {
            assert(d[j] == rules[j]);
        }
        law_unmatched_path_is_kept(d, path);
    }
}

/// A line of an ignore file, trimmed, without its leading `!` (if any).
pub open spec fn rule_text(t: Seq<char>) -> Seq<char> {
    if t.len() > 0 && t[0] == '!' {
        t.drop_first()
    } else {
        t
    }
}

/// The rule a `.rustockerignore` line makes: a pattern without `*` or `?`
/// becomes `P{P,/**}` (P being the pattern without leading `/`), others lose
/// their leading `/`; a glob that globset refuses, or whose set does not
/// build, makes no rule, and neither do blank lines and `#` comments.
pub open spec fn rustocker_rule(line: Seq<char>) -> Option<RuleView> {
    let t = trim(line);
    if t.len() == 0 || t[0] == '#' {
        None
    } else {
        let raw = rule_text(t);
        let base = trim_start_char(raw, '/');
        let pat = if !raw.contains('*') && !raw.contains('?') {
            base + "{"@ + base + ",/**}"@
        } else {
            base
        };
        if spec_glob_valid(pat) && spec_glob_set_builds(seq![pat]) {
            Some(RuleView { patterns: seq![pat], negated: t[0] == '!' })
        } else {
            None
        }
    }
}

/// The globs of a `.crabtainerignore` rule, before globset's check: the
/// pattern without leading `/` if it holds `*` or `?`; otherwise that
/// directory without trailing `/`, and everything below it.
pub open spec fn crabtainer_candidates(base: Seq<char>) -> Seq<Seq<char>> {
    if base.contains('*') || base.contains('?') {
        seq![base]
    } else {
        let dir = trim_end_char(base, '/');
        seq![dir, dir + "/**"@]
    }
}

/// The globs of `ps` that globset accepts, in order.
pub open spec fn valid_globs(ps: Seq<Seq<char>>) -> Seq<Seq<char>>
    decreases ps.len(),
{
    if ps.len() == 0 {
        Seq::empty()
    } else if spec_glob_valid(ps.last()) {
        valid_globs(ps.drop_last()).push(ps.last())
    } else {
        valid_globs(ps.drop_last())
    }
}

/// The rule a `.crabtainerignore` line makes: the set of its globs that
/// globset accepts (none when that set does not build; blank lines and `#`
/// comments make none either).
pub open spec fn crabtainer_rule(line: Seq<char>) -> Option<RuleView> {
    let t = trim(line);
    if t.len() == 0 || t[0] == '#' {
        None
    } else {
        let base = trim_start_char(rule_text(t), '/');
        let patterns = valid_globs(crabtainer_candidates(base));
        if spec_glob_set_builds(patterns) {
            Some(RuleView { patterns, negated: t[0] == '!' })
        } else {
            None
        }
    }
}

/// The pattern of a `.crabtainerignore` line: the trimmed line without
/// its leading `!` and leading `/`s.
pub open spec fn crab_base(line: Seq<char>) -> Seq<char> {
    trim_start_char(rule_text(trim(line)), '/')
}

/// The directory of a `.crabtainerignore` line without wildcards: its
/// pattern without trailing `/`s.
pub open spec fn crab_dir(line: Seq<char>) -> Seq<char> {
    trim_end_char(crab_base(line), '/')
}

/// Whether a `.crabtainerignore` line is a rule whose pattern is plain.
pub open spec fn plain_rule_line(line: Seq<char>) -> bool {
    &&& !(trim(line).len() == 0 || trim(line)[0] == '#')
    &&& glob_plain(crab_base(line))
}

proof fn lemma_plain_take(s: Seq<char>, k: int)
    requires
        glob_plain(s),
        0 <= k <= s.len(),
    ensures
        glob_plain(s.take(k)),
{
    assert forall|c: char| #[trigger] s.take(k).contains(c) implies s.contains(c) by {
        let i = choose|i: int| 0 <= i < s.take(k).len() && s.take(k)[i] == c;
        assert(s[i] == c);
    }
}

proof fn lemma_plain_dir_glob(d: Seq<char>)
    requires
        glob_plain(d),
    ensures
        plain_dir_glob(d + "/**"@),
        simple_glob(d),
        simple_glob(d + "/**"@),
{
    reveal_strlit("/**");
    let p = d + "/**"@;
    assert(p.skip(p.len() - 3) =~= "/**"@);
    assert(p.take(p.len() - 3) =~= d);
}

proof fn lemma_trimmed(t: Seq<char>)
    requires
        t.len() > 0,
        !is_ws(t[0]),
        !is_ws(t.last()),
    ensures
        trim(t) == t,
{
    assert(t.skip(0) =~= t);
    assert(t.take(t.len() as int) =~= t);
}

proof fn lemma_prefixed(c: char, t: Seq<char>)
    requires
        t.len() > 0,
        !is_ws(c),
        !is_ws(t[0]),
        !is_ws(t.last()),
        t[0] != '!',
    ensures
        trim(seq![c] + t) == seq![c] + t,
        trim(t) == t,
        rule_text(t) == t,
        c == '!' ==> rule_text(seq![c] + t) == t,
        c == '/' ==> trim_start_char(rule_text(seq![c] + t), '/') == trim_start_char(t, '/'),
        c == '/' ==> rule_text(seq![c] + t) == seq![c] + t,
{
    let n = seq![c] + t;
    lemma_trimmed(t);
    assert(n[0] == c);
    assert(n.last() == t.last());
    lemma_trimmed(n);
    assert(n.drop_first() =~= t);
    if c == '/' {
        assert(char_prefix_len(n, '/') == 1 + char_prefix_len(t, '/'));
        lemma_char_prefix_le(t, '/');
        assert(n.skip(char_prefix_len(n, '/') as int) =~= t.skip(char_prefix_len(t, '/') as int));
    }
}

/// A line that starts with `!` makes a negated rule, whatever its pattern;
/// any other rule is not negated (`.rustockerignore`).
pub proof fn law_rustocker_bang_negates(line: Seq<char>)
    ensures
        rustocker_rule(line) is Some ==> rustocker_rule(line)->0.negated == (trim(line)[0] == '!'),
{
}

/// A line that starts with `!` makes a negated rule, whatever its pattern;
/// any other rule is not negated (`.crabtainerignore`).
pub proof fn law_crabtainer_bang_negates(line: Seq<char>)
    ensures
        crabtainer_rule(line) is Some ==> crabtainer_rule(line)->0.negated == (trim(line)[0]
            == '!'),
{
}

/// Putting `!` before a `.rustockerignore` rule `t` (trimmed, not a comment,
/// not already negated) makes the same rule negated: the same globs, made
/// or refused alike, now taking the paths they match back in.
pub proof fn law_rustocker_negation_keeps_globs(t: Seq<char>)
    requires
        t.len() > 0,
        !is_ws(t[0]),
        !is_ws(t.last()),
        t[0] != '!',
        t[0] != '#',
    ensures
        rustocker_rule(seq!['!'] + t) is Some == rustocker_rule(t) is Some,
        rustocker_rule(t) is Some ==> {
            &&& rustocker_rule(seq!['!'] + t)->0.patterns == rustocker_rule(t)->0.patterns
            &&& rustocker_rule(seq!['!'] + t)->0.negated
            &&& !rustocker_rule(t)->0.negated
        },
{
    lemma_prefixed('!', t);
}

/// Putting `!` before a `.crabtainerignore` rule `t` (trimmed, not a
/// comment, not already negated) makes the same rule negated.
pub proof fn law_crabtainer_negation_keeps_globs(t: Seq<char>)
    requires
        t.len() > 0,
        !is_ws(t[0]),
        !is_ws(t.last()),
        t[0] != '!',
        t[0] != '#',
    ensures
        crabtainer_rule(seq!['!'] + t) is Some == crabtainer_rule(t) is Some,
        crabtainer_rule(t) is Some ==> {
            &&& crabtainer_rule(seq!['!'] + t)->0.patterns == crabtainer_rule(t)->0.patterns
            &&& crabtainer_rule(seq!['!'] + t)->0.negated
            &&& !crabtainer_rule(t)->0.negated
        },
{
    lemma_prefixed('!', t);
}

/// A leading `/` of a `.rustockerignore` pattern changes nothing: rule
/// patterns are relative to the build context, with or without wildcards.
pub proof fn law_rustocker_leading_slash_is_ignored(t: Seq<char>)
    requires
        t.len() > 0,
        !is_ws(t[0]),
        !is_ws(t.last()),
        t[0] != '!',
        t[0] != '#',
    ensures
        rustocker_rule(seq!['/'] + t) == rustocker_rule(t),
{
    reveal_strlit("/");
    lemma_prefixed('/', t);
    let n = seq!['/'] + t;
    assert(n.contains('*') == t.contains('*')) by {
        if n.contains('*') {
            let i = choose|i: int| 0 <= i < n.len() && n[i] == '*';
            assert(t[i - 1] == '*');
        }
        if t.contains('*') {
            let i = choose|i: int| 0 <= i < t.len() && t[i] == '*';
            assert(n[i + 1] == '*');
        }
    }
    assert(n.contains('?') == t.contains('?')) by {
        if n.contains('?') {
            let i = choose|i: int| 0 <= i < n.len() && n[i] == '?';
            assert(t[i - 1] == '?');
        }
        if t.contains('?') {
            let i = choose|i: int| 0 <= i < t.len() && t[i] == '?';
            assert(n[i + 1] == '?');
        }
    }
}

/// A leading `/` of a `.crabtainerignore` pattern changes nothing, with or
/// without wildcards: the rule of `/p` is the rule of `p`.
pub proof fn law_crabtainer_leading_slash_is_ignored(t: Seq<char>)
    requires
        t.len() > 0,
        !is_ws(t[0]),
        !is_ws(t.last()),
        t[0] != '!',
        t[0] != '#',
    ensures
        crabtainer_rule(seq!['/'] + t) == crabtainer_rule(t),
{
    lemma_prefixed('/', t);
}

/// The rules of lines `i..` of an ignore file, in order.
pub open spec fn rules_of(ls: Seq<Seq<char>>, i: nat, crab: bool) -> Seq<RuleView>
    decreases ls.len() - i,
{
    if i >= ls.len() {
        Seq::empty()
    } else {
        let r = if crab {
            crabtainer_rule(ls[i as int])
        } else {
            rustocker_rule(ls[i as int])
        };
        match r {
            Some(rule) => seq![rule] + rules_of(ls, i + 1, crab),
            None => rules_of(ls, i + 1, crab),
        }
    }
}

/// The rules of an ignore file's content (none when there is no file).
pub open spec fn spec_rules(content: Option<Seq<char>>, crab: bool) -> Seq<RuleView> {
    match content {
        Some(c) => rules_of(lines(c), 0, crab),
        None => Seq::empty(),
    }
}

proof fn lemma_plain_rule(line: Seq<char>)
    requires
        plain_rule_line(line),
        plain_line_valid(line),
    ensures
        crabtainer_rule(line) == Some(
            RuleView {
                patterns: seq![crab_dir(line), crab_dir(line) + "/**"@],
                negated: trim(line)[0] == '!',
            },
        ),
        crabtainer_candidates(crab_base(line)) == seq![crab_dir(line), crab_dir(line) + "/**"@],
        valid_globs(crabtainer_candidates(crab_base(line))) == seq![crab_dir(line), crab_dir(line) + "/**"@],
        glob_plain(crab_dir(line)),
        all_simple(seq![crab_dir(line), crab_dir(line) + "/**"@]),
{
    let base = crab_base(line);
    let d = crab_dir(line);
    lemma_char_suffix_le(base, '/');
    lemma_plain_take(base, base.len() - char_suffix_len(base, '/'));
    lemma_plain_dir_glob(d);
    let ps = seq![d, d + "/**"@];
    assert(ps.drop_last() =~= seq![d]);
    assert(ps.drop_last().drop_last() =~= Seq::<Seq<char>>::empty());
    assert(valid_globs(Seq::<Seq<char>>::empty()) =~= Seq::<Seq<char>>::empty());
    assert(valid_globs(seq![d]) =~= seq![d]);
    assert(valid_globs(ps) =~= ps);
}

/// A `.crabtainerignore` rule whose pattern holds no glob syntax covers a
/// directory and everything under it: it is made of the globs `d` and
/// `d/**` (`d` being the pattern without trailing `/`), and it matches a
/// path exactly when the path is `d` or starts with `d/`.
pub proof fn law_plain_rule_covers_directory(line: Seq<char>, path: Seq<char>)
    requires
        plain_rule_line(line),
        plain_lines_valid(seq![line]),
    ensures
        crabtainer_rule(line) is Some,
        crabtainer_rule(line)->0.negated == (trim(line)[0] == '!'),
        crabtainer_rule(line)->0.patterns == seq![crab_dir(line), crab_dir(line) + "/**"@],
        all_simple(crabtainer_rule(line)->0.patterns),
        any_simple_match(crabtainer_rule(line)->0.patterns, path) == (path == crab_dir(line) || (
        path.len() >= crab_dir(line).len() + 1 && path.take((crab_dir(line).len() + 1) as int)
            == crab_dir(line).push('/'))),
{
    reveal_strlit("/**");
    assert(seq![line][0] == line);
    lemma_plain_rule(line);
    let d = crab_dir(line);
    let ps = seq![d, d + "/**"@];
    let q = d + "/**"@;
    assert(q.take(q.len() - 2) =~= d.push('/'));
    assert(!plain_dir_glob(d)) by {
        if plain_dir_glob(d) {
            assert(d.skip(d.len() - 3)[1] == '*');
            assert(d[d.len() - 2] == '*');
        }
    }
    lemma_plain_dir_glob(d);
    assert(plain_dir_glob(q));
    if path == d {
        assert(simple_glob_match(ps[0], path));
    }
    if path.len() >= d.len() + 1 && path.take((d.len() + 1) as int) == d.push('/') {
        assert(simple_glob_match(ps[1], path));
    }
}

/// Whether every rule line of a `.crabtainerignore` file is plain.
pub open spec fn plain_file(ls: Seq<Seq<char>>) -> bool {
    forall|k: int|
        0 <= k < ls.len() && !(trim(ls[k]).len() == 0 || trim(ls[k])[0] == '#') ==> plain_rule_line(
            #[trigger] ls[k],
        )
}

proof fn lemma_plain_rules_from(ls: Seq<Seq<char>>, i: nat)
    requires
        plain_file(ls),
        plain_lines_valid(ls),
    ensures
        simple_rules(rules_of(ls, i, true)),
    decreases ls.len() - i,
{
    if i < ls.len() {
        lemma_plain_rules_from(ls, i + 1);
        let line = ls[i as int];
        if !(trim(line).len() == 0 || trim(line)[0] == '#') {
            assert(plain_rule_line(line));
            lemma_plain_rule(line);
            let rest = rules_of(ls, i + 1, true);
            if crabtainer_rule(line) is Some {
                let all = rules_of(ls, i, true);
                assert forall|j: int| 0 <= j < all.len() implies all_simple(#[trigger] all[j].patterns) by {
                    if j > 0 {
                        assert(all[j] == rest[j - 1]);
                    }
                }
            }
        }
    }
}

/// In a `.crabtainerignore` file whose rule lines hold no glob syntax, every
/// rule is made of simple globs, so that `CrabtainerIgnore::is_ignored`
/// keeps out a path exactly when the last rule covering it (its directory
/// or anything below, see [`law_plain_rule_covers_directory`]) is not negated.
pub proof fn law_plain_file_has_simple_rules(content: Seq<char>)
    requires
        plain_file(lines(content)),
        plain_lines_valid(lines(content)),
    ensures
        simple_rules(spec_rules(Some(content), true)),
{
    lemma_plain_rules_from(lines(content), 0);
}

fn push_valid(out: &mut Vec<String>, p: String)
    requires
        forall|i: int| 0 <= i < old(out)@.len() ==> spec_glob_valid(#[trigger] old(out)@[i]@),
    ensures
        strings_view(final(out)@) == if spec_glob_valid(p@) {
            strings_view(old(out)@).push(p@)
        } else {
            strings_view(old(out)@)
        },
        forall|i: int| 0 <= i < final(out)@.len() ==> spec_glob_valid(#[trigger] final(out)@[i]@),
        simple_glob(p@) ==> spec_glob_valid(p@),
{
    if glob_is_valid(p.as_str()) {
        out.push(p);
        assert(strings_view(out@) =~= strings_view(old(out)@).push(p@));
    }
}

/// The rule whose globs are `patterns` (all accepted by globset), or none
/// when their set does not build.
fn rule_from_patterns(patterns: &Vec<String>, negated: bool) -> (r: Option<IgnoreRule>)
    requires
        forall|i: int| 0 <= i < patterns@.len() ==> spec_glob_valid(#[trigger] patterns@[i]@),
    ensures
        r is Some == spec_glob_set_builds(strings_view(patterns@)),
        all_simple(strings_view(patterns@)) ==> r is Some,
        r matches Some(rule) ==> rule@ == (RuleView { patterns: strings_view(patterns@), negated }),
{
    match build_glob_set(patterns) {
        Some(set) => Some(IgnoreRule { set, negated }),
        None => None,
    }
}

/// The rule that line `v[from..to]` makes.
fn rule_of_line(v: &Vec<char>, from: usize, to: usize, crab: bool) -> (r: Option<IgnoreRule>)
    requires
        from <= to <= v@.len(),
    ensures
        match r {
            Some(rule) => (if crab {
                crabtainer_rule(v@.subrange(from as int, to as int))
            } else {
                rustocker_rule(v@.subrange(from as int, to as int))
            }) == Some(rule@),
            None => (if crab {
                crabtainer_rule(v@.subrange(from as int, to as int))
            } else {
                rustocker_rule(v@.subrange(from as int, to as int))
            }) is None,
        },
        crab && plain_rule_line(v@.subrange(from as int, to as int)) ==> plain_line_valid(
            v@.subrange(from as int, to as int),
        ),
{
    let (a, b) = trim_span(v, from, to);
    let ghost t = v@.subrange(a as int, b as int);
    if a == b || v[a] == '#' {
        return None;
    }
    let negated = v[a] == '!';
    let ra = if negated {
        a + 1
    } else {
        a
    };
    assert(rule_text(t) =~= v@.subrange(ra as int, b as int));
    let c = skip_char(v, ra, b, '/');
    assert(trim_start_char(rule_text(t), '/') =~= v@.subrange(c as int, b as int));
    let base = string_of(v, c, b);
    if !crab {
        let wild = span_contains(v, ra, b, '*') || span_contains(v, ra, b, '?');
        let pat = if !wild {
            let mut p = string_of(v, c, b);
            push_str(&mut p, "{");
            push_str(&mut p, base.as_str());
            push_str(&mut p, ",/**}");
            p
        } else {
            base
        };
        let ghost pat_v = pat@;
        proof {
            let raw = rule_text(t);
            let base_v = trim_start_char(raw, '/');
            assert(wild == (raw.contains('*') || raw.contains('?')));
            if !wild {
                assert(pat_v =~= base_v + "{"@ + base_v + ",/**}"@);
            }
        }
        if glob_is_valid(pat.as_str()) {
            let mut patterns: Vec<String> = Vec::new();
            patterns.push(pat);
            assert(strings_view(patterns@) =~= seq![pat_v]);
            rule_from_patterns(&patterns, negated)
        } else {
            None
        }
    } else {
        let wild = span_contains(v, c, b, '*') || span_contains(v, c, b, '?');
        let mut patterns: Vec<String> = Vec::new();
        assert(strings_view(patterns@) =~= Seq::<Seq<char>>::empty());
        let ghost cands = crabtainer_candidates(v@.subrange(c as int, b as int));
        if wild {
            push_valid(&mut patterns, base);
            proof {
                assert(cands.drop_last() =~= Seq::<Seq<char>>::empty());
                assert(valid_globs(Seq::<Seq<char>>::empty()) =~= Seq::<Seq<char>>::empty());
                assert(cands.last() == base@);
                assert(strings_view(patterns@) == valid_globs(cands));
            }
        } else {
            let d = back_skip_char(v, c, b, '/');
            assert(trim_end_char(v@.subrange(c as int, b as int), '/') =~= v@.subrange(
                c as int,
                d as int,
            ));
            let dir = string_of(v, c, d);
            let mut below = string_of(v, c, d);
            push_str(&mut below, "/**");
            let ghost dir_v = dir@;
            let ghost below_v = below@;
            proof {
                if glob_plain(v@.subrange(c as int, b as int)) {
                    assert(dir_v =~= v@.subrange(c as int, b as int).take(d - c));
                    lemma_plain_take(v@.subrange(c as int, b as int), d - c);
                    lemma_plain_dir_glob(dir_v);
                }
            }
            push_valid(&mut patterns, dir);
            proof {
                let d1 = cands.drop_last();
                assert(d1 =~= seq![dir@]);
                assert(d1.drop_last() =~= Seq::<Seq<char>>::empty());
                assert(valid_globs(Seq::<Seq<char>>::empty()) =~= Seq::<Seq<char>>::empty());
                assert(valid_globs(d1) == if spec_glob_valid(dir@) {
                    valid_globs(d1.drop_last()).push(dir@)
                } else {
                    valid_globs(d1.drop_last())
                });
                assert(strings_view(patterns@) =~= valid_globs(d1));
            }
            push_valid(&mut patterns, below);
            proof {
                assert(cands.drop_last().drop_last() =~= Seq::<Seq<char>>::empty());
                assert(valid_globs(Seq::<Seq<char>>::empty()) =~= Seq::<Seq<char>>::empty());
                assert(cands.drop_last() =~= seq![cands[0]]);
                assert(cands.drop_last().last() == dir@);
                assert(cands.last() == below@);
                assert(strings_view(patterns@) == valid_globs(cands));
                if glob_plain(v@.subrange(c as int, b as int)) {
                    assert(strings_view(patterns@) =~= seq![dir_v, below_v]);
                    assert(all_simple(seq![dir_v, below_v])) by {
                        lemma_plain_dir_glob(dir_v);
                    }
                }
            }
        }
        proof {
            if plain_rule_line(v@.subrange(from as int, to as int)) {
                assert(!wild);
            }
        }
        rule_from_patterns(&patterns, negated)
    }
}

/// Whether globset accepts both globs of a plain `.crabtainerignore` line
/// (the directory, and everything below it) and builds their set.
pub open spec fn plain_line_valid(line: Seq<char>) -> bool {
    &&& spec_glob_valid(crab_dir(line))
    &&& spec_glob_valid(crab_dir(line) + "/**"@)
    &&& spec_glob_set_builds(seq![crab_dir(line), crab_dir(line) + "/**"@])
}

/// Whether every plain `.crabtainerignore` line of `ls` is valid.
pub open spec fn plain_lines_valid(ls: Seq<Seq<char>>) -> bool {
    forall|k: int| 0 <= k < ls.len() && plain_rule_line(#[trigger] ls[k]) ==> plain_line_valid(ls[k])
}

/// The rules of an ignore file's content.
fn rules_from(content: Option<&str>, crab: bool) -> (r: Vec<IgnoreRule>)
    ensures
        rules_view(r@) == spec_rules(
            match content {
                Some(c) => Some(c@),
                None => None,
            },
            crab,
        ),
        crab && content is Some ==> plain_lines_valid(lines(content->0@)),
{
    let mut out: Vec<IgnoreRule> = Vec::new();
    match content {
        None => {
            assert(rules_view(out@) =~= Seq::<RuleView>::empty());
            out
        },
        Some(c) => {
            let v = chars_of(c);
            let spans = line_spans(&v);
            let ghost ls = lines(v@);
            let mut i: usize = 0;
            assert(rules_view(out@) =~= Seq::<RuleView>::empty());
            while i < spans.len()
                invariant
                    v@ == c@,
                    ls == lines(v@),
                    spans@.len() == ls.len(),
                    forall|k: int|
                        0 <= k < spans@.len() ==> {
                            &&& (#[trigger] spans@[k]).0 <= spans@[k].1 <= v@.len()
                            &&& v@.subrange(spans@[k].0 as int, spans@[k].1 as int) == ls[k]
                        },
                    i <= spans@.len(),
                    rules_view(out@) + rules_of(ls, i as nat, crab) == rules_of(ls, 0, crab),
                    crab ==> forall|k: int|
                        0 <= k < i && plain_rule_line(#[trigger] ls[k]) ==> plain_line_valid(ls[k]),
                decreases spans@.len() - i,
            {
                let (a, b) = spans[i];
                let ghost before = rules_view(out@);
                match rule_of_line(&v, a, b, crab) {
                    Some(rule) => {
                        out.push(rule);
                        assert(rules_view(out@) =~= before.push(rule@));
                        assert(before + rules_of(ls, i as nat, crab) =~= rules_view(out@)
                            + rules_of(ls, (i + 1) as nat, crab));
                    },
                    None => {},
                }
                i += 1;
            }
            assert(rules_view(out@) + Seq::<RuleView>::empty() =~= rules_view(out@));
            out
        },
    }
}

/// Which of `rules` match `path`, rule by rule.
pub open spec fn matches_of(rules: Seq<RuleView>, path: Seq<char>) -> Seq<bool> {
    rules.map_values(|r: RuleView| rule_matches(r, path))
}

/// Which of `rules` are negated, rule by rule.
pub open spec fn negations_of(rules: Seq<RuleView>) -> Seq<bool> {
    rules.map_values(|r: RuleView| r.negated)
}

/// The verdict on a path of rules that are negated as `negated` says and
/// match it as `matched` says (entry `i` for rule `i`): the last rule that
/// matches decides.
pub open spec fn verdict(negated: Seq<bool>, matched: Seq<bool>) -> bool
    decreases negated.len(),
{
    if negated.len() == 0 || matched.len() == 0 {
        false
    } else if matched.last() {
        !negated.last()
    } else {
        verdict(negated.drop_last(), matched.drop_last())
    }
}

/// Whether every glob of every rule is simple.
pub open spec fn simple_rules(rules: Seq<RuleView>) -> bool {
    forall|i: int| 0 <= i < rules.len() ==> all_simple(#[trigger] rules[i].patterns)
}

/// Which of `rules` match `path`, their globs read as simple globs.
pub open spec fn simple_matches_of(rules: Seq<RuleView>, path: Seq<char>) -> Seq<bool> {
    rules.map_values(|r: RuleView| any_simple_match(r.patterns, path))
}

/// The verdict of rules of simple globs on `path`: the last rule that
/// matches decides, a plain glob matching the path spelled the same and a
/// plain `d/**` every path under `d/`.
pub open spec fn simple_ignored_by(rules: Seq<RuleView>, path: Seq<char>) -> bool {
    verdict(negations_of(rules), simple_matches_of(rules, path))
}

proof fn lemma_verdict_of_matches(rules: Seq<RuleView>, path: Seq<char>)
    ensures
        verdict(negations_of(rules), matches_of(rules, path)) == ignored_by(rules, path),
    decreases rules.len(),
{
    if rules.len() > 0 {
        assert(matches_of(rules, path).drop_last() =~= matches_of(rules.drop_last(), path));
        assert(negations_of(rules).drop_last() =~= negations_of(rules.drop_last()));
        lemma_verdict_of_matches(rules.drop_last(), path);
    }
}

/// The verdict of ignore rules on a path, given for each rule whether it is
/// negated and whether it matches the path: the last rule that matches
/// keeps the path out, unless it is negated; when none matches, the path is
/// kept.
pub fn rules_verdict(negated: &Vec<bool>, matched: &Vec<bool>) -> (r: bool)
    requires
        matched@.len() == negated@.len(),
    ensures
        r == verdict(negated@, matched@),
{
    let n = negated.len();
    let mut i: usize = 0;
    let mut ignored = false;
    while i < n
        invariant
            n == negated@.len(),
            n == matched@.len(),
            i <= n,
            ignored == verdict(negated@.take(i as int), matched@.take(i as int)),
        decreases n - i,
    {
        proof {
            assert(negated@.take(i + 1).drop_last() =~= negated@.take(i as int));
            assert(matched@.take(i + 1).drop_last() =~= matched@.take(i as int));
        }
        if matched[i] {
            ignored = !negated[i];
        }
        i += 1;
    }
    assert(negated@.take(n as int) =~= negated@);
    assert(matched@.take(n as int) =~= matched@);
    ignored
}

/// Whether `rules` keep `path` out (see [`ignored_by`]).
fn ignored_by_rules(rules: &Vec<IgnoreRule>, path: &str) -> (r: bool)
    ensures
        r == ignored_by(rules_view(rules@), path@),
        simple_rules(rules_view(rules@)) ==> r == simple_ignored_by(rules_view(rules@), path@),
{
    let n = rules.len();
    let mut negated: Vec<bool> = Vec::new();
    let mut matched: Vec<bool> = Vec::new();
    let mut i: usize = 0;
    while i < n
        invariant
            n == rules@.len(),
            i <= n,
            negated@ =~= negations_of(rules_view(rules@)).take(i as int),
            matched@ =~= matches_of(rules_view(rules@), path@).take(i as int),
            simple_rules(rules_view(rules@)) ==> matched@ =~= simple_matches_of(
                rules_view(rules@),
                path@,
            ).take(i as int),
        decreases n - i,
    {
        let rule = &rules[i];
        negated.push(rule.negated);
        proof {
            assert(rules_view(rules@)[i as int] == rule@);
            if simple_rules(rules_view(rules@)) {
                assert(all_simple(rules_view(rules@)[i as int].patterns));
            }
        }
        matched.push(glob_set_matches(&rule.set, path));
        i += 1;
    }
    proof {
        assert(negations_of(rules_view(rules@)).take(n as int) =~= negations_of(
            rules_view(rules@),
        ));
        assert(matches_of(rules_view(rules@), path@).take(n as int) =~= matches_of(
            rules_view(rules@),
            path@,
        ));
        lemma_verdict_of_matches(rules_view(rules@), path@);
        if simple_rules(rules_view(rules@)) {
            assert(simple_matches_of(rules_view(rules@), path@).take(n as int) =~= simple_matches_of(
                rules_view(rules@),
                path@,
            ));
        }
    }
    rules_verdict(&negated, &matched)
}

/// The `.rustockerignore` rules of a build context rooted at `root`.
pub struct RustockerIgnore {
    rules: Vec<IgnoreRule>,
    root: String,
}

impl RustockerIgnore {
    pub closed spec fn rules(&self) -> Seq<RuleView> {
        rules_view(self.rules@)
    }

    pub closed spec fn root_path(&self) -> Seq<char> {
        self.root@
    }

    /// The rules for the build context at `root`; `ignore_file` is the
    /// content of its `.rustockerignore`, or `None` when it cannot be read
    /// (then nothing but the ignore file itself is ignored).
    pub fn new(root: &str, ignore_file: Option<&str>) -> (r: RustockerIgnore)
        ensures
            r.rules() == spec_rules(
                match ignore_file {
                    Some(c) => Some(c@),
                    None => None,
                },
                false,
            ),
            r.root_path() == root@,
    {
        RustockerIgnore { rules: rules_from(ignore_file, false), root: string_from(root) }
    }

    /// Whether `relative_path` is kept out: the ignore file itself always is;
    /// otherwise the last rule that matches decides.
    pub fn is_ignored(&self, relative_path: &str) -> (r: bool)
        ensures
            r == (spec_path_eq(relative_path@, ".rustockerignore"@) || ignored_by(
                self.rules(),
                relative_path@,
            )),
    {
        if same_path(relative_path, ".rustockerignore") {
            return true;
        }
        ignored_by_rules(&self.rules, relative_path)
    }

    /// The root of the build context.
    pub fn root(&self) -> (r: &str)
        ensures
            r@ == self.root_path(),
    {
        self.root.as_str()
    }
}

/// The `.crabtainerignore` rules of a build context rooted at `root`.
pub struct CrabtainerIgnore {
    rules: Vec<IgnoreRule>,
    root: String,
}

impl CrabtainerIgnore {
    pub closed spec fn rules(&self) -> Seq<RuleView> {
        rules_view(self.rules@)
    }

    pub closed spec fn root_path(&self) -> Seq<char> {
        self.root@
    }

    /// The rules for the build context at `root`; `ignore_file` is the
    /// content of its ignore file, or `None` when it cannot be read.
    pub fn new(root: &str, ignore_file: Option<&str>) -> (r: CrabtainerIgnore)
        ensures
            r.rules() == spec_rules(
                match ignore_file {
                    Some(c) => Some(c@),
                    None => None,
                },
                true,
            ),
            r.root_path() == root@,
            ignore_file is Some ==> plain_lines_valid(lines(ignore_file->0@)),
    {
        CrabtainerIgnore { rules: rules_from(ignore_file, true), root: string_from(root) }
    }

    /// Whether `relative_path` is kept out: the ignore file itself always is;
    /// otherwise the last rule that matches decides.
    pub fn is_ignored(&self, relative_path: &str) -> (r: bool)
        ensures
            r == (spec_path_eq(relative_path@, "../../../../../../.crabtainerignore"@)
                || ignored_by(self.rules(), relative_path@)),
            simple_rules(self.rules()) ==> r == (spec_path_eq(
                relative_path@,
                "../../../../../../.crabtainerignore"@,
            ) || simple_ignored_by(self.rules(), relative_path@)),
    {
        if same_path(relative_path, "../../../../../../.crabtainerignore") {
            return true;
        }
        ignored_by_rules(&self.rules, relative_path)
    }

    /// The root of the build context.
    pub fn root(&self) -> (r: &str)
        ensures
            r@ == self.root_path(),
    {
        self.root.as_str()
    }
}

} // verus!

//! Character-level text helpers shared by the parsers: whitespace, trimming,
//! line and word splitting, and decimal numbers.
use vstd::prelude::*;
use vstd::string::StringExecFns;

verus! {

/// Unicode `White_Space` characters, as `char::is_whitespace` accepts them.
pub open spec fn is_ws(c: char) -> bool {
    ||| c == '\t' || c == '\n' || c == '\x0B' || c == '\x0C' || c == '\r' || c == ' '
    ||| c == '\u{85}' || c == '\u{A0}' || c == '\u{1680}'
    ||| ('\u{2000}' <= c && c <= '\u{200A}')
    ||| c == '\u{2028}' || c == '\u{2029}' || c == '\u{202F}' || c == '\u{205F}'
    ||| c == '\u{3000}'
}

/// `char::is_whitespace`.
pub fn is_whitespace_char(c: char) -> (r: bool)
    ensures
        r == is_ws(c),
{
    c == '\t' || c == '\n' || c == '\x0B' || c == '\x0C' || c == '\r' || c == ' ' || c
        == '\u{85}' || c == '\u{A0}' || c == '\u{1680}' || ('\u{2000}' <= c && c <= '\u{200A}')
        || c == '\u{2028}' || c == '\u{2029}' || c == '\u{202F}' || c == '\u{205F}' || c
        == '\u{3000}'
}

/// Number of whitespace characters at the start of `s`.
pub open spec fn ws_prefix_len(s: Seq<char>) -> nat
    decreases s.len(),
{
    if s.len() > 0 && is_ws(s[0]) {
        1 + ws_prefix_len(s.drop_first())
    } else {
        0
    }
}

/// Number of non-whitespace characters at the start of `s`.
pub open spec fn word_prefix_len(s: Seq<char>) -> nat
    decreases s.len(),
{
    if s.len() > 0 && !is_ws(s[0]) {
        1 + word_prefix_len(s.drop_first())
    } else {
        0
    }
}

/// Number of characters before the first `c` in `s` (all of `s` when there is none).
pub open spec fn len_before(s: Seq<char>, c: char) -> nat
    decreases s.len(),
{
    if s.len() > 0 && s[0] != c {
        1 + len_before(s.drop_first(), c)
    } else {
        0
    }
}

/// Number of whitespace characters at the end of `s`.
pub open spec fn ws_suffix_len(s: Seq<char>) -> nat
    decreases s.len(),
{
    if s.len() > 0 && is_ws(s.last()) {
        1 + ws_suffix_len(s.drop_last())
    } else {
        0
    }
}

/// `str::trim`: `s` without leading and trailing whitespace.
pub open spec fn trim(s: Seq<char>) -> Seq<char> {
    let rest = s.skip(ws_prefix_len(s) as int);
    rest.take(rest.len() - ws_suffix_len(rest))
}

/// `str::split_whitespace`: the maximal runs of non-whitespace characters.
pub open spec fn words(s: Seq<char>) -> Seq<Seq<char>>
    decreases s.len(),
{
    if s.len() == 0 {
        Seq::empty()
    } else if is_ws(s[0]) {
        words(s.drop_first())
    } else {
        let k = word_prefix_len(s);
        proof {
            lemma_word_prefix_le(s);
        }
        if k == 0 {
            Seq::empty()
        } else {
            seq![s.take(k as int)] + words(s.skip(k as int))
        }
    }
}

/// A line without the `'\r'` that ends it, if any.
pub open spec fn strip_cr(l: Seq<char>) -> Seq<char> {
    if l.len() > 0 && l.last() == '\r' {
        l.drop_last()
    } else {
        l
    }
}

/// `str::lines`: pieces between `'\n'`, each without a final `'\r'`; no
/// empty piece after a final `'\n'`. A last piece without `'\n'` is kept as it is.
pub open spec fn lines(s: Seq<char>) -> Seq<Seq<char>>
    decreases s.len(),
{
    if s.len() == 0 {
        Seq::empty()
    } else {
        let k = len_before(s, '\n');
        if k >= s.len() {
            seq![s]
        } else {
            seq![strip_cr(s.take(k as int))] + lines(s.skip(k + 1 as int))
        }
    }
}

/// `s` with every `"\r\n"` read as `'\n'`.
pub open spec fn crlf_as_lf(s: Seq<char>) -> Seq<char>
    decreases s.len(),
{
    if s.len() == 0 {
        Seq::empty()
    } else if s.len() >= 2 && s[0] == '\r' && s[1] == '\n' {
        seq!['\n'] + crlf_as_lf(s.skip(2))
    } else {
        seq![s[0]] + crlf_as_lf(s.drop_first())
    }
}

/// `s` without one final `'\n'`, if it ends with one.
pub open spec fn drop_final_lf(s: Seq<char>) -> Seq<char> {
    if s.len() > 0 && s.last() == '\n' {
        s.drop_last()
    } else {
        s
    }
}

/// The pieces `ls` joined with `'\n'` between them.
pub open spec fn join_lines(ls: Seq<Seq<char>>) -> Seq<char>
    decreases ls.len(),
{
    if ls.len() == 0 {
        Seq::empty()
    } else if ls.len() == 1 {
        ls[0]
    } else {
        ls[0] + seq!['\n'] + join_lines(ls.drop_first())
    }
}

proof fn lemma_crlf_no_lf(s: Seq<char>)
    requires
        !s.contains('\n'),
    ensures
        crlf_as_lf(s) == s,
    decreases s.len(),
{
    if s.len() > 0 {
        if s.len() >= 2 {
            assert(s[1] != '\n') by {
                assert(s.contains(s[1]));
            }
        }
        assert(!s.drop_first().contains('\n')) by {
            if s.drop_first().contains('\n') {
                let i = choose|i: int| 0 <= i < s.drop_first().len() && s.drop_first()[i] == '\n';
                assert(s[i + 1] == '\n');
            }
        }
        lemma_crlf_no_lf(s.drop_first());
        assert(s =~= seq![s[0]] + s.drop_first());
    }
}

proof fn lemma_crlf_line(a: Seq<char>, r: Seq<char>)
    requires
        !a.contains('\n'),
    ensures
        crlf_as_lf(a + seq!['\n'] + r) == strip_cr(a) + seq!['\n'] + crlf_as_lf(r),
    decreases a.len(),
{
    let s = a + seq!['\n'] + r;
    if a.len() == 0 {
        assert(s =~= seq!['\n'] + r);
        assert(s.drop_first() =~= r);
        assert(strip_cr(a) + seq!['\n'] + crlf_as_lf(r) =~= seq!['\n'] + crlf_as_lf(r));
    } else if a.len() == 1 {
        if a[0] == '\r' {
            assert(s.skip(2) =~= r);
            assert(strip_cr(a) =~= Seq::<char>::empty());
            assert(strip_cr(a) + seq!['\n'] + crlf_as_lf(r) =~= seq!['\n'] + crlf_as_lf(r));
        } else {
            assert(s.drop_first() =~= seq!['\n'] + r);
            lemma_crlf_line(Seq::<char>::empty(), r);
            assert(Seq::<char>::empty() + seq!['\n'] + r =~= seq!['\n'] + r);
            assert(strip_cr(Seq::<char>::empty()) =~= Seq::<char>::empty());
            assert(strip_cr(a) + seq!['\n'] + crlf_as_lf(r) =~= seq![a[0]] + (seq!['\n']
                + crlf_as_lf(r)));
        }
    } else {
        assert(a[1] != '\n') by {
            assert(a.contains(a[1]));
        }
        let t = a.drop_first();
        assert(!t.contains('\n')) by {
            if t.contains('\n') {
                let i = choose|i: int| 0 <= i < t.len() && t[i] == '\n';
                assert(a[i + 1] == '\n');
            }
        }
        lemma_crlf_line(t, r);
        assert(s.drop_first() =~= t + seq!['\n'] + r);
        assert(strip_cr(a) =~= seq![a[0]] + strip_cr(t));
        assert(strip_cr(a) + seq!['\n'] + crlf_as_lf(r) =~= seq![a[0]] + (strip_cr(t) + seq![
            '\n',
        ] + crlf_as_lf(r)));
    }
}

proof fn lemma_len_before(s: Seq<char>, c: char)
    ensures
        len_before(s, c) <= s.len(),
        forall|i: int| 0 <= i < len_before(s, c) ==> s[i] != c,
        len_before(s, c) < s.len() ==> s[len_before(s, c) as int] == c,
    decreases s.len(),
{
    if s.len() > 0 && s[0] != c {
        lemma_len_before(s.drop_first(), c);
        assert forall|i: int| 0 <= i < len_before(s, c) implies s[i] != c by {
            if i > 0 {
                assert(s[i] == s.drop_first()[i - 1]);
            }
        }
    }
}

/// Splitting into lines keeps every character but the line breaks: the
/// lines joined with `'\n'` give back the text with each `"\r\n"` read as
/// `'\n'` and one final `'\n'` dropped; no line holds a `'\n'`; and only
/// the empty text has no line (a text without `'\n'` is one line).
pub proof fn law_lines_keep_the_text(s: Seq<char>)
    ensures
        join_lines(lines(s)) == drop_final_lf(crlf_as_lf(s)),
        forall|i: int| 0 <= i < lines(s).len() ==> !(#[trigger] lines(s)[i]).contains('\n'),
        lines(s).len() == 0 <==> s.len() == 0,
        !s.contains('\n') && s.len() > 0 ==> lines(s) == seq![s],
    decreases s.len(),
{
    if s.len() > 0 {
        let k = len_before(s, '\n');
        lemma_len_before(s, '\n');
        if k >= s.len() {
            assert(!s.contains('\n'));
            lemma_crlf_no_lf(s);
        } else {
            let a = s.take(k as int);
            let r = s.skip(k + 1 as int);
            assert(!a.contains('\n'));
            assert(s.contains(s[k as int]));
            assert(s =~= a + seq!['\n'] + r);
            law_lines_keep_the_text(r);
            lemma_crlf_line(a, r);
            let x = crlf_as_lf(r);
            let sa = strip_cr(a);
            assert(!sa.contains('\n')) by {
                if sa.contains('\n') {
                    let i = choose|i: int| 0 <= i < sa.len() && sa[i] == '\n';
                    assert(a[i] == '\n');
                }
            }
            let ls = lines(s);
            assert(ls == seq![sa] + lines(r));
            if r.len() == 0 {
                assert(lines(r) =~= Seq::<Seq<char>>::empty());
                assert(ls =~= seq![sa]);
                assert(x =~= Seq::<char>::empty());
                assert(sa + seq!['\n'] + x =~= sa.push('\n'));
                assert((sa + seq!['\n'] + x).drop_last() =~= sa);
            } else {
                assert(x.len() > 0);
                assert(ls.drop_first() =~= lines(r));
                assert(ls.len() >= 2);
                assert((sa + seq!['\n'] + x).last() == x.last());
                if x.last() == '\n' {
                    assert((sa + seq!['\n'] + x).drop_last() =~= sa + seq!['\n'] + x.drop_last());
                }
            }
            assert forall|i: int| 0 <= i < ls.len() implies !(#[trigger] ls[i]).contains('\n') by {
                if i > 0 {
                    assert(ls[i] == lines(r)[i - 1]);
                }
            }
        }
    }
}

/// The decimal digit character for `d < 10`.
pub open spec fn digit_char(d: nat) -> char {
    if d == 0 { '0' }
    else if d == 1 { '1' }
    else if d == 2 { '2' }
    else if d == 3 { '3' }
    else if d == 4 { '4' }
    else if d == 5 { '5' }
    else if d == 6 { '6' }
    else if d == 7 { '7' }
    else if d == 8 { '8' }
    else { '9' }
}

/// Decimal notation of `n`, without leading zeros.
pub open spec fn decimal(n: nat) -> Seq<char>
    decreases n,
{
    if n < 10 {
        seq![digit_char(n)]
    } else {
        decimal(n / 10).push(digit_char(n % 10))
    }
}

/// Decimal notation of a signed integer, as `Display` writes it.
pub open spec fn signed_decimal(n: int) -> Seq<char> {
    if n < 0 {
        seq!['-'] + decimal((-n) as nat)
    } else {
        decimal(n as nat)
    }
}

/// Unicode upper-case mapping of a string, as `str::to_uppercase` computes it.
pub uninterp spec fn spec_to_uppercase(s: Seq<char>) -> Seq<char>;

/// Unicode lower-case mapping of a string, as `str::to_lowercase` computes it.
pub uninterp spec fn spec_to_lowercase(s: Seq<char>) -> Seq<char>;

/// Whether every character of `s` is ASCII.
pub open spec fn is_ascii_text(s: Seq<char>) -> bool {
    forall|i: int| 0 <= i < s.len() ==> (#[trigger] s[i] as int) < 128
}

/// `c` with an ASCII small letter made a capital.
pub open spec fn ascii_upper_char(c: char) -> char {
    if 'a' <= c && c <= 'z' {
        ((c as int) - 32) as char
    } else {
        c
    }
}

/// `c` with an ASCII capital made a small letter.
pub open spec fn ascii_lower_char(c: char) -> char {
    if 'A' <= c && c <= 'Z' {
        ((c as int) + 32) as char
    } else {
        c
    }
}

/// `s` with its ASCII small letters made capitals.
pub open spec fn ascii_upper(s: Seq<char>) -> Seq<char> {
    s.map_values(|c: char| ascii_upper_char(c))
}

/// `s` with its ASCII capitals made small letters.
pub open spec fn ascii_lower(s: Seq<char>) -> Seq<char> {
    s.map_values(|c: char| ascii_lower_char(c))
}

/// The upper-case mapping of `s`: on ASCII text, small letters become
/// capitals and nothing else changes; beyond ASCII it is Unicode's mapping.
pub open spec fn case_upper(s: Seq<char>) -> Seq<char> {
    if is_ascii_text(s) {
        ascii_upper(s)
    } else {
        spec_to_uppercase(s)
    }
}

/// The lower-case mapping of `s`: on ASCII text, capitals become small
/// letters and nothing else changes; beyond ASCII it is Unicode's mapping.
pub open spec fn case_lower(s: Seq<char>) -> Seq<char> {
    if is_ascii_text(s) {
        ascii_lower(s)
    } else {
        spec_to_lowercase(s)
    }
}

/// `str::to_uppercase`. On ASCII text it maps `a`..`z` to `A`..`Z` and keeps
/// every other character (Unicode's mapping agrees with ASCII's there);
/// beyond ASCII the result is named by `spec_to_uppercase`, and the Unicode
/// case tables are not stated here.
#[verifier::external_body]
pub(crate) fn to_uppercase(s: &str) -> (r: String)
    ensures
        r@ == spec_to_uppercase(s@),
        is_ascii_text(s@) ==> r@ == ascii_upper(s@),
{
    s.to_uppercase()
}

/// `str::to_lowercase`. On ASCII text it maps `A`..`Z` to `a`..`z` and keeps
/// every other character; beyond ASCII the result is named by
/// `spec_to_lowercase`, and the Unicode case tables are not stated here.
#[verifier::external_body]
pub(crate) fn to_lowercase(s: &str) -> (r: String)
    ensures
        r@ == spec_to_lowercase(s@),
        is_ascii_text(s@) ==> r@ == ascii_lower(s@),
{
    s.to_lowercase()
}

/// The characters of `s`, in order.
pub fn chars_of(s: &str) -> (v: Vec<char>)
    ensures
        v@ == s@,
{
    let mut v: Vec<char> = Vec::new();
    for c in it: s.chars()
        invariant
            v@ == it.seq().take(it.index()),
    {
        v.push(c);
    }
    v
}

/// `String::push`: appends one character.
#[verifier::external_body]
pub(crate) fn string_push(s: &mut String, c: char)
    ensures
        final(s)@ == old(s)@.push(c),
{
    s.push(c);
}

/// Appends `t` to `s`.
pub fn push_str(s: &mut String, t: &str)
    ensures
        final(s)@ == old(s)@ + t@,
{
    s.append(t);
}

/// A new string holding `t`.
pub fn string_from(t: &str) -> (s: String)
    ensures
        s@ == t@,
{
    let mut s = String::new();
    s.append(t);
    s
}

/// The string made of the characters `v[from..to]`.
pub fn string_of(v: &Vec<char>, from: usize, to: usize) -> (s: String)
    requires
        from <= to <= v@.len(),
    ensures
        s@ == v@.subrange(from as int, to as int),
{
    let mut s = String::new();
    let mut i = from;
    while i < to
        invariant
            from <= i <= to <= v@.len(),
            s@ == v@.subrange(from as int, i as int),
        decreases to - i,
    {
        string_push(&mut s, v[i]);
        assert(v@.subrange(from as int, i + 1) == v@.subrange(from as int, i as int).push(
            v@[i as int],
        ));
        i += 1;
    }
    s
}

/// Whether `v[from..to]` holds exactly the characters of `t`.
pub fn span_eq(v: &Vec<char>, from: usize, to: usize, t: &Vec<char>) -> (r: bool)
    requires
        from <= to <= v@.len(),
    ensures
        r == (v@.subrange(from as int, to as int) == t@),
{
    if to - from != t.len() {
        return false;
    }
    let mut i: usize = 0;
    while i < t.len()
        invariant
            from <= to <= v@.len(),
            to - from == t@.len(),
            i <= t@.len(),
            forall|j: int| 0 <= j < i ==> v@[from + j] == t@[j],
        decreases t.len() - i,
    {
        if v[from + i] != t[i] {
            assert(v@.subrange(from as int, to as int)[i as int] != t@[i as int]);
            return false;
        }
        i += 1;
    }
    assert(v@.subrange(from as int, to as int) =~= t@);
    true
}

/// Whether two strings hold the same characters.
pub fn str_eq(a: &str, b: &str) -> (r: bool)
    ensures
        r == (a@ == b@),
{
    let va = chars_of(a);
    let vb = chars_of(b);
    assert(va@.subrange(0, va@.len() as int) =~= va@);
    span_eq(&va, 0, va.len(), &vb)
}

/// Whether `c` occurs in `v[from..to]`.
pub fn span_contains(v: &Vec<char>, from: usize, to: usize, c: char) -> (r: bool)
    requires
        from <= to <= v@.len(),
    ensures
        r == v@.subrange(from as int, to as int).contains(c),
{
    let mut i = from;
    while i < to
        invariant
            from <= i <= to <= v@.len(),
            forall|j: int| from <= j < i ==> v@[j] != c,
        decreases to - i,
    {
        if v[i] == c {
            assert(v@.subrange(from as int, to as int)[i - from] == c);
            return true;
        }
        i += 1;
    }
    assert forall|j: int| 0 <= j < to - from implies v@.subrange(from as int, to as int)[j]
        != c by {
        assert(v@.subrange(from as int, to as int)[j] == v@[from + j]);
    }
    false
}


/// Number of leading `c` characters of `s`.
pub open spec fn char_prefix_len(s: Seq<char>, c: char) -> nat
    decreases s.len(),
{
    if s.len() > 0 && s[0] == c {
        1 + char_prefix_len(s.drop_first(), c)
    } else {
        0
    }
}

/// Number of trailing `c` characters of `s`.
pub open spec fn char_suffix_len(s: Seq<char>, c: char) -> nat
    decreases s.len(),
{
    if s.len() > 0 && s.last() == c {
        1 + char_suffix_len(s.drop_last(), c)
    } else {
        0
    }
}

/// `str::trim_start_matches(c)`.
pub open spec fn trim_start_char(s: Seq<char>, c: char) -> Seq<char> {
    s.skip(char_prefix_len(s, c) as int)
}

/// `str::trim_end_matches(c)`.
pub open spec fn trim_end_char(s: Seq<char>, c: char) -> Seq<char> {
    s.take(s.len() - char_suffix_len(s, c))
}

/// Index just past the run of `c` that starts at `from` in `v[..to]`.
pub fn skip_char(v: &Vec<char>, from: usize, to: usize, c: char) -> (r: usize)
    requires
        from <= to <= v@.len(),
    ensures
        r == from + char_prefix_len(v@.subrange(from as int, to as int), c),
        r <= to,
{
    let ghost s = v@.subrange(from as int, to as int);
    let mut i = from;
    assert(s.skip(0) =~= s);
    while i < to && v[i] == c
        invariant
            from <= i <= to <= v@.len(),
            s == v@.subrange(from as int, to as int),
            char_prefix_len(s, c) == (i - from) + char_prefix_len(s.skip(i - from), c),
        decreases to - i,
    {
        proof {
            assert(s.skip(i - from).drop_first() =~= s.skip(i - from + 1));
        }
        i += 1;
    }
    proof {
        assert(s.skip(i - from).len() == 0 || s.skip(i - from)[0] != c);
    }
    i
}

/// Start of the run of `c` that ends at `to` in `v[from..]`.
pub fn back_skip_char(v: &Vec<char>, from: usize, to: usize, c: char) -> (r: usize)
    requires
        from <= to <= v@.len(),
    ensures
        r + char_suffix_len(v@.subrange(from as int, to as int), c) == to,
        from <= r,
{
    let ghost s = v@.subrange(from as int, to as int);
    let mut j = to;
    assert(s.take(to - from) =~= s);
    while j > from && v[j - 1] == c
        invariant
            from <= j <= to <= v@.len(),
            s == v@.subrange(from as int, to as int),
            char_suffix_len(s, c) == (to - j) + char_suffix_len(s.take(j - from), c),
        decreases j - from,
    {
        proof {
            assert(s.take(j - from).drop_last() =~= s.take(j - from - 1));
        }
        j -= 1;
    }
    proof {
        assert(s.take(j - from).len() == 0 || s.take(j - from).last() != c);
    }
    j
}

pub proof fn lemma_char_prefix_le(s: Seq<char>, c: char)
    ensures
        char_prefix_len(s, c) <= s.len(),
    decreases s.len(),
{
    if s.len() > 0 && s[0] == c {
        lemma_char_prefix_le(s.drop_first(), c);
    }
}

pub proof fn lemma_char_suffix_le(s: Seq<char>, c: char)
    ensures
        char_suffix_len(s, c) <= s.len(),
    decreases s.len(),
{
    if s.len() > 0 && s.last() == c {
        lemma_char_suffix_le(s.drop_last(), c);
    }
}

pub proof fn lemma_word_prefix_le(s: Seq<char>)
    ensures
        word_prefix_len(s) <= s.len(),
    decreases s.len(),
{
    if s.len() > 0 && !is_ws(s[0]) {
        lemma_word_prefix_le(s.drop_first());
    }
}

pub proof fn lemma_ws_prefix_step(s: Seq<char>, i: int)
    requires
        0 <= i < s.len(),
        is_ws(s[i]),
    ensures
        ws_prefix_len(s.skip(i)) == 1 + ws_prefix_len(s.skip(i + 1)),
{
    assert(s.skip(i).drop_first() =~= s.skip(i + 1));
}

pub proof fn lemma_word_prefix_step(s: Seq<char>, i: int)
    requires
        0 <= i < s.len(),
        !is_ws(s[i]),
    ensures
        word_prefix_len(s.skip(i)) == 1 + word_prefix_len(s.skip(i + 1)),
{
    assert(s.skip(i).drop_first() =~= s.skip(i + 1));
}

pub proof fn lemma_len_before_step(s: Seq<char>, i: int, c: char)
    requires
        0 <= i < s.len(),
        s[i] != c,
    ensures
        len_before(s.skip(i), c) == 1 + len_before(s.skip(i + 1), c),
{
    assert(s.skip(i).drop_first() =~= s.skip(i + 1));
}

pub proof fn lemma_ws_suffix_step(s: Seq<char>, j: int)
    requires
        0 < j <= s.len(),
        is_ws(s[j - 1]),
    ensures
        ws_suffix_len(s.take(j)) == 1 + ws_suffix_len(s.take(j - 1)),
{
    assert(s.take(j).drop_last() =~= s.take(j - 1));
}

/// Index just past the whitespace run that starts at `from` in `v[..to]`.
pub fn skip_ws(v: &Vec<char>, from: usize, to: usize) -> (r: usize)
    requires
        from <= to <= v@.len(),
    ensures
        r == from + ws_prefix_len(v@.subrange(from as int, to as int)),
        r <= to,
{
    let ghost s = v@.subrange(from as int, to as int);
    let mut i = from;
    assert(s.skip(0) =~= s);
    while i < to && is_whitespace_char(v[i])
        invariant
            from <= i <= to <= v@.len(),
            s == v@.subrange(from as int, to as int),
            ws_prefix_len(s) == (i - from) + ws_prefix_len(s.skip(i - from)),
        decreases to - i,
    {
        proof {
            lemma_ws_prefix_step(s, i - from);
        }
        i += 1;
    }
    proof {
        assert(s.skip(i - from).len() == 0 || !is_ws(s.skip(i - from)[0]));
    }
    i
}

/// Index just past the non-whitespace run that starts at `from` in `v[..to]`.
pub fn skip_word(v: &Vec<char>, from: usize, to: usize) -> (r: usize)
    requires
        from <= to <= v@.len(),
    ensures
        r == from + word_prefix_len(v@.subrange(from as int, to as int)),
        r <= to,
{
    let ghost s = v@.subrange(from as int, to as int);
    let mut i = from;
    assert(s.skip(0) =~= s);
    while i < to && !is_whitespace_char(v[i])
        invariant
            from <= i <= to <= v@.len(),
            s == v@.subrange(from as int, to as int),
            word_prefix_len(s) == (i - from) + word_prefix_len(s.skip(i - from)),
        decreases to - i,
    {
        proof {
            lemma_word_prefix_step(s, i - from);
        }
        i += 1;
    }
    proof {
        assert(s.skip(i - from).len() == 0 || is_ws(s.skip(i - from)[0]));
    }
    i
}

/// Index of the first `c` at or after `from` in `v[..to]` (or `to`).
pub fn find_char(v: &Vec<char>, from: usize, to: usize, c: char) -> (r: usize)
    requires
        from <= to <= v@.len(),
    ensures
        r == from + len_before(v@.subrange(from as int, to as int), c),
        r <= to,
        r < to ==> v@[r as int] == c,
{
    let ghost s = v@.subrange(from as int, to as int);
    let mut i = from;
    assert(s.skip(0) =~= s);
    while i < to && v[i] != c
        invariant
            from <= i <= to <= v@.len(),
            s == v@.subrange(from as int, to as int),
            len_before(s, c) == (i - from) + len_before(s.skip(i - from), c),
        decreases to - i,
    {
        proof {
            lemma_len_before_step(s, i - from, c);
        }
        i += 1;
    }
    proof {
        assert(s.skip(i - from).len() == 0 || s.skip(i - from)[0] == c);
    }
    i
}

/// Start of the whitespace run that ends at `to` in `v[from..]`.
pub fn back_skip_ws(v: &Vec<char>, from: usize, to: usize) -> (r: usize)
    requires
        from <= to <= v@.len(),
    ensures
        r + ws_suffix_len(v@.subrange(from as int, to as int)) == to,
        from <= r,
{
    let ghost s = v@.subrange(from as int, to as int);
    let mut j = to;
    assert(s.take(to - from) =~= s);
    while j > from && is_whitespace_char(v[j - 1])
        invariant
            from <= j <= to <= v@.len(),
            s == v@.subrange(from as int, to as int),
            ws_suffix_len(s) == (to - j) + ws_suffix_len(s.take(j - from)),
        decreases j - from,
    {
        proof {
            lemma_ws_suffix_step(s, j - from);
        }
        j -= 1;
    }
    proof {
        assert(s.take(j - from).len() == 0 || !is_ws(s.take(j - from).last()));
    }
    j
}

/// Bounds of `trim(v[from..to])` inside `v`.
pub fn trim_span(v: &Vec<char>, from: usize, to: usize) -> (r: (usize, usize))
    requires
        from <= to <= v@.len(),
    ensures
        from <= r.0 <= r.1 <= to,
        v@.subrange(r.0 as int, r.1 as int) == trim(v@.subrange(from as int, to as int)),
{
    let a = skip_ws(v, from, to);
    let b = back_skip_ws(v, a, to);
    proof {
        let s = v@.subrange(from as int, to as int);
        assert(s.skip(a - from) =~= v@.subrange(a as int, to as int));
        assert(v@.subrange(a as int, to as int).take(b - a) =~= v@.subrange(a as int, b as int));
    }
    (a, b)
}

/// `str::split_whitespace` on `v[from..to]`.
pub fn words_of(v: &Vec<char>, from: usize, to: usize) -> (r: Vec<String>)
    requires
        from <= to <= v@.len(),
    ensures
        r@.len() == words(v@.subrange(from as int, to as int)).len(),
        forall|i: int|
            0 <= i < r@.len() ==> #[trigger] r@[i]@ == words(
                v@.subrange(from as int, to as int),
            )[i],
{
    let ghost s = v@.subrange(from as int, to as int);
    let mut out: Vec<String> = Vec::new();
    let ghost done: Seq<Seq<char>> = Seq::empty();
    let mut i = from;
    while i < to
        invariant
            from <= i <= to <= v@.len(),
            s == v@.subrange(from as int, to as int),
            out@.len() == done.len(),
            forall|k: int| 0 <= k < out@.len() ==> #[trigger] out@[k]@ == done[k],
            done + words(v@.subrange(i as int, to as int)) == words(s),
        decreases to - i,
    {
        let ghost t = v@.subrange(i as int, to as int);
        if is_whitespace_char(v[i]) {
            proof {
                assert(t.drop_first() =~= v@.subrange(i + 1, to as int));
            }
            i += 1;
        } else {
            let j = skip_word(v, i, to);
            proof {
                lemma_word_prefix_step(t, 0);
                assert(t.skip(0) =~= t);
                assert(t.take(j - i) =~= v@.subrange(i as int, j as int));
                assert(t.skip(j - i) =~= v@.subrange(j as int, to as int));
                assert(words(t) == seq![t.take(j - i)] + words(t.skip(j - i)));
                assert(done + words(t) =~= done.push(v@.subrange(i as int, j as int))
                    + words(v@.subrange(j as int, to as int)));
            }
            let w = string_of(v, i, j);
            out.push(w);
            proof {
                done = done.push(v@.subrange(i as int, j as int));
            }
            i = j;
        }
    }
    proof {
        assert(v@.subrange(i as int, to as int).len() == 0);
        assert(done + Seq::<Seq<char>>::empty() =~= done);
    }
    out
}

/// Spans of `lines(v@)`: for each line, the bounds of its characters in `v`.
pub fn line_spans(v: &Vec<char>) -> (r: Vec<(usize, usize)>)
    ensures
        r@.len() == lines(v@).len(),
        forall|i: int|
            0 <= i < r@.len() ==> {
                &&& (#[trigger] r@[i]).0 <= r@[i].1 <= v@.len()
                &&& v@.subrange(r@[i].0 as int, r@[i].1 as int) == lines(v@)[i]
            },
{
    let mut out: Vec<(usize, usize)> = Vec::new();
    let ghost done: Seq<Seq<char>> = Seq::empty();
    let n = v.len();
    let mut i: usize = 0;
    assert(v@.subrange(0, n as int) =~= v@);
    while i < n
        invariant
            i <= n == v@.len(),
            out@.len() == done.len(),
            forall|k: int|
                0 <= k < out@.len() ==> {
                    &&& (#[trigger] out@[k]).0 <= out@[k].1 <= v@.len()
                    &&& v@.subrange(out@[k].0 as int, out@[k].1 as int) == done[k]
                },
            done + lines(v@.subrange(i as int, n as int)) == lines(v@),
        decreases n - i,
    {
        let ghost t = v@.subrange(i as int, n as int);
        let j = find_char(v, i, n, '\n');
        if j >= n {
            proof {
                assert(lines(t) == seq![t]);
                assert(done + lines(t) =~= done.push(v@.subrange(i as int, n as int)));
            }
            out.push((i, n));
            proof {
                done = done.push(v@.subrange(i as int, n as int));
                assert(v@.subrange(n as int, n as int) =~= Seq::<char>::empty());
            }
            i = n;
        } else {
            let mut e = j;
            if e > i && v[e - 1] == '\r' {
                e = e - 1;
            }
            proof {
                assert(t.take(j - i) =~= v@.subrange(i as int, j as int));
                assert(t.skip(j - i + 1) =~= v@.subrange(j + 1, n as int));
                assert(strip_cr(v@.subrange(i as int, j as int)) =~= v@.subrange(
                    i as int,
                    e as int,
                ));
                assert(done + lines(t) =~= done.push(v@.subrange(i as int, e as int)) + lines(
                    v@.subrange(j + 1, n as int),
                ));
            }
            out.push((i, e));
            proof {
                done = done.push(v@.subrange(i as int, e as int));
            }
            i = j + 1;
        }
    }
    proof {
        assert(v@.subrange(i as int, n as int).len() == 0);
        assert(done + Seq::<Seq<char>>::empty() =~= done);
    }
    out
}

pub proof fn lemma_decimal_nonempty(n: nat)
    ensures
        decimal(n).len() >= 1,
    decreases n,
{
    if n >= 10 {
        lemma_decimal_nonempty(n / 10);
    }
}

fn digit(d: u64) -> (c: char)
    requires
        d < 10,
    ensures
        c == digit_char(d as nat),
{
    if d == 0 { '0' }
    else if d == 1 { '1' }
    else if d == 2 { '2' }
    else if d == 3 { '3' }
    else if d == 4 { '4' }
    else if d == 5 { '5' }
    else if d == 6 { '6' }
    else if d == 7 { '7' }
    else if d == 8 { '8' }
    else { '9' }
}

/// Appends the decimal notation of `n` to `s`.
pub fn push_decimal(s: &mut String, n: u64)
    ensures
        final(s)@ == old(s)@ + decimal(n as nat),
    decreases n,
{
    if n < 10 {
        string_push(s, digit(n));
        assert(old(s)@.push(digit_char(n as nat)) =~= old(s)@ + seq![digit_char(n as nat)]);
    } else {
        push_decimal(s, n / 10);
        string_push(s, digit(n % 10));
        assert(old(s)@ + decimal(n as nat / 10) + seq![digit_char(n as nat % 10)] =~= old(s)@
            + decimal(n as nat));
    }
}

/// Appends the decimal notation of a signed `n` to `s`, with a `-` when negative.
pub fn push_signed_decimal(s: &mut String, n: i64)
    ensures
        final(s)@ == old(s)@ + signed_decimal(n as int),
{
    if n < 0 {
        string_push(s, '-');
        let m: u64 = if n == i64::MIN {
            9223372036854775808u64
        } else {
            (-n) as u64
        };
        push_decimal(s, m);
        assert(old(s)@.push('-') + decimal(m as nat) =~= old(s)@ + (seq!['-'] + decimal(
            (-n) as nat,
        )));
    } else {
        push_decimal(s, n as u64);
    }
}

/// Decimal notation of `n`.
pub fn decimal_string(n: u64) -> (s: String)
    ensures
        s@ == decimal(n as nat),
{
    let mut s = String::new();
    push_decimal(&mut s, n);
    assert(Seq::<char>::empty() + decimal(n as nat) =~= decimal(n as nat));
    s
}

} // verus!

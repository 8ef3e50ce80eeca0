//! Image layers on disk: an image is stored as `layer_0.tar.gz`,
//! `layer_1.tar.gz`, ... in a directory named after the image, and its layers
//! are unpacked in the order of their numbers.
use crate::buildfile::strings_view;
use crate::text::{chars_of, decimal, push_decimal, push_str, span_eq, string_from};
use vstd::prelude::*;

verus! {

/// `c` is an ASCII decimal digit.
pub open spec fn is_digit(c: char) -> bool {
    '0' <= c && c <= '9'
}

/// Value of a digit character.
pub open spec fn digit_value(c: char) -> nat {
    (c as nat - '0' as nat) as nat
}

/// Every character of `s` is a decimal digit.
pub open spec fn all_digits(s: Seq<char>) -> bool {
    forall|i: int| 0 <= i < s.len() ==> is_digit(#[trigger] s[i])
}

/// The number that the digits `s` spell.
pub open spec fn digits_value(s: Seq<char>) -> nat
    decreases s.len(),
{
    if s.len() == 0 {
        0
    } else {
        digits_value(s.drop_last()) * 10 + digit_value(s.last())
    }
}

/// `str::parse::<usize>`: an optional `+`, then at least one decimal digit
/// and nothing else, with a value that fits in `usize`.
pub open spec fn parse_usize(s: Seq<char>) -> Option<nat> {
    let d = if s.len() > 0 && s[0] == '+' {
        s.drop_first()
    } else {
        s
    };
    if d.len() == 0 || !all_digits(d) || digits_value(d) > usize::MAX {
        None
    } else {
        Some(digits_value(d))
    }
}

/// `name` starts with `p` and ends with `q` (and they do not overlap).
pub open spec fn has_affixes(name: Seq<char>, p: Seq<char>, q: Seq<char>) -> bool {
    &&& name.len() >= p.len() + q.len()
    &&& name.take(p.len() as int) == p
    &&& name.skip(name.len() - q.len()) == q
}

/// The number of a layer file `layer_{n}.tar.gz`.
pub open spec fn layer_index(name: Seq<char>) -> Option<nat> {
    if has_affixes(name, "layer_"@, ".tar.gz"@) {
        parse_usize(name.subrange("layer_"@.len() as int, name.len() - ".tar.gz"@.len()))
    } else {
        None
    }
}

/// The key layers are ordered by: their number, or 0 when there is none.
pub open spec fn layer_key(name: Seq<char>) -> nat {
    match layer_index(name) {
        Some(n) => n,
        None => 0,
    }
}

/// The file name of layer `n`: `layer_{n}.tar.gz`.
pub open spec fn spec_layer_file_name(n: nat) -> Seq<char> {
    "layer_"@ + decimal(n) + ".tar.gz"@
}

/// `name` starts with `layer_`.
pub open spec fn is_layer_file(name: Seq<char>) -> bool {
    name.len() >= "layer_"@.len() && name.take("layer_"@.len() as int) == "layer_"@
}

/// The names of `s` that start with `layer_`, in order.
pub open spec fn only_layers(s: Seq<Seq<char>>) -> Seq<Seq<char>>
    decreases s.len(),
{
    if s.len() == 0 {
        Seq::empty()
    } else if is_layer_file(s.last()) {
        only_layers(s.drop_last()).push(s.last())
    } else {
        only_layers(s.drop_last())
    }
}

/// `x` inserted into `sorted` after every name whose key is not larger.
pub open spec fn insert_by_key(sorted: Seq<Seq<char>>, x: Seq<char>) -> Seq<Seq<char>>
    decreases sorted.len(),
{
    if sorted.len() == 0 {
        seq![x]
    } else if layer_key(sorted.last()) <= layer_key(x) {
        sorted.push(x)
    } else {
        insert_by_key(sorted.drop_last(), x).push(sorted.last())
    }
}

/// `s` sorted by layer key, names with equal keys kept in their order
/// (`sort_by_key`, which is stable).
pub open spec fn sort_by_layer_key(s: Seq<Seq<char>>) -> Seq<Seq<char>>
    decreases s.len(),
{
    if s.len() == 0 {
        Seq::empty()
    } else {
        insert_by_key(sort_by_layer_key(s.drop_last()), s.last())
    }
}

/// The layer files among `names`, in the order they are unpacked.
pub open spec fn spec_order_layers(names: Seq<Seq<char>>) -> Seq<Seq<char>> {
    sort_by_layer_key(only_layers(names))
}

/// The image directory name for an image reference: `/` and `.` become `_`.
pub open spec fn spec_image_dir_name(image: Seq<char>) -> Seq<char> {
    image.map_values(|c: char| if c == '/' || c == '.' { '_' } else { c })
}

/// `base_image.replace("/", "_").replace(".", "_")`: the name of the directory
/// that holds an image's layers.
pub fn image_dir_name(base_image: &str) -> (r: String)
    ensures
        r@ == spec_image_dir_name(base_image@),
{
    let v = chars_of(base_image);
    let mut s = String::new();
    let mut i: usize = 0;
    while i < v.len()
        invariant
            i <= v@.len(),
            v@ == base_image@,
            s@ == spec_image_dir_name(v@.take(i as int)),
        decreases v@.len() - i,
    {
        let c = v[i];
        let d = if c == '/' || c == '.' {
            '_'
        } else {
            c
        };
        crate::text::string_push(&mut s, d);
        assert(spec_image_dir_name(v@.take(i + 1)) =~= spec_image_dir_name(v@.take(i as int)).push(
            d,
        ));
        i += 1;
    }
    assert(v@.take(v@.len() as int) =~= v@);
    s
}

/// `format!("layer_{}.tar.gz", n)`: the file a downloaded layer is stored in.
pub fn layer_file_name(n: usize) -> (r: String)
    ensures
        r@ == spec_layer_file_name(n as nat),
{
    let mut s = string_from("layer_");
    push_decimal(&mut s, n as u64);
    push_str(&mut s, ".tar.gz");
    s
}

proof fn lemma_digits_value_prefix(s: Seq<char>, j: int)
    requires
        0 <= j <= s.len(),
    ensures
        digits_value(s.take(j)) <= digits_value(s),
    decreases s.len(),
{
    if j < s.len() {
        assert(s.drop_last().take(j) =~= s.take(j));
        lemma_digits_value_prefix(s.drop_last(), j);
    } else {
        assert(s.take(j) =~= s);
    }
}

/// `str::parse::<usize>` on `v[from..to]`.
fn parse_usize_span(v: &Vec<char>, from: usize, to: usize) -> (r: Option<usize>)
    requires
        from <= to <= v@.len(),
    ensures
        match r {
            Some(n) => parse_usize(v@.subrange(from as int, to as int)) == Some(n as nat),
            None => parse_usize(v@.subrange(from as int, to as int)) is None,
        },
{
    let ghost s = v@.subrange(from as int, to as int);
    let start = if from < to && v[from] == '+' {
        from + 1
    } else {
        from
    };
    let ghost d = v@.subrange(start as int, to as int);
    assert(d == if s.len() > 0 && s[0] == '+' {
        s.drop_first()
    } else {
        s
    });
    if start == to {
        return None;
    }
    let mut acc: usize = 0;
    let mut i = start;
    assert(d.take(0) =~= Seq::<char>::empty());
    while i < to
        invariant
            from <= start <= i <= to <= v@.len(),
            start < to,
            s == v@.subrange(from as int, to as int),
            d == v@.subrange(start as int, to as int),
            d == (if s.len() > 0 && s[0] == '+' {
                s.drop_first()
            } else {
                s
            }),
            all_digits(d.take(i - start)),
            acc as nat == digits_value(d.take(i - start)),
        decreases to - i,
    {
        let c = v[i];
        if !('0' <= c && c <= '9') {
            assert(!is_digit(d[i - start]));
            return None;
        }
        let dv: usize = (c as u32 - '0' as u32) as usize;
        proof {
            assert(d.take(i - start + 1).drop_last() =~= d.take(i - start));
            assert(d.take(i - start + 1).last() == c);
        }
        match acc.checked_mul(10) {
            None => {
                proof {
                    lemma_digits_value_prefix(d, i - start + 1);
                }
                return None;
            },
            Some(m) => match m.checked_add(dv) {
                None => {
                    proof {
                        lemma_digits_value_prefix(d, i - start + 1);
                    }
                    return None;
                },
                Some(a) => {
                    acc = a;
                },
            },
        }
        i += 1;
    }
    assert(d.take(to - start) =~= d);
    Some(acc)
}

/// The number of a layer file `layer_{n}.tar.gz`, or `None` for another name.
pub fn layer_index_of(name: &str) -> (r: Option<usize>)
    ensures
        match r {
            Some(n) => layer_index(name@) == Some(n as nat),
            None => layer_index(name@) is None,
        },
{
    let v = chars_of(name);
    let p = chars_of("layer_");
    let q = chars_of(".tar.gz");
    if v.len() < p.len() || v.len() - p.len() < q.len() {
        return None;
    }
    let mid_end = v.len() - q.len();
    let pre = span_eq(&v, 0, p.len(), &p);
    let suf = span_eq(&v, mid_end, v.len(), &q);
    assert(v@.take(p@.len() as int) =~= v@.subrange(0, p@.len() as int));
    assert(v@.skip(mid_end as int) =~= v@.subrange(mid_end as int, v@.len() as int));
    if !(pre && suf) {
        return None;
    }
    parse_usize_span(&v, p.len(), mid_end)
}

/// The key a layer file is ordered by: its number, or 0.
pub fn layer_key_of(name: &str) -> (r: usize)
    ensures
        r as nat == layer_key(name@),
{
    match layer_index_of(name) {
        Some(n) => n,
        None => 0,
    }
}

/// Whether `name` starts with `layer_`.
pub fn is_layer_file_name(name: &str) -> (r: bool)
    ensures
        r == is_layer_file(name@),
{
    let v = chars_of(name);
    let p = chars_of("layer_");
    if v.len() < p.len() {
        return false;
    }
    assert(v@.take(p@.len() as int) =~= v@.subrange(0, p@.len() as int));
    span_eq(&v, 0, p.len(), &p)
}

proof fn lemma_insert_at(sorted: Seq<Seq<char>>, x: Seq<char>, j: int)
    requires
        0 <= j <= sorted.len(),
        forall|i: int| j <= i < sorted.len() ==> layer_key(#[trigger] sorted[i]) > layer_key(x),
        j == 0 || layer_key(sorted[j - 1]) <= layer_key(x),
    ensures
        insert_by_key(sorted, x) == sorted.take(j).push(x) + sorted.skip(j),
    decreases sorted.len(),
{
    if sorted.len() == 0 {
        assert(sorted.take(j).push(x) + sorted.skip(j) =~= seq![x]);
    } else if j == sorted.len() {
        assert(sorted.take(j).push(x) + sorted.skip(j) =~= sorted.push(x));
    } else {
        let d = sorted.drop_last();
        assert forall|i: int| j <= i < d.len() implies layer_key(#[trigger] d[i]) > layer_key(x) by {
            assert(d[i] == sorted[i]);
        }
        if j > 0 {
            assert(d[j - 1] == sorted[j - 1]);
        }
        lemma_insert_at(d, x, j);
        assert(d.take(j).push(x) + d.skip(j) + seq![sorted.last()] =~= sorted.take(j).push(x)
            + sorted.skip(j));
    }
}

/// The layer files among `names` (file names, in directory order), in the
/// order their layers are unpacked: by the number in `layer_{n}.tar.gz`, a
/// name without such a number counting as 0, equal numbers keeping their order.
pub fn order_layers(names: &Vec<String>) -> (r: Vec<String>)
    ensures
        strings_view(r@) == spec_order_layers(strings_view(names@)),
{
    let ghost all = strings_view(names@);
    let mut layers: Vec<String> = Vec::new();
    let mut i: usize = 0;
    assert(all.take(0) =~= Seq::<Seq<char>>::empty());
    assert(strings_view(layers@) =~= Seq::<Seq<char>>::empty());
    while i < names.len()
        invariant
            i <= names@.len(),
            all == strings_view(names@),
            strings_view(layers@) == only_layers(all.take(i as int)),
        decreases names@.len() - i,
    {
        proof {
            assert(all.take(i + 1).drop_last() =~= all.take(i as int));
            assert(all.take(i + 1).last() == names@[i as int]@);
        }
        if is_layer_file_name(names[i].as_str()) {
            layers.push(names[i].clone());
            assert(strings_view(layers@) =~= only_layers(all.take(i as int)).push(
                names@[i as int]@,
            ));
        }
        i += 1;
    }
    assert(all.take(names@.len() as int) =~= all);
    let ghost filtered = strings_view(layers@);
    let mut sorted: Vec<String> = Vec::new();
    let mut keys: Vec<usize> = Vec::new();
    let mut k: usize = 0;
    assert(filtered.take(0) =~= Seq::<Seq<char>>::empty());
    assert(strings_view(sorted@) =~= Seq::<Seq<char>>::empty());
    while k < layers.len()
        invariant
            k <= layers@.len(),
            filtered == strings_view(layers@),
            strings_view(sorted@) == sort_by_layer_key(filtered.take(k as int)),
            keys@.len() == sorted@.len(),
            forall|t: int| 0 <= t < keys@.len() ==> keys@[t] as nat == layer_key(#[trigger] sorted@[t]@),
        decreases layers@.len() - k,
    {
        let name = layers[k].clone();
        let key = layer_key_of(name.as_str());
        let ghost before = strings_view(sorted@);
        let mut j = sorted.len();
        while j > 0 && keys[j - 1] > key
            invariant
                j <= sorted@.len(),
                keys@.len() == sorted@.len(),
                before == strings_view(sorted@),
                forall|t: int| 0 <= t < keys@.len() ==> keys@[t] as nat == layer_key(#[trigger] sorted@[t]@),
                forall|t: int| j <= t < sorted@.len() ==> layer_key(#[trigger] before[t]) > key,
            decreases j,
        {
            j -= 1;
        }
        proof {
            if j > 0 {
                assert(before[j - 1] == sorted@[j - 1]@);
            }
            lemma_insert_at(before, name@, j as int);
            assert(filtered.take(k + 1).drop_last() =~= filtered.take(k as int));
            assert(filtered.take(k + 1).last() == name@);
        }
        let ghost prev = sorted@;
        let ghost prevk = keys@;
        sorted.insert(j, name);
        keys.insert(j, key);
        proof {
            assert(strings_view(sorted@) =~= before.take(j as int).push(name@) + before.skip(
                j as int,
            ));
            assert forall|t: int| 0 <= t < keys@.len() implies keys@[t] as nat == layer_key(
                #[trigger] sorted@[t]@,
            ) by {
                if t > j {
                    assert(sorted@[t] == prev[t - 1]);
                    assert(keys@[t] == prevk[t - 1]);
                } else if t < j {
                    assert(sorted@[t] == prev[t]);
                    assert(keys@[t] == prevk[t]);
                }
            }
        }
        k += 1;
    }
    assert(filtered.take(layers@.len() as int) =~= filtered);
    sorted
}

proof fn lemma_digit_char_value(d: nat)
    requires
        d < 10,
    ensures
        is_digit(crate::text::digit_char(d)),
        digit_value(crate::text::digit_char(d)) == d,
{
}

proof fn lemma_decimal_digits(n: nat)
    ensures
        all_digits(decimal(n)),
        digits_value(decimal(n)) == n,
        decimal(n).len() >= 1,
    decreases n,
{
    if n < 10 {
        lemma_digit_char_value(n);
        assert(decimal(n).drop_last() =~= Seq::<char>::empty());
        assert(digits_value(Seq::<char>::empty()) == 0);
        assert(digits_value(decimal(n)) == digits_value(decimal(n).drop_last()) * 10 + digit_value(
            decimal(n).last(),
        ));
    } else {
        lemma_decimal_digits(n / 10);
        lemma_digit_char_value(n % 10);
        assert(decimal(n).drop_last() =~= decimal(n / 10));
        assert(decimal(n).last() == crate::text::digit_char(n % 10));
        assert((n / 10) * 10 + n % 10 == n) by (nonlinear_arith);
        assert(digits_value(decimal(n)) == digits_value(decimal(n).drop_last()) * 10 + digit_value(
            decimal(n).last(),
        ));
        assert forall|i: int| 0 <= i < decimal(n).len() implies is_digit(#[trigger] decimal(n)[i]) by {
            if i < decimal(n).len() - 1 {
                assert(decimal(n)[i] == decimal(n / 10)[i]);
            }
        }
    }
}

/// The number of the layer file `layer_{n}.tar.gz` is `n`.
pub proof fn law_layer_file_name_round_trip(n: nat)
    requires
        n <= usize::MAX,
    ensures
        layer_index(spec_layer_file_name(n)) == Some(n),
{
    let p = "layer_"@;
    let q = ".tar.gz"@;
    let d = decimal(n);
    let name = p + d + q;
    lemma_decimal_digits(n);
    assert(name.take(p.len() as int) =~= p);
    assert(name.skip(name.len() - q.len()) =~= q);
    assert(name.subrange(p.len() as int, name.len() - q.len()) =~= d);
    assert(is_digit(d[0]));
}

/// Inserting keeps the names already there and adds `x`.
proof fn lemma_insert_multiset(s: Seq<Seq<char>>, x: Seq<char>)
    ensures
        insert_by_key(s, x).to_multiset() =~= s.to_multiset().insert(x),
    decreases s.len(),
{
    broadcast use vstd::seq_lib::group_to_multiset_ensures;

    if s.len() == 0 {
        assert(seq![x] =~= Seq::<Seq<char>>::empty().push(x));
    } else if layer_key(s.last()) <= layer_key(x) {
    } else {
        lemma_insert_multiset(s.drop_last(), x);
        assert(s.drop_last().push(s.last()) =~= s);
    }
}

/// Inserting into a list sorted by key keeps it sorted.
proof fn lemma_insert_sorted(s: Seq<Seq<char>>, x: Seq<char>)
    requires
        forall|i: int, j: int| 0 <= i < j < s.len() ==> layer_key(s[i]) <= layer_key(s[j]),
    ensures
        forall|i: int, j: int|
            0 <= i < j < insert_by_key(s, x).len() ==> layer_key(insert_by_key(s, x)[i])
                <= layer_key(insert_by_key(s, x)[j]),
        insert_by_key(s, x).len() == s.len() + 1,
        forall|i: int| 0 <= i < insert_by_key(s, x).len() ==> layer_key(
            #[trigger] insert_by_key(s, x)[i],
        ) <= if s.len() > 0 && layer_key(s.last()) > layer_key(x) {
            layer_key(s.last())
        } else {
            layer_key(x)
        },
    decreases s.len(),
{
    if s.len() > 0 && layer_key(s.last()) > layer_key(x) {
        lemma_insert_sorted(s.drop_last(), x);
    }
}

/// The layer files of `names`, in unpacking order, are sorted by their
/// numbers.
pub proof fn law_layers_sorted(names: Seq<Seq<char>>)
    ensures
        forall|i: int, j: int|
            0 <= i < j < spec_order_layers(names).len() ==> layer_key(spec_order_layers(names)[i])
                <= layer_key(spec_order_layers(names)[j]),
{
    lemma_sort_sorted(only_layers(names));
}

proof fn lemma_sort_sorted(s: Seq<Seq<char>>)
    ensures
        forall|i: int, j: int|
            0 <= i < j < sort_by_layer_key(s).len() ==> layer_key(sort_by_layer_key(s)[i])
                <= layer_key(sort_by_layer_key(s)[j]),
    decreases s.len(),
{
    if s.len() > 0 {
        lemma_sort_sorted(s.drop_last());
        lemma_insert_sorted(sort_by_layer_key(s.drop_last()), s.last());
    }
}

proof fn lemma_sort_multiset(s: Seq<Seq<char>>)
    ensures
        sort_by_layer_key(s).to_multiset() =~= s.to_multiset(),
    decreases s.len(),
{
    broadcast use vstd::seq_lib::group_to_multiset_ensures;

    if s.len() > 0 {
        lemma_sort_multiset(s.drop_last());
        lemma_insert_multiset(sort_by_layer_key(s.drop_last()), s.last());
        assert(s.drop_last().push(s.last()) =~= s);
    }
}

proof fn lemma_only_layers_multiset(s: Seq<Seq<char>>, x: Seq<char>)
    ensures
        only_layers(s).to_multiset().count(x) == if is_layer_file(x) {
            s.to_multiset().count(x)
        } else {
            0
        },
    decreases s.len(),
{
    broadcast use vstd::seq_lib::group_to_multiset_ensures;
    broadcast use vstd::multiset::group_multiset_axioms;

    if s.len() > 0 {
        lemma_only_layers_multiset(s.drop_last(), x);
        assert(s.drop_last().push(s.last()) =~= s);
    }
}

/// Unpacking order holds each layer file of `names` as many times as
/// `names` does, and nothing else.
pub proof fn law_layers_kept(names: Seq<Seq<char>>, x: Seq<char>)
    ensures
        spec_order_layers(names).to_multiset().count(x) == if is_layer_file(x) {
            names.to_multiset().count(x)
        } else {
            0
        },
{
    lemma_sort_multiset(only_layers(names));
    lemma_only_layers_multiset(names, x);
}

} // verus!

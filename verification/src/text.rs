//! Small helpers on strings and optional values shared by the whole crate.

use vstd::prelude::*;

verus! {

/// `str`'s `==`: two string slices are equal exactly when they hold the same
/// characters. Nothing here is proved; this states what std documents.
pub assume_specification[ <str as PartialEq>::eq ](a: &str, b: &str) -> (r: bool)
    ensures
        r == (a@ == b@),
;

/// The lower-case form of a text as `str::to_lowercase` computes it
/// (Unicode aware, so it is named rather than written out).
pub uninterp spec fn lowercase_of(s: Seq<char>) -> Seq<char>;

/// Calls `str::to_lowercase`. The contract only names the result; nothing
/// is claimed about which characters change.
#[verifier::external_body]
pub(crate) fn to_lowercase(s: &str) -> (r: String)
    ensures
        r@ == lowercase_of(s@),
{
    s.to_lowercase()
}

/// The order of texts: character by character, by code point, a text
/// standing before every longer text that starts with it.
pub open spec fn text_before(a: Seq<char>, b: Seq<char>) -> bool
    decreases a.len(),
{
    if b.len() == 0 {
        false
    } else if a.len() == 0 {
        true
    } else if a[0] != b[0] {
        (a[0] as int) < (b[0] as int)
    } else {
        text_before(a.drop_first(), b.drop_first())
    }
}

/// No text stands before a text that stands before it.
pub proof fn lemma_text_before_one_way(a: Seq<char>, b: Seq<char>)
    requires
        text_before(a, b),
    ensures
        !text_before(b, a),
    decreases a.len(),
{
    if a.len() > 0 && b.len() > 0 && a[0] == b[0] {
        lemma_text_before_one_way(a.drop_first(), b.drop_first());
    }
}

/// A text that does not come after a second, which does not come after
/// a third, does not come after the third.
pub proof fn lemma_text_before_chain(a: Seq<char>, b: Seq<char>, c: Seq<char>)
    requires
        !text_before(b, a),
        !text_before(c, b),
    ensures
        !text_before(c, a),
    decreases a.len(),
{
    if a.len() > 0 {
        assert(b.len() > 0);
        assert(c.len() > 0);
        if a[0] == b[0] && b[0] == c[0] {
            lemma_text_before_chain(a.drop_first(), b.drop_first(), c.drop_first());
        } else {
            assert((a[0] as int) <= (b[0] as int));
            assert((b[0] as int) <= (c[0] as int));
            assert((a[0] as int) == (c[0] as int) ==> a[0] == c[0]);
        }
    }
}

/// `str`'s `<`. std orders strings by their bytes and documents that
/// this is the order of the code points; the contract says that. Not
/// proved.
#[verifier::external_body]
pub(crate) fn text_lt(a: &str, b: &str) -> (r: bool)
    ensures
        r == text_before(a@, b@),
{
    a < b
}

/// The views of the elements of a sequence, in order.
pub open spec fn views<T: View>(s: Seq<T>) -> Seq<T::V> {
    s.map_values(|x: T| x@)
}

/// The view of an optional value.
pub open spec fn opt_view<T: View>(o: Option<T>) -> Option<T::V> {
    match o {
        Some(x) => Some(x@),
        None => None,
    }
}

/// The first `n` elements of `s`, or all of `s` when it is shorter.
pub open spec fn prefix<T>(s: Seq<T>, n: nat) -> Seq<T> {
    if n <= s.len() {
        s.take(n as int)
    } else {
        s
    }
}

/// The views of a sequence with one more element.
pub proof fn lemma_views_push<T: View>(s: Seq<T>, x: T)
    ensures
        views(s.push(x)) == views(s).push(x@),
{
    assert(views(s.push(x)) =~= views(s).push(x@));
}

/// The views of a sequence with one element replaced.
pub proof fn lemma_views_update<T: View>(s: Seq<T>, i: int, x: T)
    requires
        0 <= i < s.len(),
    ensures
        views(s.update(i, x)) == views(s).update(i, x@),
{
    assert(views(s.update(i, x)) =~= views(s).update(i, x@));
}

/// A copy of an optional text.
pub fn clone_opt_string(o: &Option<String>) -> (r: Option<String>)
    ensures
        opt_view(r) == opt_view(*o),
{
    match o {
        Some(s) => Some(s.clone()),
        None => None,
    }
}

/// Whether two optional texts are the same.
pub fn opt_string_eq(a: &Option<String>, b: &Option<String>) -> (r: bool)
    ensures
        r == (opt_view(*a) == opt_view(*b)),
{
    match (a, b) {
        (Some(x), Some(y)) => *x == *y,
        (None, None) => true,
        _ => false,
    }
}

/// Whether an optional text is present and equal to `s`.
pub fn opt_string_is(a: &Option<String>, s: &String) -> (r: bool)
    ensures
        r == (opt_view(*a) == Some(s@)),
{
    match a {
        Some(x) => *x == *s,
        None => false,
    }
}

/// The first `n` characters of `s`.
pub fn truncate_chars(s: &str, n: usize) -> (r: String)
    ensures
        r@ == prefix(s@, n as nat),
{
    let len: usize = s.unicode_len();
    if n < len {
        let head = s.substring_char(0, n);
        assert(s@.subrange(0, n as int) == s@.take(n as int));
        head.to_string()
    } else {
        assert(s@.take(s@.len() as int) == s@);
        s.to_string()
    }
}

/// Whether each name heads one pair only, as the keys of a map do.
pub open spec fn names_once<V>(pairs: Seq<(Seq<char>, V)>) -> bool {
    forall|i: int, j: int| 0 <= i < j < pairs.len() ==> pairs[i].0 != pairs[j].0
}

/// The value under `name` in a list of pairs that stands for a map: that
/// of the last pair with the name, as each pair takes the place of an
/// earlier one with its name.
pub open spec fn pair_value(pairs: Seq<(Seq<char>, Seq<char>)>, name: Seq<char>) -> Option<
    Seq<char>,
>
    decreases pairs.len(),
{
    if pairs.len() == 0 {
        None
    } else if pairs.last().0 == name {
        Some(pairs.last().1)
    } else {
        pair_value(pairs.drop_last(), name)
    }
}

/// `pair_value` seen from the back: nothing after the hit has the name.
pub proof fn lemma_pair_value_at(pairs: Seq<(Seq<char>, Seq<char>)>, name: Seq<char>, i: int)
    requires
        0 <= i < pairs.len(),
        pairs[i].0 == name,
        forall|k: int| i < k < pairs.len() ==> pairs[k].0 != name,
    ensures
        pair_value(pairs, name) == Some(pairs[i].1),
    decreases pairs.len(),
{
    if i < pairs.len() - 1 {
        lemma_pair_value_at(pairs.drop_last(), name, i);
    }
}

/// Where no pair has the name there is no value.
pub proof fn lemma_pair_value_none(pairs: Seq<(Seq<char>, Seq<char>)>, name: Seq<char>)
    requires
        forall|k: int| 0 <= k < pairs.len() ==> pairs[k].0 != name,
    ensures
        pair_value(pairs, name) is None,
    decreases pairs.len(),
{
    if pairs.len() > 0 {
        lemma_pair_value_none(pairs.drop_last(), name);
    }
}

/// Where each name occurs once, the value under a name is that of the
/// one pair that has it.
pub proof fn lemma_pair_value_once(pairs: Seq<(Seq<char>, Seq<char>)>, name: Seq<char>, i: int)
    requires
        names_once(pairs),
        0 <= i < pairs.len(),
        pairs[i].0 == name,
    ensures
        pair_value(pairs, name) == Some(pairs[i].1),
{
    lemma_pair_value_at(pairs, name, i);
}

/// Looks a value up by name in a list of name/value pairs.
pub fn find_pair(pairs: &Vec<(String, String)>, name: &str) -> (r: Option<String>)
    ensures
        opt_view(r) == pair_value(pairs.deep_view(), name@),
{
    let mut i: usize = pairs.len();
    while i > 0
        invariant
            i <= pairs.len(),
            forall|k: int| i <= k < pairs.len() ==> pairs.deep_view()[k].0 != name@,
        decreases i,
    {
        i -= 1;
        if pairs[i].0.as_str().eq(name) {
            proof {
                lemma_pair_value_at(pairs.deep_view(), name@, i as int);
            }
            return Some(pairs[i].1.clone());
        }
    }
    proof {
        lemma_pair_value_none(pairs.deep_view(), name@);
    }
    None
}

/// A copy of a list of pairs.
pub fn clone_pairs(v: &Vec<(String, String)>) -> (r: Vec<(String, String)>)
    ensures
        r.deep_view() == v.deep_view(),
{
    let mut out: Vec<(String, String)> = Vec::new();
    let mut i: usize = 0;
    while i < v.len()
        invariant
            i <= v.len(),
            out.len() == i,
            forall|k: int| 0 <= k < i ==> out[k].deep_view() == v[k].deep_view(),
        decreases v.len() - i,
    {
        out.push((v[i].0.clone(), v[i].1.clone()));
        i += 1;
    }
    assert(out.deep_view() =~= v.deep_view());
    out
}

/// The value of a decimal digit.
pub open spec fn digit_of(c: char) -> Option<int> {
    if '0' <= c && c <= '9' {
        Some(c as int - '0' as int)
    } else {
        None
    }
}

/// The number that a non-empty run of decimal digits writes.
pub open spec fn digits_value(s: Seq<char>) -> Option<int>
    decreases s.len(),
{
    if s.len() == 0 {
        None
    } else if s.len() == 1 {
        digit_of(s[0])
    } else {
        match (digits_value(s.drop_last()), digit_of(s.last())) {
            (Some(v), Some(d)) => Some(10 * v + d),
            _ => None,
        }
    }
}

/// The integer that a text writes in decimal: digits with an optional
/// sign in front and nothing else.
pub open spec fn int_of_text(s: Seq<char>) -> Option<int> {
    if s.len() > 0 && s[0] == '-' {
        match digits_value(s.drop_first()) {
            Some(v) => Some(-v),
            None => None,
        }
    } else if s.len() > 0 && s[0] == '+' {
        digits_value(s.drop_first())
    } else {
        digits_value(s)
    }
}

/// The 64-bit integer that a text writes, if it writes one that fits.
pub open spec fn i64_of_text(s: Seq<char>) -> Option<i64> {
    match int_of_text(s) {
        Some(v) => if i64::MIN <= v && v <= i64::MAX {
            Some(v as i64)
        } else {
            None
        },
        None => None,
    }
}

proof fn lemma_digits_grow(s: Seq<char>, n: int)
    requires
        1 <= n <= s.len(),
        digits_value(s) is Some,
    ensures
        digits_value(s.take(n)) is Some,
        0 <= digits_value(s.take(n))->0 <= digits_value(s)->0,
    decreases s.len() - n,
{
    if n == s.len() {
        assert(s.take(n) =~= s);
        lemma_digits_nonnegative(s);
    } else {
        assert(s.drop_last().take(n) =~= s.take(n));
        lemma_digits_grow(s.drop_last(), n);
    }
}

proof fn lemma_digits_nonnegative(s: Seq<char>)
    requires
        digits_value(s) is Some,
    ensures
        0 <= digits_value(s)->0,
    decreases s.len(),
{
    if s.len() > 1 {
        lemma_digits_nonnegative(s.drop_last());
    }
}

/// Reads a 64-bit integer written in decimal.
pub fn parse_i64(s: &str) -> (r: Option<i64>)
    ensures
        r == i64_of_text(s@),
{
    let len: usize = s.unicode_len();
    if len == 0 {
        return None;
    }
    let first = s.get_char(0);
    let negative = first == '-';
    let start: usize = if first == '-' || first == '+' {
        1
    } else {
        0
    };
    if start == len {
        return None;
    }
    let ghost digits = s@.skip(start as int);
    proof {
        assert(s@.skip(1) =~= s@.drop_first());
        assert(s@.skip(0) =~= s@);
    }
    let limit: i128 = 9223372036854775808;
    let mut value: i128 = 0;
    let mut i: usize = start;
    while i < len
        invariant
            start <= i <= len,
            len == s@.len(),
            start <= 1,
            start < len,
            digits_value(digits) is None ==> int_of_text(s@) is None,
            digits_value(digits) is Some ==> int_of_text(s@) == Some(
                if negative {
                    -(digits_value(digits)->0)
                } else {
                    digits_value(digits)->0
                },
            ),
            digits.len() == len - start,
            forall|k: int| 0 <= k < digits.len() ==> digits[k] == s@[k + start],
            limit == 9223372036854775808,
            0 <= value <= limit,
            i > start ==> digits_value(digits.take(i - start)) == Some(value as int),
            i == start ==> value == 0,
        decreases len - i,
    {
        let c = s.get_char(i);
        let ghost head = digits.take(i - start + 1);
        proof {
            assert(head.drop_last() =~= digits.take(i - start));
            assert(head.last() == c);
        }
        if !('0' <= c && c <= '9') {
            proof {
                assert(digits_value(head) is None);
                if digits_value(digits) is Some {
                    lemma_digits_grow(digits, i - start + 1);
                }
            }
            return None;
        }
        let d: i128 = (c as u32 - '0' as u32) as i128;
        let next: i128 = value * 10 + d;
        proof {
            assert(digits_value(head) == Some(next as int));
        }
        if next > limit {
            proof {
                if digits_value(digits) is Some {
                    lemma_digits_grow(digits, i - start + 1);
                }
            }
            return None;
        }
        value = next;
        i += 1;
    }
    proof {
        assert(digits.take(len - start) =~= digits);
    }
    if negative {
        Some((-value) as i64)
    } else if value == limit {
        None
    } else {
        Some(value as i64)
    }
}

} // verus!

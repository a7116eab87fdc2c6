//! Migration-name utilities: parsing the numeric prefix that orders
//! migrations, computing the next free prefix, and sanitizing user-supplied
//! names into filesystem-safe tokens.

use vstd::prelude::*;
use vstd::string::StrSliceExecFns;

use crate::text::{ends_with, matches_at};

verus! {

broadcast use
    vstd::seq_lib::group_filter_ensures,
    Seq::lemma_filter_push,
    Seq::lemma_push_map_commute,
;

/// Whether `c` is an ASCII decimal digit.
pub open spec fn is_digit(c: char) -> bool {
    '0' <= c <= '9'
}

/// The numeric value of an ASCII decimal digit.
pub open spec fn digit_val(c: char) -> nat {
    (c as nat - '0' as nat) as nat
}

/// The number a string of ASCII digits denotes in decimal.
pub open spec fn digits_value(s: Seq<char>) -> nat
    decreases s.len(),
{
    if s.len() == 0 {
        0
    } else {
        digits_value(s.drop_last()) * 10 + digit_val(s.last())
    }
}

/// How many ASCII digits `s` begins with.
pub open spec fn prefix_digits_len(s: Seq<char>) -> int
    decreases s.len(),
{
    if s.len() == 0 || !is_digit(s[0]) {
        0
    } else {
        1 + prefix_digits_len(s.drop_first())
    }
}

/// Whether `s` has a numeric prefix: one or more leading ASCII digits
/// followed directly by an underscore.
pub open spec fn has_numeric_prefix(s: Seq<char>) -> bool {
    let k = prefix_digits_len(s);
    k >= 1 && k < s.len() && s[k] == '_'
}

/// The value of `s`'s numeric prefix: its leading digits read as a decimal
/// number (so leading zeros do not matter).
pub open spec fn numeric_prefix_value(s: Seq<char>) -> nat {
    digits_value(s.subrange(0, prefix_digits_len(s)))
}

/// Helper: a position whose left side is all digits and which itself is no
/// digit (or the end) is exactly the length of the digit prefix.
proof fn lemma_prefix_digits_len_is(s: Seq<char>, i: int)
    requires
        0 <= i <= s.len(),
        forall|j: int| 0 <= j < i ==> is_digit(#[trigger] s[j]),
        i < s.len() ==> !is_digit(s[i]),
    ensures
        prefix_digits_len(s) == i,
    decreases i,
{
    if i == 0 {
    } else {
        assert(is_digit(s[0]));
        let rest = s.drop_first();
        assert(forall|j: int| 0 <= j < i - 1 ==> is_digit(#[trigger] rest[j]));
        lemma_prefix_digits_len_is(rest, i - 1);
    }
}

/// Helper: the digit prefix is never longer than the string, nor negative.
proof fn lemma_prefix_digits_len_bounds(s: Seq<char>)
    ensures
        0 <= prefix_digits_len(s) <= s.len(),
    decreases s.len(),
{
    if s.len() > 0 && is_digit(s[0]) {
        lemma_prefix_digits_len_bounds(s.drop_first());
    }
}

/// Helper: a string whose first `i` characters are digits has a digit
/// prefix at least `i` long.
proof fn lemma_prefix_digits_len_at_least(s: Seq<char>, i: int)
    requires
        0 <= i <= s.len(),
        forall|j: int| 0 <= j < i ==> is_digit(#[trigger] s[j]),
    ensures
        prefix_digits_len(s) >= i,
    decreases i,
{
    lemma_prefix_digits_len_bounds(s);
    if i > 0 {
        assert(is_digit(s[0]));
        let rest = s.drop_first();
        assert(forall|j: int| 0 <= j < i - 1 ==> is_digit(#[trigger] rest[j]));
        lemma_prefix_digits_len_at_least(rest, i - 1);
        assert(prefix_digits_len(rest) >= i - 1);
        assert(prefix_digits_len(s) == 1 + prefix_digits_len(rest));
    }
}

/// Helper: reading more digits never shrinks the value.
proof fn lemma_digits_value_monotone(s: Seq<char>, i: int, k: int)
    requires
        0 <= i <= k <= s.len(),
    ensures
        digits_value(s.subrange(0, i)) <= digits_value(s.subrange(0, k)),
    decreases k - i,
{
    if i < k {
        lemma_digits_value_monotone(s, i, k - 1);
        assert(s.subrange(0, k).drop_last() =~= s.subrange(0, k - 1));
        let prev = digits_value(s.subrange(0, k - 1));
        assert(digits_value(s.subrange(0, k)) == prev * 10 + digit_val(s.subrange(0, k).last()));
        assert(prev * 10 >= prev) by (nonlinear_arith)
            requires
                prev >= 0,
        ;
    }
}

/// Parses a leading numeric prefix such as `001_` out of a file name:
/// `Some(1)` for `001_init.surql`, `None` when the name does not begin
/// with digits followed by an underscore, or when the number does not fit
/// in 64 bits.
pub fn parse_numeric_prefix(file_name: &str) -> (r: Option<u64>)
    ensures
        match r {
            Some(v) => has_numeric_prefix(file_name@) && v == numeric_prefix_value(file_name@),
            None => !has_numeric_prefix(file_name@) || numeric_prefix_value(file_name@)
                > u64::MAX,
        },
{
    let s = Ghost(file_name@);
    let n = file_name.unicode_len();
    let mut i: usize = 0;
    let mut acc: u64 = 0;
    proof {
        assert(s@.subrange(0, 0) =~= Seq::<char>::empty());
    }
    loop
        invariant
            i <= n,
            n == s@.len(),
            s@ == file_name@,
            forall|j: int| 0 <= j < i ==> is_digit(#[trigger] s@[j]),
            acc == digits_value(s@.subrange(0, i as int)),
        ensures
            i <= n,
            n == s@.len(),
            forall|j: int| 0 <= j < i ==> is_digit(#[trigger] s@[j]),
            acc == digits_value(s@.subrange(0, i as int)),
            i == n || !is_digit(s@[i as int]),
        decreases n - i,
    {
        if i == n {
            break ;
        }
        let c = file_name.get_char(i);
        if !('0' <= c && c <= '9') {
            break ;
        }
        let d: u64 = ((c as u32) - 48) as u64;
        proof {
            assert(d == digit_val(s@[i as int]));
            assert(s@.subrange(0, i + 1).drop_last() =~= s@.subrange(0, i as int));
            assert(s@.subrange(0, i + 1).last() == s@[i as int]);
        }
        let scaled = match acc.checked_mul(10) {
            Some(x) => x,
            None => {
                proof {
                    overflow_means_no_fit(s@, i as int, n as int);
                }
                return None;
            },
        };
        let next = match scaled.checked_add(d) {
            Some(y) => y,
            None => {
                proof {
                    overflow_means_no_fit(s@, i as int, n as int);
                }
                return None;
            },
        };
        acc = next;
        i = i + 1;
    }
    // Here the first `i` characters are digits and `i` is the full run.
    proof {
        lemma_prefix_digits_len_is(s@, i as int);
    }
    if i == 0 {
        return None;
    }
    if i == n {
        return None;
    }
    let c = file_name.get_char(i);
    if c != '_' {
        return None;
    }
    Some(acc)
}

/// Helper: once the accumulated digits exceed 64 bits, the whole numeric
/// prefix does too (if the name has one at all).
proof fn overflow_means_no_fit(s: Seq<char>, i: int, n: int)
    requires
        0 <= i < n == s.len(),
        forall|j: int| 0 <= j < i ==> is_digit(#[trigger] s[j]),
        is_digit(s[i]),
        digits_value(s.subrange(0, i)) * 10 + digit_val(s[i]) > u64::MAX,
    ensures
        !has_numeric_prefix(s) || numeric_prefix_value(s) > u64::MAX,
{
    if has_numeric_prefix(s) {
        let k = prefix_digits_len(s);
        assert(forall|j: int| 0 <= j < i + 1 ==> is_digit(#[trigger] s[j]));
        lemma_prefix_digits_len_at_least(s, i + 1);
        assert(s.subrange(0, i + 1).drop_last() =~= s.subrange(0, i));
        assert(s.subrange(0, i + 1).last() == s[i]);
        assert(digits_value(s.subrange(0, i + 1)) > u64::MAX);
        lemma_digits_value_monotone(s, i + 1, k);
    }
}

} // verus!

verus! {

/// Whether a file name counts when computing the next numeric prefix: a
/// `.surql` file whose numeric prefix parses (it exists and fits 64 bits).
pub open spec fn spec_counted(name: Seq<char>) -> bool {
    &&& name.len() >= ".surql"@.len()
    &&& matches_at(name, ".surql"@, name.len() - ".surql"@.len())
    &&& has_numeric_prefix(name)
    &&& numeric_prefix_value(name) <= u64::MAX
}

/// The largest numeric prefix among the counted names, if any name counts.
pub open spec fn spec_max_prefix(names: Seq<Seq<char>>) -> Option<nat>
    decreases names.len(),
{
    if names.len() == 0 {
        None
    } else {
        let rest = spec_max_prefix(names.drop_last());
        if spec_counted(names.last()) {
            let v = numeric_prefix_value(names.last());
            match rest {
                None => Some(v),
                Some(m) => Some(
                    if v > m {
                        v
                    } else {
                        m
                    },
                ),
            }
        } else {
            rest
        }
    }
}

/// The next free numeric prefix among the given file names: one more than
/// the largest prefix of any `.surql` name present, or `0` when none is.
/// A largest prefix that already fills 64 bits is returned as it is rather
/// than overflowing.
pub fn next_numeric_prefix(names: &Vec<String>) -> (r: u64)
    ensures
        match spec_max_prefix(names.deep_view()) {
            None => r == 0,
            Some(m) => r == if m == u64::MAX {
                m
            } else {
                m + 1
            },
        },
{
    let ghost all = names.deep_view();
    let mut max: Option<u64> = None;
    let mut i: usize = 0;
    proof {
        assert(all.take(0) =~= Seq::<Seq<char>>::empty());
    }
    while i < names.len()
        invariant
            i <= names@.len(),
            all == names.deep_view(),
            spec_max_prefix(all.take(i as int)) == match max {
                Some(v) => Some(v as nat),
                None => None::<nat>,
            },
        decreases names@.len() - i,
    {
        let name = &names[i];
        let counted = if ends_with(name.as_str(), ".surql") {
            parse_numeric_prefix(name.as_str())
        } else {
            None
        };
        proof {
            assert(all[i as int] == names@[i as int]@);
            assert(all.take(i + 1) =~= all.take(i as int).push(all[i as int]));
            assert(all.take(i + 1).drop_last() =~= all.take(i as int));
            assert(all.take(i + 1).last() == all[i as int]);
            assert(counted matches Some(v) ==> spec_counted(all[i as int])
                && v == numeric_prefix_value(all[i as int]));
            assert(counted is None ==> !spec_counted(all[i as int]));
        }
        match counted {
            Some(n) => {
                max = match max {
                    Some(m) => if n > m {
                        Some(n)
                    } else {
                        Some(m)
                    },
                    None => Some(n),
                };
            },
            None => {},
        }
        i = i + 1;
    }
    proof {
        assert(all.take(names@.len() as int) =~= all);
    }
    match max {
        None => 0,
        Some(v) => {
            if v == u64::MAX {
                v
            } else {
                v + 1
            }
        },
    }
}

} // verus!

verus! {

/// The Unicode whitespace property, as `char::is_whitespace` decides it.
pub uninterp spec fn char_is_whitespace(c: char) -> bool;

/// Relies on `char::is_whitespace`: whether the character has the Unicode
/// whitespace property, a function of the character alone.
pub assume_specification[ char::is_whitespace ](c: char) -> (r: bool)
    ensures
        r == char_is_whitespace(c),
;

/// Characters stripped from migration names: those not allowed in file
/// names on common filesystems.
pub open spec fn is_invalid_char(c: char) -> bool {
    c == '/' || c == '\\' || c == ':' || c == '*' || c == '?' || c == '"' || c == '<' || c == '>'
        || c == '|'
}

/// Whether `c` is stripped from migration names.
pub fn invalid_char(c: char) -> (r: bool)
    ensures
        r == is_invalid_char(c),
{
    c == '/' || c == '\\' || c == ':' || c == '*' || c == '?' || c == '"' || c == '<' || c == '>'
        || c == '|'
}

/// The Unicode whitespace property, as a predicate value.
pub open spec fn whitespace_pred() -> spec_fn(char) -> bool {
    |c: char| char_is_whitespace(c)
}

/// "Is an underscore", as a predicate value.
pub open spec fn underscore_pred() -> spec_fn(char) -> bool {
    |c: char| c == '_'
}

/// `s` without its leading run of characters satisfying `pred`.
pub open spec fn spec_drop_leading(s: Seq<char>, pred: spec_fn(char) -> bool) -> Seq<char>
    decreases s.len(),
{
    if s.len() == 0 {
        s
    } else if pred(s.first()) {
        spec_drop_leading(s.drop_first(), pred)
    } else {
        s
    }
}

/// `s` without its trailing run of characters satisfying `pred`.
pub open spec fn spec_drop_trailing(s: Seq<char>, pred: spec_fn(char) -> bool) -> Seq<char>
    decreases s.len(),
{
    if s.len() == 0 {
        s
    } else if pred(s.last()) {
        spec_drop_trailing(s.drop_last(), pred)
    } else {
        s
    }
}

/// `s` with every run of consecutive underscores collapsed to one.
pub open spec fn spec_collapse_underscores(s: Seq<char>) -> Seq<char>
    decreases s.len(),
{
    if s.len() <= 1 {
        s
    } else if s.first() == '_' && s[1] == '_' {
        spec_collapse_underscores(s.drop_first())
    } else {
        seq![s.first()] + spec_collapse_underscores(s.drop_first())
    }
}

/// What sanitizing a migration name means: trim surrounding whitespace,
/// turn the remaining whitespace into underscores, strip characters that
/// cannot appear in file names, collapse runs of underscores, and trim
/// underscores left at either end.
pub open spec fn spec_sanitize(s: Seq<char>) -> Seq<char> {
    let trimmed = spec_drop_trailing(spec_drop_leading(s, whitespace_pred()), whitespace_pred());
    let underscored = trimmed.map_values(
        |c: char|
            if char_is_whitespace(c) {
                '_'
            } else {
                c
            },
    );
    let kept = underscored.filter(|c: char| !is_invalid_char(c));
    let collapsed = spec_collapse_underscores(kept);
    spec_drop_trailing(spec_drop_leading(collapsed, underscore_pred()), underscore_pred())
}

/// Helper: dropping a leading run is taking the rest: when the first `k`
/// characters satisfy `pred` and the next one (if any) does not, the
/// leading drop is exactly `s.skip(k)`.
proof fn lemma_drop_leading_skip(s: Seq<char>, pred: spec_fn(char) -> bool, k: int)
    requires
        0 <= k <= s.len(),
        forall|j: int| 0 <= j < k ==> pred(#[trigger] s[j]),
        k < s.len() ==> !pred(s[k]),
    ensures
        spec_drop_leading(s, pred) == s.skip(k),
    decreases k,
{
    if k == 0 {
        assert(s.skip(0) =~= s);
    } else {
        assert(pred(s[0]));
        let rest = s.drop_first();
        assert(forall|j: int| 0 <= j < k - 1 ==> pred(#[trigger] rest[j]));
        lemma_drop_leading_skip(rest, pred, k - 1);
        assert(rest.skip(k - 1) =~= s.skip(k));
    }
}

/// Helper: dropping a trailing run is taking the front: when everything
/// from position `k` on satisfies `pred` and the character before (if any)
/// does not, the trailing drop is exactly `s.take(k)`.
proof fn lemma_drop_trailing_take(s: Seq<char>, pred: spec_fn(char) -> bool, k: int)
    requires
        0 <= k <= s.len(),
        forall|j: int| k <= j < s.len() ==> pred(#[trigger] s[j]),
        k > 0 ==> !pred(s[k - 1]),
    ensures
        spec_drop_trailing(s, pred) == s.take(k),
    decreases s.len(),
{
    if k == s.len() {
        if s.len() > 0 {
            assert(!pred(s.last()));
        }
        assert(s.take(k) =~= s);
    } else {
        assert(pred(s.last()));
        let rest = s.drop_last();
        assert(forall|j: int| k <= j < rest.len() ==> pred(#[trigger] rest[j]));
        lemma_drop_trailing_take(rest, pred, k);
        assert(rest.take(k) =~= s.take(k));
    }
}

/// The characters of a string, in order.
fn chars_of(s: &str) -> (r: Vec<char>)
    ensures
        r@ == s@,
{
    let n = s.unicode_len();
    let mut out: Vec<char> = Vec::new();
    let mut i: usize = 0;
    proof {
        assert(out@ =~= s@.take(0));
    }
    while i < n
        invariant
            i <= n,
            n == s@.len(),
            out@ == s@.take(i as int),
        decreases n - i,
    {
        out.push(s.get_char(i));
        proof {
            assert(s@.take(i + 1) =~= s@.take(i as int).push(s@[i as int]));
        }
        i = i + 1;
    }
    proof {
        assert(s@.take(n as int) =~= s@);
    }
    out
}

/// A string holding exactly the given characters, in order.
fn string_of(v: &Vec<char>) -> (r: String)
    ensures
        r@ == v@,
{
    let mut out = String::new();
    let mut i: usize = 0;
    proof {
        assert(out@ =~= v@.take(0));
    }
    while i < v.len()
        invariant
            i <= v@.len(),
            out@ == v@.take(i as int),
        decreases v@.len() - i,
    {
        out.push(v[i]);
        proof {
            assert(v@.take(i + 1) =~= v@.take(i as int).push(v@[i as int]));
        }
        i = i + 1;
    }
    proof {
        assert(v@.take(v@.len() as int) =~= v@);
    }
    out
}

/// The characters with the surrounding whitespace dropped.
fn trim_whitespace(v: &Vec<char>) -> (r: Vec<char>)
    ensures
        r@ == spec_drop_trailing(
            spec_drop_leading(v@, whitespace_pred()),
            whitespace_pred(),
        ),
{
    let ghost pred = whitespace_pred();
    let n = v.len();
    let mut start: usize = 0;
    while start < n && v[start].is_whitespace()
        invariant
            start <= n,
            n == v@.len(),
            forall|j: int| 0 <= j < start ==> pred(#[trigger] v@[j]),
            pred == whitespace_pred(),
        decreases n - start,
    {
        start = start + 1;
    }
    proof {
        lemma_drop_leading_skip(v@, pred, start as int);
    }
    let ghost mid = v@.skip(start as int);
    let mut end: usize = n;
    while end > start && v[end - 1].is_whitespace()
        invariant
            start <= end <= n,
            n == v@.len(),
            forall|j: int| end <= j < n ==> pred(#[trigger] v@[j]),
            pred == whitespace_pred(),
            mid == v@.skip(start as int),
        decreases end,
    {
        end = end - 1;
    }
    proof {
        assert(forall|j: int| end - start <= j < mid.len() ==> pred(#[trigger] mid[j]));
        assert(end > start ==> !pred(mid[end - start - 1]));
        lemma_drop_trailing_take(mid, pred, end - start as int);
    }
    let mut out: Vec<char> = Vec::new();
    let mut i: usize = start;
    proof {
        assert(out@ =~= v@.subrange(start as int, start as int));
    }
    while i < end
        invariant
            start <= i <= end <= n,
            n == v@.len(),
            out@ == v@.subrange(start as int, i as int),
        decreases end - i,
    {
        out.push(v[i]);
        proof {
            assert(v@.subrange(start as int, i + 1) =~= v@.subrange(start as int, i as int).push(
                v@[i as int],
            ));
        }
        i = i + 1;
    }
    proof {
        assert(out@ =~= mid.take(end - start as int));
    }
    out
}

/// The characters with the surrounding underscores dropped.
fn trim_underscores(v: &Vec<char>) -> (r: Vec<char>)
    ensures
        r@ == spec_drop_trailing(
            spec_drop_leading(v@, underscore_pred()),
            underscore_pred(),
        ),
{
    let ghost pred = underscore_pred();
    let n = v.len();
    let mut start: usize = 0;
    while start < n && v[start] == '_'
        invariant
            start <= n,
            n == v@.len(),
            forall|j: int| 0 <= j < start ==> pred(#[trigger] v@[j]),
            pred == underscore_pred(),
        decreases n - start,
    {
        start = start + 1;
    }
    proof {
        lemma_drop_leading_skip(v@, pred, start as int);
    }
    let ghost mid = v@.skip(start as int);
    let mut end: usize = n;
    while end > start && v[end - 1] == '_'
        invariant
            start <= end <= n,
            n == v@.len(),
            forall|j: int| end <= j < n ==> pred(#[trigger] v@[j]),
            pred == underscore_pred(),
            mid == v@.skip(start as int),
        decreases end,
    {
        end = end - 1;
    }
    proof {
        assert(forall|j: int| end - start <= j < mid.len() ==> pred(#[trigger] mid[j]));
        assert(end > start ==> !pred(mid[end - start - 1]));
        lemma_drop_trailing_take(mid, pred, end - start as int);
    }
    let mut out: Vec<char> = Vec::new();
    let mut i: usize = start;
    proof {
        assert(out@ =~= v@.subrange(start as int, start as int));
    }
    while i < end
        invariant
            start <= i <= end <= n,
            n == v@.len(),
            out@ == v@.subrange(start as int, i as int),
        decreases end - i,
    {
        out.push(v[i]);
        proof {
            assert(v@.subrange(start as int, i + 1) =~= v@.subrange(start as int, i as int).push(
                v@[i as int],
            ));
        }
        i = i + 1;
    }
    proof {
        assert(out@ =~= mid.take(end - start as int));
    }
    out
}

/// Each whitespace character replaced by an underscore.
fn whitespace_to_underscores(v: &Vec<char>) -> (r: Vec<char>)
    ensures
        r@ == v@.map_values(
            |c: char|
                if char_is_whitespace(c) {
                    '_'
                } else {
                    c
                },
        ),
{
    let f = Ghost(
        |c: char|
            if char_is_whitespace(c) {
                '_'
            } else {
                c
            },
    );
    let mut out: Vec<char> = Vec::new();
    let mut i: usize = 0;
    proof {
        assert(v@.take(0) =~= Seq::<char>::empty());
        assert(out@ =~= v@.take(0).map_values(f@));
    }
    while i < v.len()
        invariant
            i <= v@.len(),
            f@ == (|c: char|
                if char_is_whitespace(c) {
                    '_'
                } else {
                    c
                }),
            out@ == v@.take(i as int).map_values(f@),
        decreases v@.len() - i,
    {
        let c = v[i];
        if c.is_whitespace() {
            out.push('_');
        } else {
            out.push(c);
        }
        proof {
            assert(v@.take(i + 1) =~= v@.take(i as int).push(v@[i as int]));
            assert(v@.take(i + 1).map_values(f@) == v@.take(i as int).push(
                v@[i as int],
            ).map_values(f@));
        }
        i = i + 1;
    }
    proof {
        assert(v@.take(v@.len() as int) =~= v@);
    }
    out
}

/// The characters with the invalid ones dropped.
fn drop_invalid_chars(v: &Vec<char>) -> (r: Vec<char>)
    ensures
        r@ == v@.filter(|c: char| !is_invalid_char(c)),
{
    let keep = Ghost(|c: char| !is_invalid_char(c));
    let mut out: Vec<char> = Vec::new();
    let mut i: usize = 0;
    proof {
        assert(v@.take(0) =~= Seq::<char>::empty());
        assert(out@ =~= v@.take(0).filter(keep@));
    }
    while i < v.len()
        invariant
            i <= v@.len(),
            keep@ == (|c: char| !is_invalid_char(c)),
            out@ == v@.take(i as int).filter(keep@),
        decreases v@.len() - i,
    {
        let c = v[i];
        let bad = invalid_char(c);
        proof {
            assert(keep@(v@[i as int]) == !bad);
        }
        if !bad {
            out.push(c);
        }
        proof {
            assert(v@.take(i + 1) =~= v@.take(i as int).push(v@[i as int]));
            assert(v@.take(i + 1).filter(keep@) == v@.take(i as int).push(v@[i as int]).filter(
                keep@,
            ));
        }
        i = i + 1;
    }
    proof {
        assert(v@.take(v@.len() as int) =~= v@);
    }
    out
}

/// Runs of consecutive underscores collapsed to a single one.
fn collapse_underscores(v: &Vec<char>) -> (r: Vec<char>)
    ensures
        r@ == spec_collapse_underscores(v@),
{
    let n = v.len();
    let mut out: Vec<char> = Vec::new();
    let mut i: usize = 0;
    proof {
        assert(v@.skip(0) =~= v@);
    }
    while i < n
        invariant
            i <= n,
            n == v@.len(),
            spec_collapse_underscores(v@) == out@ + spec_collapse_underscores(
                v@.skip(i as int),
            ),
        decreases n - i,
    {
        let c = v[i];
        let ghost rest = v@.skip(i as int);
        proof {
            assert(rest.len() > 0);
            assert(rest.first() == v@[i as int]);
            assert(rest.drop_first() =~= v@.skip(i + 1));
            if rest.len() > 1 {
                assert(rest[1] == v@[i + 1]);
            }
        }
        if c == '_' && i + 1 < n && v[i + 1] == '_' {
            proof {
                assert(spec_collapse_underscores(rest) == spec_collapse_underscores(
                    v@.skip(i + 1),
                ));
            }
        } else {
            out.push(c);
            proof {
                if rest.len() == 1 {
                    assert(spec_collapse_underscores(v@.skip(i + 1)) =~= Seq::<char>::empty());
                    assert(spec_collapse_underscores(rest) =~= seq![rest.first()]
                        + spec_collapse_underscores(v@.skip(i + 1)));
                } else {
                    assert(spec_collapse_underscores(rest) == seq![rest.first()]
                        + spec_collapse_underscores(v@.skip(i + 1)));
                }
            }
        }
        proof {
            assert((out@ + spec_collapse_underscores(v@.skip(i + 1))).len() >= 0);
        }
        i = i + 1;
    }
    proof {
        assert(v@.skip(n as int).len() == 0);
        assert(out@ + spec_collapse_underscores(v@.skip(n as int)) =~= out@);
    }
    out
}

/// Sanitizes a user-supplied migration name into a filesystem-safe token:
/// surrounding whitespace is trimmed, inner whitespace becomes `_`,
/// characters invalid in file names are removed, runs of `_` collapse to
/// one, and leftover `_` at either end is trimmed.
pub fn sanitize_name(name: &str) -> (r: String)
    ensures
        r@ == spec_sanitize(name@),
{
    let cs = chars_of(name);
    let trimmed = trim_whitespace(&cs);
    let underscored = whitespace_to_underscores(&trimmed);
    let kept = drop_invalid_chars(&underscored);
    let collapsed = collapse_underscores(&kept);
    let result = trim_underscores(&collapsed);
    string_of(&result)
}

} // verus!

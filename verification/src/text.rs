//! Character-level text utilities: digit-string parsing, separator
//! splitting, two-character pattern search, and (case-insensitive)
//! string comparison. All specifications speak of `Seq<char>` views;
//! character classes are stated over code points.

use vstd::prelude::*;

verus! {

/// The views of a sequence of owned strings.
pub open spec fn views_of(fields: Seq<String>) -> Seq<Seq<char>> {
    fields.map_values(|f: String| f@)
}

// ---------------------------------------------------------------------
// Digit strings
// ---------------------------------------------------------------------

/// `c` is an ASCII decimal digit (code points 48..=57).
pub open spec fn is_digit_char(c: char) -> bool {
    48 <= c as int && c as int <= 57
}

/// The numeric value of an ASCII digit.
pub open spec fn digit_val(c: char) -> int {
    c as int - 48
}

/// Every character of `s` is an ASCII decimal digit.
pub open spec fn all_digits(s: Seq<char>) -> bool {
    forall|i: int| 0 <= i < s.len() ==> is_digit_char(s[i])
}

/// The base-10 value of a digit string.
pub open spec fn digits_val(s: Seq<char>) -> int
    decreases s.len(),
{
    if s.len() == 0 {
        0
    } else {
        digits_val(s.drop_last()) * 10 + digit_val(s.last())
    }
}

/// The year-field policy: a nonempty all-digit field whose value fits in
/// `usize` is its numeric value; any other field is the sentinel `0`.
pub open spec fn parse_year_spec(s: Seq<char>) -> int {
    if s.len() > 0 && all_digits(s) && digits_val(s) <= usize::MAX as int {
        digits_val(s)
    } else {
        0
    }
}

pub proof fn lemma_digits_val_nonneg(s: Seq<char>)
    requires
        all_digits(s),
    ensures
        digits_val(s) >= 0,
    decreases s.len(),
{
    if s.len() > 0 {
        assert(all_digits(s.drop_last()));
        lemma_digits_val_nonneg(s.drop_last());
    }
}

/// The value of a digit string dominates the value of each of its
/// prefixes.
pub proof fn lemma_digits_val_prefix(s: Seq<char>, j: int)
    requires
        all_digits(s),
        0 <= j <= s.len(),
    ensures
        digits_val(s.take(j)) <= digits_val(s),
    decreases s.len() - j,
{
    if j == s.len() {
        assert(s.take(j) =~= s);
    } else {
        assert(s.take(j + 1).drop_last() =~= s.take(j));
        assert(all_digits(s.take(j)));
        lemma_digits_val_nonneg(s.take(j));
        assert(digits_val(s.take(j)) <= digits_val(s.take(j + 1)));
        lemma_digits_val_prefix(s, j + 1);
    }
}

/// Parses a year field: the numeric value of a nonempty all-digit field
/// that fits in `usize`, and the sentinel `0` for every other field.
pub fn parse_year(s: &str) -> (r: usize)
    ensures
        r as int == parse_year_spec(s@),
{
    let n = s.unicode_len();
    if n == 0 {
        return 0;
    }
    let mut val: usize = 0;
    let mut i: usize = 0;
    while i < n
        invariant
            0 <= i <= n,
            n == s@.len(),
            all_digits(s@.take(i as int)),
            val as int == digits_val(s@.take(i as int)),
        decreases n - i,
    {
        let c = s.get_char(i);
        let code = c as u32;
        if code < 48 || code > 57 {
            assert(!is_digit_char(s@[i as int]));
            return 0;
        }
        let d = (code - 48) as usize;
        proof {
            assert(s@.take(i + 1).drop_last() =~= s@.take(i as int));
            assert(s@.take(i + 1).last() == s@[i as int]);
            assert(all_digits(s@.take(i + 1)));
        }
        let next = match val.checked_mul(10) {
            Option::Some(v) => v.checked_add(d),
            Option::None => Option::None,
        };
        match next {
            Option::Some(v) => {
                val = v;
                i = i + 1;
            },
            Option::None => {
                proof {
                    // the running value already exceeds usize::MAX, so the
                    // whole field does too, whatever follows
                    if all_digits(s@) {
                        assert(digits_val(s@.take(i + 1)) > usize::MAX as int);
                        lemma_digits_val_prefix(s@, i + 1);
                    }
                }
                return 0;
            },
        }
    }
    proof {
        assert(s@.take(n as int) =~= s@);
    }
    val
}

// ---------------------------------------------------------------------
// Splitting on a separator
// ---------------------------------------------------------------------

/// The fields of `s` split on every occurrence of `sep`: always at least
/// one field, one more for each separator, separators not kept.
pub open spec fn split_on(s: Seq<char>, sep: char) -> Seq<Seq<char>>
    decreases s.len(),
{
    if s.len() == 0 {
        seq![Seq::<char>::empty()]
    } else if s[0] == sep {
        seq![Seq::<char>::empty()] + split_on(s.drop_first(), sep)
    } else {
        let rest = split_on(s.drop_first(), sep);
        seq![seq![s[0]] + rest[0]] + rest.drop_first()
    }
}

pub proof fn lemma_split_on_len(s: Seq<char>, sep: char)
    ensures
        split_on(s, sep).len() >= 1,
    decreases s.len(),
{
    if s.len() == 0 {
    } else if s[0] == sep {
        lemma_split_on_len(s.drop_first(), sep);
    } else {
        lemma_split_on_len(s.drop_first(), sep);
    }
}

/// A string without the separator is a single field.
pub proof fn lemma_split_on_no_sep(s: Seq<char>, sep: char)
    requires
        forall|j: int| 0 <= j < s.len() ==> s[j] != sep,
    ensures
        split_on(s, sep) == seq![s],
    decreases s.len(),
{
    if s.len() == 0 {
        assert(split_on(s, sep) =~~= seq![s]);
    } else {
        lemma_split_on_no_sep(s.drop_first(), sep);
        let rest = split_on(s.drop_first(), sep);
        assert(rest == seq![s.drop_first()]);
        assert(seq![s[0]] + rest[0] =~= s);
        assert(split_on(s, sep) =~~= seq![s]);
    }
}

/// Splitting at the first separator: the field before it, then the split
/// of what follows it.
pub proof fn lemma_split_on_at_sep(s: Seq<char>, sep: char, i: int)
    requires
        0 <= i < s.len(),
        s[i] == sep,
        forall|j: int| 0 <= j < i ==> s[j] != sep,
    ensures
        split_on(s, sep) == seq![s.take(i)] + split_on(s.skip(i + 1), sep),
    decreases i,
{
    if i == 0 {
        assert(s.drop_first() =~= s.skip(1));
        assert(s.take(0) =~= Seq::<char>::empty());
        assert(split_on(s, sep) =~~= seq![s.take(0)] + split_on(s.skip(1), sep));
    } else {
        let rest = split_on(s.drop_first(), sep);
        lemma_split_on_at_sep(s.drop_first(), sep, i - 1);
        assert(s.drop_first().take(i - 1) =~= s.subrange(1, i));
        assert(s.drop_first().skip(i) =~= s.skip(i + 1));
        assert(rest == seq![s.subrange(1, i)] + split_on(s.skip(i + 1), sep));
        assert(rest[0] == s.subrange(1, i));
        assert(rest.drop_first() =~~= split_on(s.skip(i + 1), sep));
        assert(seq![s[0]] + rest[0] =~= s.take(i));
        assert(split_on(s, sep) =~~= seq![s.take(i)] + split_on(s.skip(i + 1), sep));
    }
}

/// Splits `s` on every occurrence of `sep`.
pub fn split_on_char(s: &str, sep: char) -> (r: Vec<String>)
    ensures
        views_of(r@) == split_on(s@, sep),
{
    let n = s.unicode_len();
    let mut fields: Vec<String> = Vec::new();
    let mut start: usize = 0;
    let mut i: usize = 0;
    proof {
        assert(s@.skip(0) =~= s@);
    }
    while i < n
        invariant
            0 <= start <= i <= n,
            n == s@.len(),
            forall|j: int| start <= j < i ==> s@[j] != sep,
            views_of(fields@) + split_on(s@.skip(start as int), sep) == split_on(s@, sep),
        decreases n - i,
    {
        let c = s.get_char(i);
        if c == sep {
            let field = s.substring_char(start, i).to_owned();
            proof {
                let tail = s@.skip(start as int);
                assert(tail[i - start] == sep);
                assert(forall|j: int| 0 <= j < i - start ==> tail[j] != sep);
                lemma_split_on_at_sep(tail, sep, i - start);
                assert(tail.take(i - start) =~= s@.subrange(start as int, i as int));
                assert(tail.skip(i - start + 1) =~= s@.skip(i + 1));
            }
            let ghost old_fields = fields@;
            fields.push(field);
            proof {
                assert(views_of(fields@) =~= views_of(old_fields) + seq![s@.subrange(
                    start as int,
                    i as int,
                )]);
                assert(views_of(fields@) + split_on(s@.skip(i + 1), sep) =~~= split_on(s@, sep));
            }
            start = i + 1;
        }
        i = i + 1;
    }
    let tail = s.substring_char(start, n).to_owned();
    proof {
        lemma_split_on_no_sep(s@.skip(start as int), sep);
        assert(s@.skip(start as int) =~= s@.subrange(start as int, n as int));
    }
    let ghost old_fields = fields@;
    fields.push(tail);
    proof {
        assert(views_of(fields@) =~= views_of(old_fields) + seq![s@.subrange(
            start as int,
            n as int,
        )]);
        assert(views_of(fields@) =~~= split_on(s@, sep));
    }
    fields
}

// ---------------------------------------------------------------------
// Membership and two-character patterns
// ---------------------------------------------------------------------

/// `s` contains the character `c`.
pub open spec fn contains_char(s: Seq<char>, c: char) -> bool {
    exists|i: int| 0 <= i < s.len() && s[i] == c
}

/// Whether `s` contains the character `c`.
pub fn str_contains_char(s: &str, c: char) -> (r: bool)
    ensures
        r == contains_char(s@, c),
{
    let n = s.unicode_len();
    let mut i: usize = 0;
    while i < n
        invariant
            0 <= i <= n,
            n == s@.len(),
            forall|j: int| 0 <= j < i ==> s@[j] != c,
        decreases n - i,
    {
        if s.get_char(i) == c {
            return true;
        }
        i = i + 1;
    }
    false
}

/// The position of the first occurrence of the two-character pattern
/// `c1 c2` in `s`, if any.
pub open spec fn first2(s: Seq<char>, c1: char, c2: char) -> Option<int>
    decreases s.len(),
{
    if s.len() < 2 {
        Option::None
    } else if s[0] == c1 && s[1] == c2 {
        Option::Some(0)
    } else {
        match first2(s.drop_first(), c1, c2) {
            Option::Some(i) => Option::Some(i + 1),
            Option::None => Option::None,
        }
    }
}

/// A found position is in bounds, with one character to spare.
pub proof fn lemma_first2_bounds(s: Seq<char>, c1: char, c2: char)
    ensures
        match first2(s, c1, c2) {
            Option::Some(i) => 0 <= i && i + 1 < s.len() && s[i] == c1 && s[i + 1] == c2,
            Option::None => true,
        },
    decreases s.len(),
{
    if s.len() >= 2 && !(s[0] == c1 && s[1] == c2) {
        lemma_first2_bounds(s.drop_first(), c1, c2);
    }
}

/// Finds the first occurrence of the two-character pattern `c1 c2`.
pub fn find2(s: &str, c1: char, c2: char) -> (r: Option<usize>)
    ensures
        match r {
            Option::Some(i) => first2(s@, c1, c2) == Option::Some(i as int),
            Option::None => first2(s@, c1, c2) is None,
        },
{
    let n = s.unicode_len();
    if n < 2 {
        return Option::None;
    }
    let mut i: usize = 0;
    proof {
        assert(s@.skip(0) =~= s@);
    }
    while i < n - 1
        invariant
            0 <= i <= n,
            2 <= n,
            n == s@.len(),
            match first2(s@.skip(i as int), c1, c2) {
                Option::None => first2(s@, c1, c2) is None,
                Option::Some(k) => first2(s@, c1, c2) == Option::Some(k + i),
            },
        decreases n - i,
    {
        let a = s.get_char(i);
        let b = s.get_char(i + 1);
        if a == c1 && b == c2 {
            proof {
                let tail = s@.skip(i as int);
                assert(tail[0] == c1 && tail[1] == c2);
                assert(first2(tail, c1, c2) == Option::Some(0int));
            }
            return Option::Some(i);
        }
        proof {
            let tail = s@.skip(i as int);
            assert(tail.drop_first() =~= s@.skip(i + 1));
        }
        i = i + 1;
    }
    proof {
        assert(s@.skip(i as int).len() < 2);
    }
    Option::None
}

// ---------------------------------------------------------------------
// String comparison
// ---------------------------------------------------------------------

/// Whether the views of two strings are equal.
pub fn str_eq(a: &str, b: &str) -> (r: bool)
    ensures
        r == (a@ == b@),
{
    let na = a.unicode_len();
    let nb = b.unicode_len();
    if na != nb {
        return false;
    }
    let mut i: usize = 0;
    while i < na
        invariant
            0 <= i <= na,
            na == a@.len(),
            na == b@.len(),
            forall|j: int| 0 <= j < i ==> a@[j] == b@[j],
        decreases na - i,
    {
        if a.get_char(i) != b.get_char(i) {
            return false;
        }
        i = i + 1;
    }
    proof {
        assert(a@ =~= b@);
    }
    true
}

/// The code point of `c`, with ASCII upper-case letters folded to lower
/// case.
pub open spec fn ascii_lower_code(c: char) -> int {
    if 65 <= c as int && c as int <= 90 {
        c as int + 32
    } else {
        c as int
    }
}

/// Equality up to ASCII case: equal lengths and, position by position,
/// equal case-folded code points.
pub open spec fn eq_ignore_ascii_case_spec(a: Seq<char>, b: Seq<char>) -> bool {
    a.len() == b.len() && (forall|i: int|
        0 <= i < a.len() ==> ascii_lower_code(a[i]) == ascii_lower_code(b[i]))
}

/// Compares two strings up to ASCII case.
pub fn eq_ignore_ascii_case(a: &str, b: &str) -> (r: bool)
    ensures
        r == eq_ignore_ascii_case_spec(a@, b@),
{
    let na = a.unicode_len();
    let nb = b.unicode_len();
    if na != nb {
        return false;
    }
    let mut i: usize = 0;
    while i < na
        invariant
            0 <= i <= na,
            na == a@.len(),
            na == b@.len(),
            forall|j: int| 0 <= j < i ==> ascii_lower_code(a@[j]) == ascii_lower_code(b@[j]),
        decreases na - i,
    {
        let x = lower_code_of(a.get_char(i));
        let y = lower_code_of(b.get_char(i));
        if x != y {
            return false;
        }
        i = i + 1;
    }
    true
}

/// The case-folded code point of a character.
fn lower_code_of(c: char) -> (r: u32)
    ensures
        r as int == ascii_lower_code(c),
{
    let code = c as u32;
    if 65 <= code && code <= 90 {
        code + 32
    } else {
        code
    }
}

} // verus!

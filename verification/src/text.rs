//! Character-level helpers shared by the address and argument parsers:
//! digit classes, decimal and hexadecimal values, first-occurrence search,
//! and string equality.

use vstd::prelude::*;

verus! {

/// Whether `c` is a decimal digit.
pub open spec fn is_digit(c: char) -> bool {
    48 <= c as int <= 57
}

/// The value of a decimal digit.
pub open spec fn digit_val(c: char) -> int {
    c as int - 48
}

/// Whether `c` is a hexadecimal digit, either case.
pub open spec fn is_hex_digit(c: char) -> bool {
    is_digit(c) || (97 <= c as int <= 102) || (65 <= c as int <= 70)
}

/// The value of a hexadecimal digit.
pub open spec fn hex_digit_val(c: char) -> int {
    if is_digit(c) {
        digit_val(c)
    } else if 97 <= c as int <= 102 {
        c as int - 97 + 10
    } else {
        c as int - 65 + 10
    }
}

/// Whether every character of `s` is a decimal digit.
pub open spec fn all_digits(s: Seq<char>) -> bool {
    forall|i: int| 0 <= i < s.len() ==> is_digit(#[trigger] s[i])
}

/// Whether every character of `s` is a hexadecimal digit.
pub open spec fn all_hex_digits(s: Seq<char>) -> bool {
    forall|i: int| 0 <= i < s.len() ==> is_hex_digit(#[trigger] s[i])
}

/// The value of `s` read as a decimal numeral.
pub open spec fn dec_val(s: Seq<char>) -> int
    decreases s.len(),
{
    if s.len() == 0 {
        0
    } else {
        dec_val(s.drop_last()) * 10 + digit_val(s.last())
    }
}

/// The value of `s` read as a hexadecimal numeral.
pub open spec fn hex_val(s: Seq<char>) -> int
    decreases s.len(),
{
    if s.len() == 0 {
        0
    } else {
        hex_val(s.drop_last()) * 16 + hex_digit_val(s.last())
    }
}

/// A numeral of digits is not negative.
pub proof fn lemma_dec_val_nonneg(s: Seq<char>)
    requires
        all_digits(s),
    ensures
        dec_val(s) >= 0,
    decreases s.len(),
{
    if s.len() > 0 {
        assert(all_digits(s.drop_last())) by {
            assert(forall|i: int|
                0 <= i < s.drop_last().len() ==> #[trigger] s.drop_last()[i] == s[i]);
        }
        lemma_dec_val_nonneg(s.drop_last());
        assert(is_digit(s.last()));
    }
}

/// Dropping trailing digits never increases the value of a numeral.
pub proof fn lemma_dec_val_prefix(s: Seq<char>, i: int)
    requires
        all_digits(s),
        0 <= i <= s.len(),
    ensures
        dec_val(s.subrange(0, i)) <= dec_val(s),
    decreases s.len() - i,
{
    if i < s.len() {
        let t = s.subrange(0, i + 1);
        assert(t.drop_last() =~= s.subrange(0, i));
        assert(all_digits(t)) by {
            assert(forall|j: int| 0 <= j < t.len() ==> #[trigger] t[j] == s[j]);
        }
        assert(all_digits(t.drop_last()));
        lemma_dec_val_nonneg(t.drop_last());
        assert(dec_val(t) == dec_val(s.subrange(0, i)) * 10 + digit_val(t.last()));
        assert(dec_val(s.subrange(0, i)) <= dec_val(t)) by {
            lemma_dec_val_nonneg(s.subrange(0, i));
        }
        lemma_dec_val_prefix(s, i + 1);
        assert(s.subrange(0, s.len() as int) =~= s);
    } else {
        assert(s.subrange(0, i) =~= s);
    }
}

/// The position of the first occurrence of `c` in `s`, or the length of `s`
/// if `c` does not occur.
pub open spec fn find_first(s: Seq<char>, c: char) -> nat
    decreases s.len(),
{
    if s.len() == 0 {
        0
    } else if s[0] == c {
        0
    } else {
        1 + find_first(s.subrange(1, s.len() as int), c)
    }
}

/// `find_first` names the first occurrence: nothing before it matches, and
/// the position itself matches unless `c` is absent altogether.
pub proof fn lemma_find_first(s: Seq<char>, c: char)
    ensures
        find_first(s, c) <= s.len(),
        find_first(s, c) < s.len() ==> s[find_first(s, c) as int] == c,
        forall|j: int| 0 <= j < find_first(s, c) ==> s[j] != c,
    decreases s.len(),
{
    if s.len() == 0 {
    } else if s[0] == c {
    } else {
        let t = s.subrange(1, s.len() as int);
        lemma_find_first(t, c);
        assert(forall|j: int| 0 <= j < t.len() ==> #[trigger] t[j] == s[j + 1]);
        assert forall|j: int| 0 <= j < find_first(s, c) implies s[j] != c by {
            if j > 0 {
                assert(t[j - 1] == s[j]);
                assert(t[j - 1] != c);
            }
        }
    }
}

/// Any position with the first-occurrence properties is `find_first`.
pub proof fn lemma_find_first_unique(s: Seq<char>, c: char, i: int)
    requires
        0 <= i <= s.len(),
        i < s.len() ==> s[i] == c,
        forall|j: int| 0 <= j < i ==> s[j] != c,
    ensures
        i == find_first(s, c),
{
    lemma_find_first(s, c);
    let f = find_first(s, c) as int;
    if f < i {
        assert(s[f] != c);
    }
    if i < f {
        assert(s[i] != c);
    }
}

/// The position of the first occurrence of two adjacent colons in `s`, or
/// the length of `s` if there is none.
pub open spec fn find_dc(s: Seq<char>) -> nat
    decreases s.len(),
{
    if s.len() < 2 {
        s.len()
    } else if s[0] == ':' && s[1] == ':' {
        0
    } else {
        1 + find_dc(s.subrange(1, s.len() as int))
    }
}

/// `find_dc` names the first adjacent pair of colons: nothing before it is
/// such a pair, the position itself is one when it exists, and an absent
/// pair is reported as the length of `s`.
pub proof fn lemma_find_dc(s: Seq<char>)
    ensures
        find_dc(s) <= s.len(),
        find_dc(s) + 2 <= s.len() ==> (s[find_dc(s) as int] == ':' && s[find_dc(s) as int + 1] == ':'),
        find_dc(s) + 2 > s.len() ==> find_dc(s) == s.len(),
        forall|j: int| 0 <= j < find_dc(s) && j + 2 <= s.len() ==> !(#[trigger] s[j] == ':' && s[j + 1] == ':'),
    decreases s.len(),
{
    if s.len() < 2 {
    } else if s[0] == ':' && s[1] == ':' {
    } else {
        let t = s.subrange(1, s.len() as int);
        lemma_find_dc(t);
        assert(forall|j: int| 0 <= j < t.len() ==> #[trigger] t[j] == s[j + 1]);
        assert forall|j: int|
            0 <= j < find_dc(s) && j + 2 <= s.len() implies !(#[trigger] s[j] == ':' && s[j + 1]
            == ':') by {
            if j > 0 {
                assert(t[j - 1] == s[j]);
                assert(t[j] == s[j + 1]);
                assert(!(t[j - 1] == ':' && t[j] == ':'));
            }
        }
    }
}

/// Any position with the properties of the first adjacent colon pair is
/// `find_dc`.
pub proof fn lemma_find_dc_unique(s: Seq<char>, i: int)
    requires
        0 <= i <= s.len(),
        i + 2 <= s.len() ==> (s[i] == ':' && s[i + 1] == ':'),
        i + 2 > s.len() ==> i == s.len(),
        forall|j: int| 0 <= j < i && j + 2 <= s.len() ==> !(#[trigger] s[j] == ':' && s[j + 1] == ':'),
    ensures
        i == find_dc(s),
{
    lemma_find_dc(s);
    let f = find_dc(s) as int;
    if f < i && f + 2 <= s.len() {
        assert(!(s[f] == ':' && s[f + 1] == ':'));
    }
    if i < f && i + 2 <= s.len() {
        assert(!(s[i] == ':' && s[i + 1] == ':'));
    }
}

/// Whether two strings hold the same characters.
pub fn str_eq(a: &str, b: &str) -> (r: bool)
    ensures
        r == (a@ == b@),
{
    let alen = a.unicode_len();
    let blen = b.unicode_len();
    if alen != blen {
        return false;
    }
    let mut i: usize = 0;
    while i < alen
        invariant
            i <= alen,
            alen == a@.len(),
            alen == b@.len(),
            forall|j: int| 0 <= j < i ==> a@[j] == b@[j],
        decreases alen - i,
    {
        if a.get_char(i) != b.get_char(i) {
            return false;
        }
        i = i + 1;
    }
    proof {
        assert(a@ =~= b@);
    }
    true
}

} // verus!

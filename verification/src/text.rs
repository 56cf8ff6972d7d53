//! Small verified helpers over character sequences.
use vstd::prelude::*;

verus! {

/// The character of a decimal digit `d` (`d < 10`).
pub open spec fn digit_char(d: nat) -> char {
    if d == 0 { '0' }
    else if d == 1 { '1' }
    else if d == 2 { '2' }
    else if d == 3 { '3' }
    else if d == 4 { '4' }
    else if d == 5 { '5' }
    else if d == 6 { '6' }
    else if d == 7 { '7' }
    else if d == 8 { '8' }
    else { '9' }
}

/// The shortest decimal notation of `n`, most significant digit first.
pub open spec fn decimal(n: nat) -> Seq<char>
    decreases n,
{
    if n < 10 {
        seq![digit_char(n)]
    } else {
        decimal(n / 10).push(digit_char(n % 10))
    }
}

/// Character-wise equality of two string slices.
pub fn same_text(a: &str, b: &str) -> (r: bool)
    ensures
        r == (a@ == b@),
{
    let n = a.unicode_len();
    if n != b.unicode_len() {
        return false;
    }
    let mut i: usize = 0;
    while i < n
        invariant
            n == a@.len(),
            n == b@.len(),
            i <= n,
            forall|j: int| 0 <= j < i ==> a@[j] == b@[j],
        decreases n - i,
    {
        if a.get_char(i) != b.get_char(i) {
            return false;
        }
        i = i + 1;
    }
    assert(a@ =~= b@);
    true
}

/// Whether `s` begins with `prefix`.
pub fn starts_with(s: &str, prefix: &str) -> (r: bool)
    ensures
        r == (prefix@.len() <= s@.len() && s@.subrange(0, prefix@.len() as int) == prefix@),
{
    let n = prefix.unicode_len();
    let m = s.unicode_len();
    if n > m {
        return false;
    }
    let head = s.substring_char(0, n);
    same_text(head, prefix)
}

/// `a` followed by `b`.
pub fn joined(a: &str, b: &str) -> (r: String)
    ensures
        r@ == a@ + b@,
{
    let mut r = String::from_str(a);
    r.append(b);
    r
}

/// A `::` separator starts at `i` in `s`.
pub open spec fn separator_at(s: Seq<char>, i: int) -> bool {
    0 <= i && i + 1 < s.len() && s[i] == ':' && s[i + 1] == ':'
}

/// The start of the last `::` that begins before `n`.
pub open spec fn last_separator_before(s: Seq<char>, n: int) -> Option<int>
    decreases n,
{
    if n <= 0 {
        None
    } else if separator_at(s, n - 1) {
        Some(n - 1)
    } else {
        last_separator_before(s, n - 1)
    }
}

/// The start of the last `::` in `s`.
pub open spec fn last_separator(s: Seq<char>) -> Option<int> {
    last_separator_before(s, s.len() as int)
}

proof fn lemma_last_is(s: Seq<char>, n: int, j: int)
    requires
        separator_at(s, j),
        j < n,
        forall|i: int| j < i < n ==> !separator_at(s, i),
    ensures
        last_separator_before(s, n) == Some(j),
    decreases n,
{
    if n - 1 != j {
        lemma_last_is(s, n - 1, j);
    }
}

proof fn lemma_none_before(s: Seq<char>, n: int)
    requires
        forall|i: int| 0 <= i < n ==> !separator_at(s, i),
    ensures
        last_separator_before(s, n) is None,
    decreases n,
{
    if n > 0 {
        lemma_none_before(s, n - 1);
    }
}

/// Splits `s` around its last `::`, as `str::rsplit_once("::")` does.
pub fn split_last_path(s: &str) -> (r: Option<(&str, &str)>)
    ensures
        last_separator(s@) is None ==> r is None,
        last_separator(s@) matches Some(i) ==> (r matches Some((a, b)) && a@ == s@.take(i) && b@
            == s@.skip(i + 2)),
{
    let n = s.unicode_len();
    let mut k = n;
    while k >= 2
        invariant
            n == s@.len(),
            k <= n,
            forall|i: int| k - 1 <= i < n ==> !separator_at(s@, i),
        decreases k,
    {
        if s.get_char(k - 2) == ':' && s.get_char(k - 1) == ':' {
            proof {
                lemma_last_is(s@, n as int, k as int - 2);
            }
            let a = s.substring_char(0, k - 2);
            let b = s.substring_char(k, n);
            assert(a@ =~= s@.take(k as int - 2));
            assert(b@ =~= s@.skip(k as int));
            return Some((a, b));
        }
        k = k - 1;
    }
    proof {
        lemma_none_before(s@, n as int);
    }
    None
}

/// The start of the first `::` that begins before `n`.
pub open spec fn first_separator_before(s: Seq<char>, n: int) -> Option<int>
    decreases n,
{
    if n <= 0 {
        None
    } else {
        match first_separator_before(s, n - 1) {
            Some(i) => Some(i),
            None => if separator_at(s, n - 1) { Some(n - 1) } else { None },
        }
    }
}

/// The start of the first `::` in `s`.
pub open spec fn first_separator(s: Seq<char>) -> Option<int> {
    first_separator_before(s, s.len() as int)
}

proof fn lemma_first_stable(s: Seq<char>, n: int, m: int)
    requires
        n <= m,
        first_separator_before(s, n) is Some,
    ensures
        first_separator_before(s, m) == first_separator_before(s, n),
    decreases m - n,
{
    if n < m {
        lemma_first_stable(s, n, m - 1);
    }
}

proof fn lemma_first_none_tail(s: Seq<char>, n: int, m: int)
    requires
        n <= m,
        first_separator_before(s, n) is None,
        forall|i: int| n <= i < m ==> !separator_at(s, i),
    ensures
        first_separator_before(s, m) is None,
    decreases m - n,
{
    if n < m {
        lemma_first_none_tail(s, n, m - 1);
    }
}

/// Splits `s` around its first `::`, as `str::split_once("::")` does.
pub fn split_first_path(s: &str) -> (r: Option<(&str, &str)>)
    ensures
        first_separator(s@) is None ==> r is None,
        first_separator(s@) matches Some(i) ==> (r matches Some((a, b)) && a@ == s@.take(i) && b@
            == s@.skip(i + 2)),
{
    let n = s.unicode_len();
    let mut k: usize = 0;
    while n - k > 1
        invariant
            n == s@.len(),
            k <= n,
            first_separator_before(s@, k as int) is None,
        decreases n - k,
    {
        if s.get_char(k) == ':' && s.get_char(k + 1) == ':' {
            proof {
                assert(separator_at(s@, k as int));
                lemma_first_stable(s@, k as int + 1, n as int);
            }
            let a = s.substring_char(0, k);
            let b = s.substring_char(k + 2, n);
            assert(a@ =~= s@.take(k as int));
            assert(b@ =~= s@.skip(k as int + 2));
            return Some((a, b));
        }
        k = k + 1;
    }
    proof {
        lemma_first_none_tail(s@, k as int, n as int);
    }
    None
}

/// Whether some entry of `list` reads `name`.
pub fn contains_text(list: &Vec<String>, name: &str) -> (r: bool)
    ensures
        r == exists|i: int| 0 <= i < list@.len() && (#[trigger] list@[i])@ == name@,
{
    let mut i: usize = 0;
    while i < list.len()
        invariant
            i <= list@.len(),
            forall|j: int| 0 <= j < i ==> (#[trigger] list@[j])@ != name@,
        decreases list@.len() - i,
    {
        if same_text(list[i].as_str(), name) {
            return true;
        }
        i = i + 1;
    }
    false
}

/// The text of one decimal digit.
fn digit_text(d: u64) -> (r: &'static str)
    requires
        d < 10,
    ensures
        r@ == seq![digit_char(d as nat)],
{
    proof {
        reveal_strlit("0");
        reveal_strlit("1");
        reveal_strlit("2");
        reveal_strlit("3");
        reveal_strlit("4");
        reveal_strlit("5");
        reveal_strlit("6");
        reveal_strlit("7");
        reveal_strlit("8");
        reveal_strlit("9");
    }
    let r = if d == 0 { "0" }
    else if d == 1 { "1" }
    else if d == 2 { "2" }
    else if d == 3 { "3" }
    else if d == 4 { "4" }
    else if d == 5 { "5" }
    else if d == 6 { "6" }
    else if d == 7 { "7" }
    else if d == 8 { "8" }
    else { "9" };
    assert(r@ =~= seq![digit_char(d as nat)]);
    r
}

/// The decimal notation of a 128-bit `n`, as `to_string` writes it.
pub fn decimal_text_wide(n: u128) -> (r: String)
    ensures
        r@ == decimal(n as nat),
    decreases n,
{
    if n < 10 {
        String::from_str(digit_text(n as u64))
    } else {
        let mut r = decimal_text_wide(n / 10);
        r.append(digit_text((n % 10) as u64));
        r
    }
}

/// The decimal notation of an integer, with `-` before a negative one.
pub open spec fn signed_decimal(v: int) -> Seq<char> {
    if v < 0 {
        "-"@ + decimal((-v) as nat)
    } else {
        decimal(v as nat)
    }
}

/// The decimal notation of a signed 128-bit `v`, as `to_string` writes it.
pub fn signed_decimal_text(v: i128) -> (r: String)
    ensures
        r@ == signed_decimal(v as int),
{
    if v < 0 {
        let magnitude: u128 = ((-(v + 1)) as u128) + 1;
        let mut r = String::from_str("-");
        let digits = decimal_text_wide(magnitude);
        r.append(digits.as_str());
        r
    } else {
        decimal_text_wide(v as u128)
    }
}

/// The decimal notation of `n`, as `to_string` writes it.
pub fn decimal_text(n: u64) -> (r: String)
    ensures
        r@ == decimal(n as nat),
    decreases n,
{
    if n < 10 {
        String::from_str(digit_text(n))
    } else {
        let mut r = decimal_text(n / 10);
        r.append(digit_text(n % 10));
        r
    }
}

/// The number that a string of decimal digits denotes.
pub open spec fn digits_value(s: Seq<char>) -> int
    decreases s.len(),
{
    if s.len() == 0 {
        0
    } else {
        digits_value(s.drop_last()) * 10 + (s.last() as int - '0' as int)
    }
}

proof fn lemma_digit_char_value(d: nat)
    requires
        d < 10,
    ensures
        digit_char(d) as int == '0' as int + d,
        '0' <= digit_char(d) <= '9',
{
    assert('0' as int == 48);
    assert('1' as int == 49);
    assert('2' as int == 50);
    assert('3' as int == 51);
    assert('4' as int == 52);
    assert('5' as int == 53);
    assert('6' as int == 54);
    assert('7' as int == 55);
    assert('8' as int == 56);
    assert('9' as int == 57);
}

/// The decimal notation of `n` is a non-empty string of the digits `0`
/// to `9`, without a leading zero, that denotes `n`.
pub proof fn lemma_decimal_denotes(n: nat)
    ensures
        decimal(n).len() > 0,
        forall|i: int| 0 <= i < decimal(n).len() ==> '0' <= #[trigger] decimal(n)[i] <= '9',
        decimal(n).len() > 1 ==> decimal(n)[0] != '0',
        n > 0 ==> decimal(n)[0] != '0',
        digits_value(decimal(n)) == n,
    decreases n,
{
    if n < 10 {
        lemma_digit_char_value(n);
        assert(decimal(n).drop_last() =~= Seq::<char>::empty());
        assert(digits_value(decimal(n)) == digits_value(decimal(n).drop_last()) * 10 + (decimal(n).last() as int - '0' as int));
    } else {
        lemma_digit_char_value(n % 10);
        lemma_decimal_denotes(n / 10);
        let d = decimal(n);
        assert(d.drop_last() =~= decimal(n / 10));
        assert(d[0] == decimal(n / 10)[0]);
        assert(n == (n / 10) * 10 + n % 10);
        assert(d.last() == digit_char(n % 10));
        assert(digits_value(d) == digits_value(d.drop_last()) * 10 + (d.last() as int - '0' as int));
        assert(digits_value(d) == (n / 10) * 10 + (n % 10) as int);
    }
}

/// The signed notation of `v` is `-` before the notation of its magnitude
/// when `v` is negative, and the notation of `v` otherwise.
pub proof fn lemma_signed_decimal_denotes(v: int)
    ensures
        v < 0 ==> signed_decimal(v)[0] == '-' && digits_value(signed_decimal(v).skip(1)) == -v,
        v >= 0 ==> digits_value(signed_decimal(v)) == v && signed_decimal(v)[0] != '-',
{
    reveal_strlit("-");
    if v < 0 {
        lemma_decimal_denotes((-v) as nat);
        assert(signed_decimal(v).skip(1) =~= decimal((-v) as nat));
    } else {
        lemma_decimal_denotes(v as nat);
    }
}

/// A name made of a prefix, a number in decimal, `_` and a rest gives the
/// number and the rest back: two such names with the same prefix are equal
/// only for equal numbers and rests.
pub proof fn lemma_numbered_names_distinct(prefix: Seq<char>, n1: nat, rest1: Seq<char>, n2: nat, rest2: Seq<char>)
    requires
        prefix + decimal(n1) + "_"@ + rest1 == prefix + decimal(n2) + "_"@ + rest2,
    ensures
        n1 == n2,
        rest1 == rest2,
{
    reveal_strlit("_");
    lemma_decimal_denotes(n1);
    lemma_decimal_denotes(n2);
    let d1 = decimal(n1);
    let d2 = decimal(n2);
    let s = prefix + d1 + "_"@ + rest1;
    let t = prefix + d2 + "_"@ + rest2;
    let p = prefix.len() as int;
    assert(s[p + d1.len() as int] == '_');
    assert(t[p + d2.len() as int] == '_');
    if d1.len() < d2.len() {
        assert(t[p + d1.len() as int] == d2[d1.len() as int]);
    } else if d2.len() < d1.len() {
        assert(s[p + d2.len() as int] == d1[d2.len() as int]);
    } else {
        assert forall|i: int| 0 <= i < d1.len() implies d1[i] == d2[i] by {
            assert(s[p + i] == d1[i]);
            assert(t[p + i] == d2[i]);
        }
        assert(d1 =~= d2);
        assert(s.len() == p + d1.len() + 1 + rest1.len());
        assert(t.len() == p + d2.len() + 1 + rest2.len());
        assert forall|i: int| 0 <= i < rest1.len() implies rest1[i] == rest2[i] by {
            assert(s[p + d1.len() + 1 + i] == rest1[i]);
            assert(t[p + d2.len() + 1 + i] == rest2[i]);
        }
        assert(rest1 =~= rest2);
    }
}

} // verus!

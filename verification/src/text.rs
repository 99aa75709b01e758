//! Text helpers over `char` sequences: Unicode white space, trimming,
//! literal comparison, decimal formatting and integer parsing.

use vstd::prelude::*;

verus! {

/// The Unicode `White_Space` property, which `char::is_whitespace` and
/// `str::trim` use.
pub open spec fn spec_is_white_space(c: char) -> bool {
    let u = c as u32;
    ||| (0x09 <= u && u <= 0x0d)
    ||| u == 0x20
    ||| u == 0x85
    ||| u == 0xa0
    ||| u == 0x1680
    ||| (0x2000 <= u && u <= 0x200a)
    ||| u == 0x2028
    ||| u == 0x2029
    ||| u == 0x202f
    ||| u == 0x205f
    ||| u == 0x3000
}

/// Whether `c` has the Unicode `White_Space` property.
pub fn is_white_space(c: char) -> (r: bool)
    ensures
        r == spec_is_white_space(c),
{
    let u = c as u32;
    (0x09 <= u && u <= 0x0d) || u == 0x20 || u == 0x85 || u == 0xa0 || u == 0x1680
        || (0x2000 <= u && u <= 0x200a) || u == 0x2028 || u == 0x2029 || u == 0x202f
        || u == 0x205f || u == 0x3000
}


/// Every character of `s` is white space (so `s` trims to nothing).
pub open spec fn spec_is_blank(s: Seq<char>) -> bool {
    forall|i: int| 0 <= i < s.len() ==> #[trigger] spec_is_white_space(s[i])
}

/// Number of white-space characters at the start of `s`.
pub open spec fn leading_white_space(s: Seq<char>) -> nat
    decreases s.len(),
{
    if s.len() > 0 && spec_is_white_space(s[0]) {
        1 + leading_white_space(s.drop_first())
    } else {
        0
    }
}

/// Number of white-space characters at the end of `s`.
pub open spec fn trailing_white_space(s: Seq<char>) -> nat
    decreases s.len(),
{
    if s.len() > 0 && spec_is_white_space(s.last()) {
        1 + trailing_white_space(s.drop_last())
    } else {
        0
    }
}

/// `s` without its leading and trailing white space, as `str::trim` gives it.
pub open spec fn spec_trim(s: Seq<char>) -> Seq<char> {
    let lo = leading_white_space(s);
    if lo == s.len() {
        Seq::empty()
    } else {
        s.subrange(lo as int, s.len() - trailing_white_space(s))
    }
}

proof fn lemma_leading_white_space(s: Seq<char>, lo: int)
    requires
        0 <= lo <= s.len(),
        forall|k: int| 0 <= k < lo ==> #[trigger] spec_is_white_space(s[k]),
        lo == s.len() || !spec_is_white_space(s[lo]),
    ensures
        leading_white_space(s) == lo,
    decreases lo,
{
    if lo > 0 {
        let t = s.drop_first();
        assert forall|k: int| 0 <= k < lo - 1 implies #[trigger] spec_is_white_space(t[k]) by {
            assert(t[k] == s[k + 1]);
        }
        if lo < s.len() {
            assert(t[lo - 1] == s[lo]);
        }
        lemma_leading_white_space(t, lo - 1);
    }
}

proof fn lemma_trailing_white_space(s: Seq<char>, hi: int)
    requires
        0 <= hi <= s.len(),
        forall|k: int| hi <= k < s.len() ==> #[trigger] spec_is_white_space(s[k]),
        hi == 0 || !spec_is_white_space(s[hi - 1]),
    ensures
        trailing_white_space(s) == s.len() - hi,
    decreases s.len() - hi,
{
    if hi < s.len() {
        let t = s.drop_last();
        assert forall|k: int| hi <= k < t.len() implies #[trigger] spec_is_white_space(t[k]) by {
            assert(t[k] == s[k]);
        }
        if hi > 0 {
            assert(t[hi - 1] == s[hi - 1]);
        }
        lemma_trailing_white_space(t, hi);
    }
}

/// `s` trimmed of leading and trailing white space.
pub fn trim(s: &str) -> (r: &str)
    ensures
        r@ == spec_trim(s@),
{
    let n = s.unicode_len();
    let mut lo: usize = 0;
    while lo < n && is_white_space(s.get_char(lo))
        invariant
            n == s@.len(),
            lo <= n,
            forall|k: int| 0 <= k < lo ==> #[trigger] spec_is_white_space(s@[k]),
        decreases n - lo,
    {
        lo = lo + 1;
    }
    proof {
        lemma_leading_white_space(s@, lo as int);
    }
    if lo == n {
        return s.substring_char(n, n);
    }
    let mut hi: usize = n;
    while hi > lo && is_white_space(s.get_char(hi - 1))
        invariant
            n == s@.len(),
            lo < n,
            lo <= hi <= n,
            !spec_is_white_space(s@[lo as int]),
            forall|k: int| hi <= k < n ==> #[trigger] spec_is_white_space(s@[k]),
        decreases hi,
    {
        hi = hi - 1;
    }
    proof {
        lemma_trailing_white_space(s@, hi as int);
    }
    s.substring_char(lo, hi)
}

/// A text trims to nothing exactly when all of it is white space.
pub proof fn lemma_blank_trims_to_empty(s: Seq<char>)
    ensures
        spec_is_blank(s) <==> spec_trim(s).len() == 0,
{
    if spec_is_blank(s) {
        lemma_leading_white_space(s, s.len() as int);
    } else {
        let k = choose|k: int| 0 <= k < s.len() && !spec_is_white_space(s[k]);
        lemma_leading_trailing_disjoint(s, k);
    }
}

proof fn lemma_leading_trailing_disjoint(s: Seq<char>, k: int)
    requires
        0 <= k < s.len(),
        !spec_is_white_space(s[k]),
    ensures
        leading_white_space(s) <= k,
        trailing_white_space(s) <= s.len() - 1 - k,
    decreases s.len(),
{
    if k > 0 && spec_is_white_space(s[0]) {
        let t = s.drop_first();
        assert(t[k - 1] == s[k]);
        lemma_leading_trailing_disjoint(t, k - 1);
    }
    if k < s.len() - 1 && spec_is_white_space(s.last()) {
        let t = s.drop_last();
        assert(t[k] == s[k]);
        lemma_leading_trailing_disjoint(t, k);
    }
}

/// Whether the text `a` equals the text `b`.
pub fn text_equals(a: &str, b: &str) -> (r: bool)
    ensures
        r == (a@ == b@),
{
    let n = a.unicode_len();
    if n != b.unicode_len() {
        return false;
    }
    let mut i: usize = 0;
    while i < n
        invariant
            n == a@.len(),
            n == b@.len(),
            i <= n,
            forall|k: int| 0 <= k < i ==> a@[k] == b@[k],
        decreases n - i,
    {
        if a.get_char(i) != b.get_char(i) {
            return false;
        }
        i = i + 1;
    }
    assert(a@ =~= b@);
    true
}

/// Whether `s` begins with the text `prefix`.
pub fn has_prefix(s: &str, prefix: &str) -> (r: bool)
    ensures
        r == prefix@.is_prefix_of(s@),
{
    let n = prefix.unicode_len();
    if n > s.unicode_len() {
        return false;
    }
    let mut i: usize = 0;
    while i < n
        invariant
            n == prefix@.len(),
            n <= s@.len(),
            i <= n,
            forall|k: int| 0 <= k < i ==> prefix@[k] == s@[k],
        decreases n - i,
    {
        if prefix.get_char(i) != s.get_char(i) {
            return false;
        }
        i = i + 1;
    }
    true
}


/// The ASCII digit for `d`, which is below ten.
pub open spec fn digit_char(d: nat) -> char {
    (d + 48) as char
}

/// The decimal notation of `n`, without sign or leading zeros.
pub open spec fn spec_decimal(n: nat) -> Seq<char>
    decreases n,
{
    if n < 10 {
        seq![digit_char(n)]
    } else {
        spec_decimal(n / 10) + seq![digit_char(n % 10)]
    }
}

fn digit_text(d: u64) -> (r: &'static str)
    requires
        d < 10,
    ensures
        r@ == seq![digit_char(d as nat)],
{
    proof {
        reveal_strlit("0");
        reveal_strlit("1");
        reveal_strlit("2");
        reveal_strlit("3");
        reveal_strlit("4");
        reveal_strlit("5");
        reveal_strlit("6");
        reveal_strlit("7");
        reveal_strlit("8");
        reveal_strlit("9");
    }
    match d {
        0 => "0",
        1 => "1",
        2 => "2",
        3 => "3",
        4 => "4",
        5 => "5",
        6 => "6",
        7 => "7",
        8 => "8",
        _ => "9",
    }
}

/// Appends the decimal notation of `n` to `out`.
pub fn push_decimal(out: &mut String, n: u64)
    ensures
        final(out)@ == old(out)@ + spec_decimal(n as nat),
    decreases n,
{
    if n >= 10 {
        push_decimal(out, n / 10);
    }
    out.append(digit_text(n % 10));
    assert(n < 10 ==> n % 10 == n);
}

/// An ASCII decimal digit.
pub open spec fn is_digit(c: char) -> bool {
    '0' <= c && c <= '9'
}

/// The value of a run of decimal digits, most significant first.
pub open spec fn digits_value(s: Seq<char>) -> int
    decreases s.len(),
{
    if s.len() == 0 {
        0
    } else {
        digits_value(s.drop_last()) * 10 + (s.last() as int - 48)
    }
}

/// Whether `s` starts with a `+` or `-` sign.
pub open spec fn has_sign(s: Seq<char>) -> bool {
    s.len() > 0 && (s[0] == '+' || s[0] == '-')
}

/// `s` without its sign, if it has one.
pub open spec fn unsigned_part(s: Seq<char>) -> Seq<char> {
    if has_sign(s) {
        s.drop_first()
    } else {
        s
    }
}

/// Every character of `s` is an ASCII digit.
pub open spec fn all_digits(s: Seq<char>) -> bool {
    forall|i: int| 0 <= i < s.len() ==> #[trigger] is_digit(s[i])
}

/// What `str::parse::<i64>` gives: an optional `+` or `-`, then one or
/// more ASCII digits, whose value must fit in `i64`.
pub open spec fn spec_parse_i64(s: Seq<char>) -> Option<i64> {
    let body = unsigned_part(s);
    let magnitude = digits_value(body);
    let value = if has_sign(s) && s[0] == '-' { -magnitude } else { magnitude };
    if body.len() == 0 || !all_digits(body) {
        None
    } else if i64::MIN <= value && value <= i64::MAX {
        Some(value as i64)
    } else {
        None
    }
}

proof fn lemma_digits_value_grows(s: Seq<char>, j: int, k: int)
    requires
        0 <= j <= k <= s.len(),
        forall|i: int| 0 <= i < s.len() ==> #[trigger] is_digit(s[i]),
    ensures
        0 <= digits_value(s.take(j)) <= digits_value(s.take(k)),
    decreases k,
{
    if k > 0 {
        let t = s.take(k);
        assert(t.drop_last() =~= s.take(k - 1));
        assert(is_digit(s[k - 1]));
        if j < k {
            lemma_digits_value_grows(s, j, k - 1);
        } else {
            lemma_digits_value_grows(s, j - 1, k - 1);
        }
    }
}

/// Parses a decimal `i64` as `str::parse::<i64>` does.
pub fn parse_i64(text: &str) -> (r: Option<i64>)
    ensures
        r == spec_parse_i64(text@),
{
    let n = text.unicode_len();
    let ghost s = text@;
    let mut start: usize = 0;
    let mut negative = false;
    if n > 0 {
        let c = text.get_char(0);
        if c == '+' || c == '-' {
            start = 1;
            negative = c == '-';
        }
    }
    let ghost signed = has_sign(s);
    let ghost body = unsigned_part(s);
    assert(signed == (start == 1));
    assert(negative == (signed && s[0] == '-'));
    assert(body =~= s.subrange(start as int, n as int));
    if start == n {
        return None;
    }
    let mut magnitude: u128 = 0;
    let mut i: usize = start;
    while i < n
        invariant
            n == s.len(),
            s == text@,
            signed == (start == 1),
            negative == (signed && s[0] == '-'),
            body == unsigned_part(s),
            start <= i <= n,
            start < n,
            body =~= s.subrange(start as int, n as int),
            forall|k: int| 0 <= k < i - start ==> #[trigger] is_digit(body[k]),
            magnitude == digits_value(body.take(i - start)),
            magnitude <= 0x8000_0000_0000_0000,
        decreases n - i,
    {
        let c = text.get_char(i);
        if !('0' <= c && c <= '9') {
            assert(!is_digit(body[i - start]));
            return None;
        }
        let d = (c as u32 - 48) as u128;
        proof {
            let t = body.take(i - start + 1);
            assert(t.drop_last() =~= body.take(i - start));
            assert(t.last() == c);
        }
        magnitude = magnitude * 10 + d;
        i = i + 1;
        if magnitude > 0x8000_0000_0000_0000 {
            proof {
                if all_digits(body) {
                    lemma_digits_value_grows(body, i - start, body.len() as int);
                    assert(body.take(body.len() as int) =~= body);
                }
            }
            return None;
        }
    }
    assert(body.take(n - start) =~= body);
    if negative {
        if magnitude == 0x8000_0000_0000_0000 {
            Some(i64::MIN)
        } else {
            Some(-(magnitude as i64))
        }
    } else if magnitude > 0x7fff_ffff_ffff_ffff {
        None
    } else {
        Some(magnitude as i64)
    }
}


/// Decimal notation is right: its characters are digits, the first is not
/// a zero unless the number is, and their value is the number.
pub proof fn law_decimal_denotes_value(n: nat)
    ensures
        all_digits(spec_decimal(n)),
        spec_decimal(n).len() >= 1,
        digits_value(spec_decimal(n)) == n,
        n > 0 ==> spec_decimal(n)[0] != '0',
    decreases n,
{
    let d = spec_decimal(n);
    if n < 10 {
        assert(digit_char(n) as int == n + 48);
        assert(d.drop_last() =~= Seq::<char>::empty());
        assert(digits_value(Seq::<char>::empty()) == 0);
        assert(d.last() == digit_char(n));
        assert(digits_value(d) == digits_value(d.drop_last()) * 10 + (d.last() as int - 48));
    } else {
        law_decimal_denotes_value(n / 10);
        let head = spec_decimal(n / 10);
        assert(digit_char(n % 10) as int == n % 10 + 48);
        assert(d.drop_last() =~= head);
        assert(d.last() == digit_char(n % 10));
        assert((n / 10) * 10 + n % 10 == n);
        assert(digits_value(d) == digits_value(head) * 10 + (d.last() as int - 48));
        assert(d[0] == head[0]);
        assert forall|i: int| 0 <= i < d.len() implies #[trigger] is_digit(d[i]) by {
            if i < head.len() {
                assert(d[i] == head[i]);
                assert(is_digit(head[i]));
            }
        }
    }
}

/// Decimal notation reads back: parsing the decimal notation of a number
/// in `i64` range gives that number.
pub proof fn law_decimal_parses_back(n: nat)
    requires
        n <= i64::MAX,
    ensures
        spec_parse_i64(spec_decimal(n)) == Some(n as i64),
{
    law_decimal_denotes_value(n);
    let d = spec_decimal(n);
    assert(is_digit(d[0]));
    assert(!has_sign(d));
}

} // verus!

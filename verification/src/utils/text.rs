//! Character-level text handling: whitespace trimming, decimal numbers and
//! the lexicographic order of texts.
use vstd::prelude::*;
use vstd::string::*;

verus! {

/// The text of an optional string.
pub open spec fn opt_text(o: Option<String>) -> Option<Seq<char>> {
    match o {
        Some(s) => Some(s@),
        None => None,
    }
}

/// The Unicode `White_Space` property, the set that `char::is_whitespace`
/// and `str::trim` use.
pub open spec fn is_white_space(c: char) -> bool {
    let u = c as u32;
    ||| 0x09 <= u <= 0x0D
    ||| u == 0x20
    ||| u == 0x85
    ||| u == 0xA0
    ||| u == 0x1680
    ||| 0x2000 <= u <= 0x200A
    ||| u == 0x2028
    ||| u == 0x2029
    ||| u == 0x202F
    ||| u == 0x205F
    ||| u == 0x3000
}

/// Tells whether `c` is white space in the sense of [`is_white_space`].
pub fn is_white_space_char(c: char) -> (r: bool)
    ensures
        r == is_white_space(c),
{
    let u = c as u32;
    (0x09 <= u && u <= 0x0D) || u == 0x20 || u == 0x85 || u == 0xA0 || u == 0x1680
        || (0x2000 <= u && u <= 0x200A) || u == 0x2028 || u == 0x2029 || u == 0x202F
        || u == 0x205F || u == 0x3000
}


/// The characters of `s`, in order.
pub fn chars_of(s: &str) -> (r: Vec<char>)
    ensures
        r@ == s@,
{
    let mut r: Vec<char> = Vec::new();
    for c in it: s.chars()
        invariant
            it.seq() == s@,
            r@ == it.seq().take(it.index() as int),
    {
        r.push(c);
    }
    r
}


/// Appends one character to `s` (`String::push`).
#[verifier::external_body]
pub(crate) fn push_char(s: &mut String, c: char)
    ensures
        final(s)@ == old(s)@.push(c),
{
    s.push(c);
}

/// The text made of `chars[from..to]`.
pub fn text_of(chars: &Vec<char>, from: usize, to: usize) -> (r: String)
    requires
        from <= to <= chars.len(),
    ensures
        r@ == chars@.subrange(from as int, to as int),
{
    let mut r = String::new();
    let mut i = from;
    while i < to
        invariant
            from <= i <= to <= chars.len(),
            r@ == chars@.subrange(from as int, i as int),
        decreases to - i,
    {
        push_char(&mut r, chars[i]);
        i = i + 1;
    }
    r
}

/// `s` without its leading white space.
pub open spec fn trim_start_spec(s: Seq<char>) -> Seq<char>
    decreases s.len(),
{
    if s.len() > 0 && is_white_space(s[0]) {
        trim_start_spec(s.drop_first())
    } else {
        s
    }
}

/// `s` without its trailing white space.
pub open spec fn trim_end_spec(s: Seq<char>) -> Seq<char>
    decreases s.len(),
{
    if s.len() > 0 && is_white_space(s.last()) {
        trim_end_spec(s.drop_last())
    } else {
        s
    }
}

/// `s` without leading and trailing white space: what `str::trim` returns.
pub open spec fn trimmed(s: Seq<char>) -> Seq<char> {
    trim_end_spec(trim_start_spec(s))
}

proof fn lemma_trim_start_shape(s: Seq<char>)
    ensures
        trim_start_spec(s).len() <= s.len(),
        trim_start_spec(s) == s.subrange(s.len() - trim_start_spec(s).len(), s.len() as int),
        trim_start_spec(s).len() > 0 ==> !is_white_space(trim_start_spec(s)[0]),
    decreases s.len(),
{
    if s.len() > 0 && is_white_space(s[0]) {
        lemma_trim_start_shape(s.drop_first());
        let t = trim_start_spec(s.drop_first());
        assert(s.drop_first().subrange(s.len() - 1 - t.len(), s.len() - 1) =~= s.subrange(
            s.len() - t.len(),
            s.len() as int,
        ));
    } else {
        assert(s.subrange(0, s.len() as int) =~= s);
    }
}

proof fn lemma_trim_end_shape(s: Seq<char>)
    ensures
        trim_end_spec(s).len() <= s.len(),
        trim_end_spec(s) == s.subrange(0, trim_end_spec(s).len() as int),
        trim_end_spec(s).len() > 0 ==> !is_white_space(trim_end_spec(s).last()),
    decreases s.len(),
{
    if s.len() > 0 && is_white_space(s.last()) {
        lemma_trim_end_shape(s.drop_last());
        let t = trim_end_spec(s.drop_last());
        assert(s.drop_last().subrange(0, t.len() as int) =~= s.subrange(0, t.len() as int));
    } else {
        assert(s.subrange(0, s.len() as int) =~= s);
    }
}

/// A trimmed text neither starts nor ends with white space, so trimming it
/// again changes nothing.
pub proof fn law_trim_idempotent(s: Seq<char>)
    ensures
        trimmed(s).len() > 0 ==> !is_white_space(trimmed(s)[0]) && !is_white_space(
            trimmed(s).last(),
        ),
        trimmed(trimmed(s)) == trimmed(s),
{
    let a = trim_start_spec(s);
    let t = trimmed(s);
    lemma_trim_start_shape(s);
    lemma_trim_end_shape(a);
    if t.len() > 0 {
        assert(t[0] == a[0]);
    }
    assert(trim_start_spec(t) == t);
    lemma_trim_end_shape(t);
    if t.len() > 0 {
        assert(trim_end_spec(t) == t);
    }
}

/// Bounds `(i, j)` such that `trimmed(chars) == chars[i..j]`.
fn trim_bounds(chars: &Vec<char>) -> (r: (usize, usize))
    ensures
        r.0 <= r.1 <= chars.len(),
        trimmed(chars@) == chars@.subrange(r.0 as int, r.1 as int),
{
    let n = chars.len();
    let mut i: usize = 0;
    proof {
        assert(chars@.subrange(0, n as int) =~= chars@);
    }
    while i < n && is_white_space_char(chars[i])
        invariant
            i <= n == chars.len(),
            trim_start_spec(chars@) == trim_start_spec(chars@.subrange(i as int, n as int)),
        decreases n - i,
    {
        proof {
            assert(chars@.subrange(i as int, n as int).drop_first() =~= chars@.subrange(i + 1, n as int));
        }
        i = i + 1;
    }
    let mut j: usize = n;
    while j > i && is_white_space_char(chars[j - 1])
        invariant
            i <= j <= n == chars.len(),
            trim_start_spec(chars@) == chars@.subrange(i as int, n as int),
            trimmed(chars@) == trim_end_spec(chars@.subrange(i as int, j as int)),
        decreases j,
    {
        proof {
            assert(chars@.subrange(i as int, j as int).drop_last() =~= chars@.subrange(i as int, j - 1));
        }
        j = j - 1;
    }
    (i, j)
}

/// `s` with leading and trailing white space removed, as `str::trim` does.
pub fn trim_text(s: &str) -> (r: String)
    ensures
        r@ == trimmed(s@),
{
    let chars = chars_of(s);
    let (i, j) = trim_bounds(&chars);
    text_of(&chars, i, j)
}


/// An ASCII decimal digit.
pub open spec fn is_digit(c: char) -> bool {
    0x30 <= (c as u32) <= 0x39
}

/// The value of the decimal digit `c`.
pub open spec fn digit_value(c: char) -> int {
    (c as u32) - 0x30
}

/// Every character of `d` is a decimal digit.
pub open spec fn all_digits(d: Seq<char>) -> bool {
    forall|i: int| 0 <= i < d.len() ==> #[trigger] is_digit(d[i])
}

/// The number that the digit string `d` denotes (most significant first).
pub open spec fn digits_value(d: Seq<char>) -> int
    decreases d.len(),
{
    if d.len() == 0 {
        0
    } else {
        digits_value(d.drop_last()) * 10 + digit_value(d.last())
    }
}

/// What `str::parse::<u64>` accepts: an optional `+`, then one or more
/// decimal digits whose value fits in a `u64`.
pub open spec fn parse_u64_spec(s: Seq<char>) -> Option<u64> {
    let d = if s.len() > 0 && s[0] == '+' { s.drop_first() } else { s };
    if d.len() > 0 && all_digits(d) && digits_value(d) <= u64::MAX {
        Some(digits_value(d) as u64)
    } else {
        None
    }
}

proof fn lemma_digits_value_nonneg(d: Seq<char>)
    requires
        all_digits(d),
    ensures
        digits_value(d) >= 0,
    decreases d.len(),
{
    if d.len() > 0 {
        assert(is_digit(d[d.len() - 1]));
        lemma_digits_value_nonneg(d.drop_last());
    }
}

/// The digits of `chars[from..]` read as a number, or `None` where one of
/// them is no digit or the value exceeds `u64::MAX`.
fn digits_to_u64(chars: &Vec<char>, from: usize) -> (r: Option<u64>)
    requires
        from <= chars.len(),
    ensures
        ({
            let d = chars@.subrange(from as int, chars.len() as int);
            r == if all_digits(d) && digits_value(d) <= u64::MAX {
                Some(digits_value(d) as u64)
            } else {
                None::<u64>
            }
        }),
{
    let ghost d = chars@.subrange(from as int, chars.len() as int);
    let n = chars.len();
    let mut acc: u64 = 0;
    let mut overflow = false;
    let mut i = from;
    while i < n
        invariant
            from <= i <= n == chars.len(),
            d == chars@.subrange(from as int, n as int),
            all_digits(d.take(i - from)),
            !overflow ==> acc == digits_value(d.take(i - from)),
            overflow ==> digits_value(d.take(i - from)) > u64::MAX,
        decreases n - i,
    {
        let c = chars[i];
        let u = c as u32;
        if u < 0x30 || u > 0x39 {
            proof {
                assert(d[i - from] == c);
                assert(!is_digit(d[i - from]));
            }
            return None;
        }
        let v = (u - 0x30) as u64;
        let ghost k = i - from;
        proof {
            assert(d.take(k + 1).drop_last() =~= d.take(k));
            assert(d.take(k + 1).last() == c);
            assert forall|j: int| 0 <= j < k + 1 implies #[trigger] is_digit(d.take(k + 1)[j]) by {
                if j < k {
                    assert(d.take(k + 1)[j] == d.take(k)[j]);
                }
            }
            lemma_digits_value_nonneg(d.take(k));
        }
        if !overflow {
            if acc > (u64::MAX - v) / 10 {
                overflow = true;
            } else {
                acc = acc * 10 + v;
            }
        }
        i = i + 1;
    }
    proof {
        assert(d.take(n - from) =~= d);
    }
    if overflow {
        None
    } else {
        Some(acc)
    }
}

/// Parses `s` as `str::parse::<u64>` does.
pub fn parse_u64(s: &str) -> (r: Option<u64>)
    ensures
        r == parse_u64_spec(s@),
{
    let chars = chars_of(s);
    let n = chars.len();
    let from: usize = if n > 0 && chars[0] == '+' { 1 } else { 0 };
    proof {
        if from == 1 {
            assert(chars@.subrange(1, n as int) =~= s@.drop_first());
        } else {
            assert(chars@.subrange(0, n as int) =~= s@);
        }
    }
    if from == n {
        return None;
    }
    digits_to_u64(&chars, from)
}


/// The decimal digit character for `k` (`0 <= k < 10`).
pub open spec fn digit_char(k: int) -> char {
    (k + 0x30) as char
}

/// The decimal notation of `n`, without leading zeros: what `to_string`
/// gives for an unsigned integer.
pub open spec fn decimal_text(n: nat) -> Seq<char>
    decreases n,
{
    if n < 10 {
        seq![digit_char(n as int)]
    } else {
        decimal_text(n / 10).push(digit_char((n % 10) as int))
    }
}

/// The decimal notation of a signed `n`: `-` before the digits of its
/// magnitude when negative.
pub open spec fn signed_decimal_text(n: int) -> Seq<char> {
    if n < 0 {
        seq!['-'] + decimal_text((-n) as nat)
    } else {
        decimal_text(n as nat)
    }
}

fn digit_to_char(k: u64) -> (c: char)
    requires
        k < 10,
    ensures
        c == digit_char(k as int),
{
    match k {
        0 => '0',
        1 => '1',
        2 => '2',
        3 => '3',
        4 => '4',
        5 => '5',
        6 => '6',
        7 => '7',
        8 => '8',
        _ => '9',
    }
}

/// Appends the decimal notation of `n` to `s`.
fn push_decimal(s: &mut String, n: u64)
    ensures
        final(s)@ == old(s)@ + decimal_text(n as nat),
    decreases n,
{
    if n < 10 {
        push_char(s, digit_to_char(n));
        assert(old(s)@.push(digit_char(n as int)) =~= old(s)@ + decimal_text(n as nat));
    } else {
        push_decimal(s, n / 10);
        push_char(s, digit_to_char(n % 10));
        assert(old(s)@ + decimal_text((n / 10) as nat) + seq![digit_char((n % 10) as int)]
            =~= old(s)@ + decimal_text(n as nat));
    }
}

/// The decimal notation of `n`, as `u64::to_string` gives it.
pub fn u64_text(n: u64) -> (r: String)
    ensures
        r@ == decimal_text(n as nat),
{
    let mut r = String::new();
    push_decimal(&mut r, n);
    assert(Seq::<char>::empty() + decimal_text(n as nat) =~= decimal_text(n as nat));
    r
}

/// The decimal notation of `n`, as `i64::to_string` gives it.
pub fn i64_text(n: i64) -> (r: String)
    ensures
        r@ == signed_decimal_text(n as int),
{
    let mut r = String::new();
    if n < 0 {
        push_char(&mut r, '-');
        let magnitude: u64 = ((-(n + 1)) as u64) + 1;
        push_decimal(&mut r, magnitude);
    } else {
        push_decimal(&mut r, n as u64);
        assert(Seq::<char>::empty() + decimal_text(n as nat) =~= decimal_text(n as nat));
    }
    r
}

/// The digits of a decimal notation are digits and denote the number.
proof fn lemma_decimal_text_digits(n: nat)
    ensures
        all_digits(decimal_text(n)),
        digits_value(decimal_text(n)) == n,
        decimal_text(n).len() > 0,
        decimal_text(n)[0] != '+',
    decreases n,
{
    let d = (n % 10) as int;
    assert(digit_value(digit_char(d)) == d);
    assert(is_digit(digit_char(d)));
    if n >= 10 {
        lemma_decimal_text_digits(n / 10);
        let t = decimal_text(n);
        assert(t.drop_last() =~= decimal_text(n / 10));
        assert(t.last() == digit_char(d));
        assert(digits_value(t) == digits_value(decimal_text(n / 10)) * 10 + d);
        assert((n / 10) * 10 + d == n);
        assert forall|i: int| 0 <= i < t.len() implies #[trigger] is_digit(t[i]) by {
            if i < t.len() - 1 {
                assert(t[i] == decimal_text(n / 10)[i]);
            }
        }
    } else {
        let t = decimal_text(n);
        assert(t =~= seq![digit_char(d)]);
        assert(t.drop_last() =~= Seq::<char>::empty());
        assert(digits_value(t.drop_last()) == 0);
        assert(t.last() == digit_char(d));
        assert(digits_value(t) == d);
    }
}

/// Reading back the decimal notation of a number gives that number:
/// `parse::<u64>` undoes `u64::to_string`.
pub proof fn law_parse_undoes_decimal_text(n: u64)
    ensures
        parse_u64_spec(decimal_text(n as nat)) == Some(n),
{
    lemma_decimal_text_digits(n as nat);
}

} // verus!

//! Character-level helpers shared by the parsers and renderers.
use vstd::prelude::*;

verus! {

/// The Unicode `White_Space` property, which `char::is_whitespace` and
/// `str::trim` use.
pub open spec fn is_unicode_whitespace(c: char) -> bool {
    ||| '\u{9}' <= c <= '\u{d}'
    ||| c == ' '
    ||| c == '\u{85}'
    ||| c == '\u{a0}'
    ||| c == '\u{1680}'
    ||| '\u{2000}' <= c <= '\u{200a}'
    ||| c == '\u{2028}'
    ||| c == '\u{2029}'
    ||| c == '\u{202f}'
    ||| c == '\u{205f}'
    ||| c == '\u{3000}'
}

/// The text with leading and trailing whitespace removed.
pub open spec fn trimmed(s: Seq<char>) -> Seq<char>
    decreases s.len(),
{
    if s.len() > 0 && is_unicode_whitespace(s[0]) {
        trimmed(s.drop_first())
    } else if s.len() > 0 && is_unicode_whitespace(s.last()) {
        trimmed(s.drop_last())
    } else {
        s
    }
}

/// Text that neither starts nor ends with whitespace is its own trim.
pub proof fn lemma_trimmed_identity(s: Seq<char>)
    requires
        s.len() > 0 ==> !is_unicode_whitespace(s[0]) && !is_unicode_whitespace(s.last()),
    ensures
        trimmed(s) == s,
{
}

/// Leading whitespace can be dropped before trimming.
proof fn lemma_trimmed_front(s: Seq<char>, k: int)
    requires
        0 <= k <= s.len(),
        forall|i: int| 0 <= i < k ==> is_unicode_whitespace(#[trigger] s[i]),
    ensures
        trimmed(s) == trimmed(s.subrange(k, s.len() as int)),
    decreases k,
{
    if k == 0 {
        assert(s.subrange(0, s.len() as int) =~= s);
    } else {
        let t = s.drop_first();
        assert forall|i: int| 0 <= i < k - 1 implies is_unicode_whitespace(#[trigger] t[i]) by {
            assert(t[i] == s[i + 1]);
        }
        lemma_trimmed_front(t, k - 1);
        assert(t.subrange(k - 1, t.len() as int) =~= s.subrange(k, s.len() as int));
    }
}

/// Trailing whitespace can be dropped before trimming text that starts with
/// something else.
proof fn lemma_trimmed_back(s: Seq<char>, end: int)
    requires
        0 < end <= s.len(),
        !is_unicode_whitespace(s[0]),
        forall|i: int| end <= i < s.len() ==> is_unicode_whitespace(#[trigger] s[i]),
    ensures
        trimmed(s) == trimmed(s.subrange(0, end)),
    decreases s.len() - end,
{
    if end == s.len() {
        assert(s.subrange(0, end) =~= s);
    } else {
        let t = s.drop_last();
        assert(is_unicode_whitespace(s[s.len() - 1]));
        assert(trimmed(s) == trimmed(t));
        lemma_trimmed_back(t, end);
        assert(t.subrange(0, end) =~= s.subrange(0, end));
    }
}

/// Text that is all whitespace trims to nothing.
proof fn lemma_trimmed_blank(s: Seq<char>)
    requires
        forall|i: int| 0 <= i < s.len() ==> is_unicode_whitespace(#[trigger] s[i]),
    ensures
        trimmed(s) == Seq::<char>::empty(),
{
    lemma_trimmed_front(s, s.len() as int);
    assert(s.subrange(s.len() as int, s.len() as int) =~= Seq::<char>::empty());
}

/// Whitespace around text does not change its trim, and a trim neither
/// starts nor ends with whitespace.
pub proof fn lemma_trim_surrounding(a: Seq<char>, s: Seq<char>, b: Seq<char>)
    requires
        forall|i: int| 0 <= i < a.len() ==> is_unicode_whitespace(#[trigger] a[i]),
        forall|i: int| 0 <= i < b.len() ==> is_unicode_whitespace(#[trigger] b[i]),
    ensures
        trimmed(a + s + b) == trimmed(s),
        trimmed(s).len() > 0 ==> !is_unicode_whitespace(trimmed(s)[0]) && !is_unicode_whitespace(
            trimmed(s).last(),
        ),
{
    let t = a + s + b;
    assert forall|i: int| 0 <= i < a.len() implies is_unicode_whitespace(#[trigger] t[i]) by {
        assert(t[i] == a[i]);
    }
    lemma_trimmed_front(t, a.len() as int);
    let sb = t.subrange(a.len() as int, t.len() as int);
    assert(sb =~= s + b);
    // Leading whitespace of `s`.
    let k = leading_blank(s);
    lemma_leading_blank(s);
    assert forall|i: int| 0 <= i < k implies is_unicode_whitespace(#[trigger] sb[i]) by {
        assert(sb[i] == s[i]);
    }
    lemma_trimmed_front(sb, k);
    lemma_trimmed_front(s, k);
    let rest = s.subrange(k, s.len() as int);
    assert(sb.subrange(k, sb.len() as int) =~= rest + b);
    if k == s.len() {
        assert(rest + b =~= b);
        assert(rest =~= Seq::<char>::empty());
        lemma_trimmed_blank(b);
    } else {
        let rb = rest + b;
        assert(rb[0] == s[k]);
        assert forall|i: int| rest.len() <= i < rb.len() implies is_unicode_whitespace(#[trigger] rb[i]) by {
            assert(rb[i] == b[i - rest.len()]);
        }
        lemma_trimmed_back(rb, rest.len() as int);
        assert(rb.subrange(0, rest.len() as int) =~= rest);
    }
    lemma_trimmed_ends(s);
}

/// How many whitespace characters `s` starts with.
spec fn leading_blank(s: Seq<char>) -> int
    decreases s.len(),
{
    if s.len() > 0 && is_unicode_whitespace(s[0]) {
        1 + leading_blank(s.drop_first())
    } else {
        0
    }
}

proof fn lemma_leading_blank(s: Seq<char>)
    ensures
        0 <= leading_blank(s) <= s.len(),
        forall|i: int| 0 <= i < leading_blank(s) ==> is_unicode_whitespace(#[trigger] s[i]),
        leading_blank(s) < s.len() ==> !is_unicode_whitespace(s[leading_blank(s)]),
    decreases s.len(),
{
    if s.len() > 0 && is_unicode_whitespace(s[0]) {
        let t = s.drop_first();
        lemma_leading_blank(t);
        assert forall|i: int| 0 <= i < leading_blank(s) implies is_unicode_whitespace(#[trigger] s[i]) by {
            if i > 0 {
                assert(s[i] == t[i - 1]);
            }
        }
        if leading_blank(s) < s.len() {
            assert(s[leading_blank(s)] == t[leading_blank(t)]);
        }
    }
}

/// A trim neither starts nor ends with whitespace.
proof fn lemma_trimmed_ends(s: Seq<char>)
    ensures
        trimmed(s).len() > 0 ==> !is_unicode_whitespace(trimmed(s)[0]) && !is_unicode_whitespace(
            trimmed(s).last(),
        ),
    decreases s.len(),
{
    if s.len() > 0 && is_unicode_whitespace(s[0]) {
        lemma_trimmed_ends(s.drop_first());
    } else if s.len() > 0 && is_unicode_whitespace(s.last()) {
        lemma_trimmed_ends(s.drop_last());
    }
}

/// Whether `c` is Unicode whitespace.
pub fn is_whitespace(c: char) -> (r: bool)
    ensures
        r == is_unicode_whitespace(c),
{
    ('\u{9}' <= c && c <= '\u{d}') || c == ' ' || c == '\u{85}' || c == '\u{a0}'
        || c == '\u{1680}' || ('\u{2000}' <= c && c <= '\u{200a}') || c == '\u{2028}'
        || c == '\u{2029}' || c == '\u{202f}' || c == '\u{205f}' || c == '\u{3000}'
}

/// The slice without leading and trailing Unicode whitespace.
pub fn trim(s: &str) -> (r: &str)
    ensures
        r@ == trimmed(s@),
{
    let n = s.unicode_len();
    let mut start: usize = 0;
    while start < n && is_whitespace(s.get_char(start))
        invariant
            n == s@.len(),
            start <= n,
            forall|i: int| 0 <= i < start ==> is_unicode_whitespace(#[trigger] s@[i]),
        decreases n - start,
    {
        start = start + 1;
    }
    let mut end: usize = n;
    while end > start && is_whitespace(s.get_char(end - 1))
        invariant
            n == s@.len(),
            start <= end <= n,
            forall|i: int| end <= i < n ==> is_unicode_whitespace(#[trigger] s@[i]),
        decreases end - start,
    {
        end = end - 1;
    }
    let r = s.substring_char(start, end);
    proof {
        lemma_trimmed_front(s@, start as int);
        let u = s@.subrange(start as int, n as int);
        if start < n {
            assert(!is_unicode_whitespace(s@[start as int]));
            assert(u[0] == s@[start as int]);
            assert forall|i: int| end - start <= i < u.len() implies is_unicode_whitespace(#[trigger] u[i]) by {
                assert(u[i] == s@[i + start]);
            }
            lemma_trimmed_back(u, end - start);
            let v = u.subrange(0, end - start);
            assert(v =~= s@.subrange(start as int, end as int));
            assert(v.len() > 0);
            assert(v[0] == s@[start as int]);
            assert(v.last() == s@[end - 1]);
            lemma_trimmed_identity(v);
        } else {
            assert(u =~= Seq::<char>::empty());
            assert(s@.subrange(start as int, end as int) =~= Seq::<char>::empty());
        }
    }
    r
}

/// `String::push`: appends one character.
#[verifier::external_body]
pub fn push_char(s: &mut String, c: char)
    ensures
        final(s)@ == old(s)@.push(c),
{
    s.push(c)
}

/// The decimal digit character for `d`.
pub open spec fn digit_char(d: int) -> char {
    if d == 0 { '0' }
    else if d == 1 { '1' }
    else if d == 2 { '2' }
    else if d == 3 { '3' }
    else if d == 4 { '4' }
    else if d == 5 { '5' }
    else if d == 6 { '6' }
    else if d == 7 { '7' }
    else if d == 8 { '8' }
    else { '9' }
}

pub open spec fn is_digit(c: char) -> bool {
    '0' <= c <= '9'
}

/// The numeric value of a digit character.
pub open spec fn digit_value(c: char) -> int {
    c as int - '0' as int
}

/// The value of a sequence of decimal digits, most significant first.
pub open spec fn digits_value(s: Seq<char>) -> int
    decreases s.len(),
{
    if s.len() == 0 {
        0
    } else {
        digits_value(s.drop_last()) * 10 + digit_value(s.last())
    }
}

/// An ASCII character converts to the byte with the same value.
pub proof fn lemma_ascii_byte(c: char)
    requires
        (c as nat) < 128,
    ensures
        (c as u8) as int == c as int,
{
}

/// The shortest decimal text of `n`.
pub open spec fn decimal_text(n: nat) -> Seq<char>
    decreases n,
{
    if n < 10 {
        seq![digit_char(n as int)]
    } else {
        decimal_text(n / 10).push(digit_char((n % 10) as int))
    }
}

/// The last four decimal digits of `n`, zero-padded.
pub open spec fn four_digits(n: nat) -> Seq<char> {
    seq![
        digit_char(((n / 1000) % 10) as int),
        digit_char(((n / 100) % 10) as int),
        digit_char(((n / 10) % 10) as int),
        digit_char((n % 10) as int),
    ]
}

/// A count of ten-thousandths as text with exactly four decimals.
pub open spec fn units_text(n: nat) -> Seq<char> {
    decimal_text(n / 10000) + seq!['.'] + four_digits(n % 10000)
}

pub proof fn lemma_digit_char(d: int)
    requires
        0 <= d < 10,
    ensures
        is_digit(digit_char(d)),
        digit_value(digit_char(d)) == d,
{
}

/// Decimal text is a non-empty run of digits denoting its number.
pub proof fn lemma_decimal_text(n: nat)
    ensures
        decimal_text(n).len() > 0,
        forall|i: int| 0 <= i < decimal_text(n).len() ==> is_digit(#[trigger] decimal_text(n)[i]),
        digits_value(decimal_text(n)) == n,
    decreases n,
{
    if n < 10 {
        lemma_digit_char(n as int);
        let t = decimal_text(n);
        assert(t.drop_last() =~= Seq::<char>::empty());
        assert(digits_value(t.drop_last()) == 0);
        assert(t.last() == digit_char(n as int));
    } else {
        lemma_decimal_text(n / 10);
        lemma_digit_char((n % 10) as int);
        let s = decimal_text(n / 10);
        assert(decimal_text(n).drop_last() =~= s);
        assert(decimal_text(n).last() == digit_char((n % 10) as int));
        assert(digits_value(decimal_text(n)) == digits_value(s) * 10 + (n % 10));
        assert((n / 10) * 10 + (n % 10) == n) by (nonlinear_arith);
        assert forall|i: int| 0 <= i < decimal_text(n).len() implies is_digit(#[trigger] decimal_text(n)[i]) by {
            if i < s.len() {
                assert(decimal_text(n)[i] == s[i]);
            }
        }
    }
}

/// Decimal text has no leading zero: it starts with `'0'` only when it is
/// `"0"`.
pub proof fn lemma_decimal_text_leading(n: nat)
    ensures
        decimal_text(n)[0] == '0' ==> n == 0 && decimal_text(n).len() == 1,
    decreases n,
{
    if n >= 10 {
        lemma_decimal_text(n / 10);
        lemma_decimal_text_leading(n / 10);
        assert(decimal_text(n)[0] == decimal_text(n / 10)[0]);
    }
}

/// Four zero-padded digits denote the number below 10000 they were made from.
pub proof fn lemma_four_digits(n: nat)
    requires
        n < 10000,
    ensures
        forall|i: int| 0 <= i < 4 ==> is_digit(#[trigger] four_digits(n)[i]),
        digits_value(four_digits(n)) == n,
{
    let a: nat = (n / 1000) % 10;
    let b: nat = (n / 100) % 10;
    let c: nat = (n / 10) % 10;
    let d: nat = n % 10;
    lemma_digit_char(a as int);
    lemma_digit_char(b as int);
    lemma_digit_char(c as int);
    lemma_digit_char(d as int);
    let f = four_digits(n);
    assert(f.drop_last() =~= seq![digit_char(a as int), digit_char(b as int), digit_char(c as int)]);
    assert(f.drop_last().drop_last() =~= seq![digit_char(a as int), digit_char(b as int)]);
    assert(f.drop_last().drop_last().drop_last() =~= seq![digit_char(a as int)]);
    assert(f.drop_last().drop_last().drop_last().drop_last() =~= Seq::<char>::empty());
    let f1 = f.drop_last().drop_last().drop_last();
    assert(digits_value(f1.drop_last()) == 0);
    assert(f1.last() == digit_char(a as int));
    assert(digits_value(f1) == a);
    assert(digits_value(f.drop_last().drop_last()) == a * 10 + b);
    assert(digits_value(f.drop_last()) == (a * 10 + b) * 10 + c);
    assert(digits_value(f) == ((a * 10 + b) * 10 + c) * 10 + d);
    assert(((a * 10 + b) * 10 + c) * 10 + d == n) by (nonlinear_arith)
        requires
            n < 10000,
            a == (n / 1000) % 10,
            b == (n / 100) % 10,
            c == (n / 10) % 10,
            d == n % 10,
    ;
}

pub fn digit(d: u128) -> (c: char)
    requires
        d < 10,
    ensures
        c == digit_char(d as int),
{
    if d == 0 { '0' }
    else if d == 1 { '1' }
    else if d == 2 { '2' }
    else if d == 3 { '3' }
    else if d == 4 { '4' }
    else if d == 5 { '5' }
    else if d == 6 { '6' }
    else if d == 7 { '7' }
    else if d == 8 { '8' }
    else { '9' }
}

/// Appends the decimal text of `n`.
pub fn push_decimal(out: &mut String, n: u128)
    ensures
        final(out)@ == old(out)@ + decimal_text(n as nat),
    decreases n,
{
    if n >= 10 {
        push_decimal(out, n / 10);
    }
    let c = digit(n % 10);
    push_char(out, c);
    assert(out@ =~= old(out)@ + decimal_text(n as nat));
}

/// Appends `n` ten-thousandths as text with exactly four decimals.
pub fn push_units(out: &mut String, n: u128)
    ensures
        final(out)@ == old(out)@ + units_text(n as nat),
{
    push_decimal(out, n / 10000);
    push_char(out, '.');
    let r: u128 = n % 10000;
    push_char(out, digit((r / 1000) % 10));
    push_char(out, digit((r / 100) % 10));
    push_char(out, digit((r / 10) % 10));
    push_char(out, digit(r % 10));
    assert(out@ =~= old(out)@ + units_text(n as nat));
}

} // verus!

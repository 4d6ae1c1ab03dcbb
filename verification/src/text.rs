//! Text helpers: decimal rendering of integers, trimming of trailing slashes
//! and joining of strings with a separator.

use vstd::prelude::*;

verus! {

/// The character of the decimal digit `d` (for `d < 10`).
pub open spec fn digit_char(d: nat) -> char {
    ((48 + d) as u32) as char
}

/// The decimal digits of `n`, most significant first, without leading zeros.
pub open spec fn nat_digits(n: nat) -> Seq<char>
    decreases n,
{
    if n < 10 {
        seq![digit_char(n)]
    } else {
        nat_digits(n / 10).push(digit_char(n % 10))
    }
}

/// The decimal rendering of `n`: a minus sign for negative numbers, then the digits
/// of its magnitude (this is what `Display` prints for the integer types).
pub open spec fn int_decimal(n: int) -> Seq<char> {
    if n < 0 {
        seq!['-'] + nat_digits((-n) as nat)
    } else {
        nat_digits(n as nat)
    }
}

/// `s` with every trailing `'/'` removed.
pub open spec fn trim_trailing_slashes(s: Seq<char>) -> Seq<char>
    decreases s.len(),
{
    if s.len() > 0 && s.last() == '/' {
        trim_trailing_slashes(s.drop_last())
    } else {
        s
    }
}

/// `parts` joined with `sep` placed between each two neighbours.
pub open spec fn join_with(parts: Seq<Seq<char>>, sep: Seq<char>) -> Seq<char>
    decreases parts.len(),
{
    if parts.len() == 0 {
        Seq::empty()
    } else if parts.len() == 1 {
        parts[0]
    } else {
        join_with(parts.drop_last(), sep) + sep + parts.last()
    }
}

/// The value of a string of decimal digits, most significant first.
pub open spec fn digits_value(s: Seq<char>) -> int
    decreases s.len(),
{
    if s.len() == 0 {
        0
    } else {
        digits_value(s.drop_last()) * 10 + (s.last() as int - 48)
    }
}

/// The value that a decimal rendering denotes: a leading minus sign negates the
/// value of the digits after it.
pub open spec fn decimal_value(s: Seq<char>) -> int {
    if s.len() > 0 && s[0] == '-' {
        -digits_value(s.drop_first())
    } else {
        digits_value(s)
    }
}

/// Whether `c` is one of the characters `'0'` to `'9'`.
pub open spec fn is_digit(c: char) -> bool {
    '0' <= c <= '9'
}

/// The digits of a number are decimal digits, at least one, and they denote the number.
pub proof fn lemma_nat_digits(n: nat)
    ensures
        nat_digits(n).len() > 0,
        forall|i: int| 0 <= i < nat_digits(n).len() ==> is_digit(#[trigger] nat_digits(n)[i]),
        digits_value(nat_digits(n)) == n,
    decreases n,
{
    if n >= 10 {
        lemma_nat_digits(n / 10);
        let d = nat_digits(n);
        assert(d.drop_last() =~= nat_digits(n / 10));
        assert(digit_char(n % 10) as int == 48 + n % 10);
        assert((n / 10) * 10 + n % 10 == n) by (nonlinear_arith);
        assert(d.last() == digit_char(n % 10));
        assert(digits_value(d) == digits_value(nat_digits(n / 10)) * 10 + (n % 10));
    } else {
        let d = nat_digits(n);
        assert(d.drop_last() =~= Seq::<char>::empty());
        assert(digit_char(n) as int == 48 + n);
        assert(digits_value(d.drop_last()) == 0);
        assert(d.last() == digit_char(n));
    }
}

/// Reading back the decimal rendering of an integer gives the integer: the
/// rendering loses nothing, so two different integers never render alike.
pub proof fn lemma_decimal_round_trip(n: int)
    ensures
        decimal_value(int_decimal(n)) == n,
{
    if n < 0 {
        let m = (-n) as nat;
        lemma_nat_digits(m);
        assert((seq!['-'] + nat_digits(m)).drop_first() =~= nat_digits(m));
    } else {
        lemma_nat_digits(n as nat);
        assert(is_digit(nat_digits(n as nat)[0]));
    }
}

/// The decimal rendering of an integer holds only digits and, first, possibly a minus sign.
pub proof fn lemma_decimal_chars(n: int)
    ensures
        int_decimal(n).len() > 0,
        forall|i: int| 0 <= i < int_decimal(n).len() ==>
            is_digit(#[trigger] int_decimal(n)[i]) || (i == 0 && n < 0 && int_decimal(n)[i] == '-'),
{
    if n < 0 {
        lemma_nat_digits((-n) as nat);
        let d = nat_digits((-n) as nat);
        assert forall|i: int| 0 <= i < int_decimal(n).len() implies
            is_digit(#[trigger] int_decimal(n)[i]) || (i == 0 && n < 0 && int_decimal(n)[i] == '-') by {
            if i > 0 {
                assert(int_decimal(n)[i] == d[i - 1]);
            }
        }
    } else {
        lemma_nat_digits(n as nat);
    }
}

/// Two integers with the same decimal rendering are equal.
pub proof fn lemma_decimal_injective(a: int, b: int)
    requires
        int_decimal(a) == int_decimal(b),
    ensures
        a == b,
{
    lemma_decimal_round_trip(a);
    lemma_decimal_round_trip(b);
}

/// Trimming trailing slashes leaves no trailing slash, and trimming twice is
/// trimming once.
pub proof fn lemma_trim_trailing_slashes(s: Seq<char>)
    ensures
        trim_trailing_slashes(s).len() == 0 || trim_trailing_slashes(s).last() != '/',
        trim_trailing_slashes(trim_trailing_slashes(s)) == trim_trailing_slashes(s),
        trim_trailing_slashes(s).len() <= s.len(),
        trim_trailing_slashes(s) == s.take(trim_trailing_slashes(s).len() as int),
    decreases s.len(),
{
    if s.len() > 0 && s.last() == '/' {
        lemma_trim_trailing_slashes(s.drop_last());
        let t = trim_trailing_slashes(s);
        assert(s.drop_last().take(t.len() as int) =~= s.take(t.len() as int));
    } else {
        assert(s.take(s.len() as int) =~= s);
    }
}

/// Trimming removes slashes and nothing else: what is cut off the end of `s`
/// is all `'/'`, and what is kept is a prefix of `s` that does not end in `'/'`.
pub proof fn lemma_trim_removes_only_slashes(s: Seq<char>)
    ensures
        trim_trailing_slashes(s).len() <= s.len(),
        trim_trailing_slashes(s) == s.take(trim_trailing_slashes(s).len() as int),
        forall|i: int| trim_trailing_slashes(s).len() <= i < s.len() ==> #[trigger] s[i] == '/',
        trim_trailing_slashes(s).len() == 0 || trim_trailing_slashes(s).last() != '/',
        s.len() == 0 || s.last() != '/' ==> trim_trailing_slashes(s) == s,
    decreases s.len(),
{
    lemma_trim_trailing_slashes(s);
    if s.len() > 0 && s.last() == '/' {
        let t = s.drop_last();
        lemma_trim_removes_only_slashes(t);
        assert forall|i: int| trim_trailing_slashes(s).len() <= i < s.len() implies #[trigger] s[i] == '/' by {
            if i < s.len() - 1 {
                assert(s[i] == t[i]);
            }
        }
    }
}

/// Joining one more part puts the separator and that part after the join of the
/// parts before it; one part alone is itself, and no parts join to nothing.
pub proof fn lemma_join_push(parts: Seq<Seq<char>>, sep: Seq<char>, p: Seq<char>)
    ensures
        join_with(Seq::empty(), sep) == Seq::<char>::empty(),
        join_with(seq![p], sep) == p,
        parts.len() > 0 ==> join_with(parts.push(p), sep) == join_with(parts, sep) + sep + p,
{
    assert(parts.push(p).drop_last() =~= parts);
    assert(parts.push(p).last() == p);
}

/// The decimal rendering of a natural number below ten is its digit alone, and
/// that of a larger one is the rendering of its tenth followed by its last digit.
pub proof fn lemma_nat_digits_shape(n: nat)
    ensures
        n < 10 ==> nat_digits(n) == seq![(('0' as u32) + n) as char],
        n >= 10 ==> nat_digits(n) == nat_digits(n / 10).push((('0' as u32) + n % 10) as char),
        int_decimal(n as int) == nat_digits(n),
        int_decimal(-(n as int)) == (if n == 0 { seq!['0'] } else { seq!['-'] + nat_digits(n) }),
{
}

/// Slashes appended to a string are all trimmed away again.
pub proof fn lemma_trim_appended_slash(s: Seq<char>)
    ensures
        trim_trailing_slashes(s.push('/')) == trim_trailing_slashes(s),
{
    assert(s.push('/').drop_last() =~= s);
}

/// Appends `c` to `s`: a call of std's `String::push`, documented as
/// "Appends the given char to the end of this String".
#[verifier::external_body]
pub(crate) fn push_char(s: &mut String, c: char)
    ensures
        final(s)@ == old(s)@.push(c),
{
    s.push(c);
}

/// Appends the decimal digits of `m` to `out`.
fn push_digits(out: &mut String, m: u64)
    ensures
        final(out)@ == old(out)@ + nat_digits(m as nat),
    decreases m,
{
    let ghost start = out@;
    if m >= 10 {
        push_digits(out, m / 10);
    }
    let d: u8 = (m % 10) as u8;
    let c: char = (48u8 + d) as char;
    assert(c == digit_char((m % 10) as nat));
    push_char(out, c);
    assert(out@ =~= start + nat_digits(m as nat));
}

/// The decimal rendering of `n`, as `n.to_string()` gives it.
pub fn decimal(n: i64) -> (s: String)
    ensures
        s@ == int_decimal(n as int),
{
    let mut s = String::new();
    if n < 0 {
        push_char(&mut s, '-');
        let wide: i128 = n as i128;
        let m: u64 = (0i128 - wide) as u64;
        push_digits(&mut s, m);
    } else {
        push_digits(&mut s, n as u64);
    }
    s
}

/// `s` with every trailing `'/'` removed, as `s.trim_end_matches('/')` gives it.
pub fn trim_end_slashes(s: &str) -> (r: &str)
    ensures
        r@ == trim_trailing_slashes(s@),
{
    let n: usize = s.unicode_len();
    let mut end: usize = n;
    assert(s@.subrange(0, n as int) =~= s@);
    while end > 0 && s.get_char(end - 1) == '/'
        invariant
            end <= n,
            n == s@.len(),
            trim_trailing_slashes(s@) == trim_trailing_slashes(s@.subrange(0, end as int)),
        decreases end,
    {
        assert(s@.subrange(0, end as int).drop_last() =~= s@.subrange(0, end - 1));
        end = end - 1;
    }
    s.substring_char(0, end)
}

/// `parts` joined with `sep` between each two neighbours, as `parts.join(sep)` gives it.
pub fn join_strings(parts: &Vec<String>, sep: &str) -> (r: String)
    ensures
        r@ == join_with(parts.deep_view(), sep@),
{
    let ghost views = parts.deep_view();
    let mut r = String::new();
    let mut i: usize = 0;
    while i < parts.len()
        invariant
            i <= parts.len(),
            views == parts.deep_view(),
            views.len() == parts.len(),
            r@ == join_with(views.take(i as int), sep@),
        decreases parts.len() - i,
    {
        if i > 0 {
            r.append(sep);
        }
        r.append(parts[i].as_str());
        assert(views.take(i + 1).drop_last() =~= views.take(i as int));
        assert(views[i as int] == parts[i as int]@);
        i = i + 1;
    }
    assert(views.take(i as int) =~= views);
    r
}

} // verus!

//! Small string helpers shared by the reader, the evaluator and the printer.

use vstd::prelude::*;

verus! {

/// Relies on `String::push`: appends exactly the given character to the end
/// of the string.
#[verifier::external_body]
pub(crate) fn push_char(s: &mut String, c: char)
    ensures
        final(s)@ == old(s)@.push(c),
{
    s.push(c);
}

/// Character-by-character string comparison.
pub fn str_eq(a: &str, b: &str) -> (r: bool)
    ensures
        r == (a@ == b@),
{
    let n = a.unicode_len();
    let m = b.unicode_len();
    if n != m {
        return false;
    }
    let mut i: usize = 0;
    while i < n
        invariant
            n == a@.len(),
            n == b@.len(),
            i <= n,
            forall|j: int| 0 <= j < i ==> a@[j] == b@[j],
        decreases n - i,
    {
        if a.get_char(i) != b.get_char(i) {
            return false;
        }
        i = i + 1;
    }
    proof {
        assert(a@ =~= b@);
    }
    true
}

/// The decimal digits of a natural number, most significant first.
pub open spec fn dec_digits(n: nat) -> Seq<char>
    decreases n,
{
    if n < 10 {
        seq![digit_char(n)]
    } else {
        dec_digits(n / 10).push(digit_char(n % 10))
    }
}

/// The character for a single decimal digit.
pub open spec fn digit_char(d: nat) -> char {
    ((d + 48) as u8) as char
}

/// The decimal rendering of a signed integer: a minus sign for negative
/// numbers, then the digits of the magnitude.
pub open spec fn dec_i64(n: i64) -> Seq<char> {
    if n < 0 {
        seq!['-'].add(dec_digits((-(n as int)) as nat))
    } else {
        dec_digits(n as nat)
    }
}

/// Appends the decimal digits of `n` to `out`.
pub fn append_u64(out: &mut String, n: u64)
    ensures
        final(out)@ == old(out)@.add(dec_digits(n as nat)),
    decreases n,
{
    if n < 10 {
        push_char(out, ((n as u8) + 48) as char);
        proof {
            assert(out@ =~= old(out)@.add(dec_digits(n as nat)));
        }
    } else {
        append_u64(out, n / 10);
        push_char(out, (((n % 10) as u8) + 48) as char);
        proof {
            assert(out@ =~= old(out)@.add(dec_digits(n as nat)));
        }
    }
}

/// Appends the decimal rendering of `n` to `out`.
pub fn append_i64(out: &mut String, n: i64)
    ensures
        final(out)@ == old(out)@.add(dec_i64(n)),
{
    if n < 0 {
        push_char(out, '-');
        let mag: u64 = if n == i64::MIN {
            9223372036854775808u64
        } else {
            (-n) as u64
        };
        append_u64(out, mag);
        proof {
            assert(out@ =~= old(out)@.add(dec_i64(n)));
        }
    } else {
        append_u64(out, n as u64);
    }
}

/// Whether a character is a decimal digit.
pub open spec fn is_digit(c: char) -> bool {
    '0' <= c && c <= '9'
}

/// The value of a digit string, most significant digit first.
pub open spec fn digits_val(s: Seq<char>) -> int
    decreases s.len(),
{
    if s.len() == 0 {
        0
    } else {
        digits_val(s.drop_last()) * 10 + (s.last() as u32 as int - 48)
    }
}

/// Whether every character is a decimal digit.
pub open spec fn all_digits(s: Seq<char>) -> bool {
    forall|i: int| 0 <= i < s.len() ==> is_digit(s[i])
}

/// What parsing a base-10 signed integer returns: an optional sign, then at
/// least one digit, nothing else, and a value within the machine range;
/// anything else is `None`.
pub open spec fn spec_parse_i64(s: Seq<char>) -> Option<i64> {
    let neg = s.len() > 0 && s[0] == '-';
    let ds = if s.len() > 0 && (s[0] == '-' || s[0] == '+') {
        s.drop_first()
    } else {
        s
    };
    if ds.len() == 0 || !all_digits(ds) {
        None
    } else {
        let v = if neg {
            -digits_val(ds)
        } else {
            digits_val(ds)
        };
        if i64::MIN <= v <= i64::MAX {
            Some(v as i64)
        } else {
            None
        }
    }
}

/// A digit string's value is never negative.
pub proof fn lemma_digits_val_nonneg(s: Seq<char>)
    requires
        all_digits(s),
    ensures
        digits_val(s) >= 0,
    decreases s.len(),
{
    if s.len() > 0 {
        assert(all_digits(s.drop_last()));
        lemma_digits_val_nonneg(s.drop_last());
        assert(is_digit(s.last()));
        assert(digits_val(s.drop_last()) * 10 >= 0) by (nonlinear_arith)
            requires
                digits_val(s.drop_last()) >= 0,
        ;
    }
}

/// Extending a digit string at the back multiplies its value by ten and adds
/// the new digit; a prefix therefore never exceeds the whole.
pub proof fn lemma_digits_val_prefix(s: Seq<char>, k: int)
    requires
        all_digits(s),
        0 <= k <= s.len(),
    ensures
        digits_val(s) >= digits_val(s.take(k)),
    decreases s.len() - k,
{
    if k < s.len() {
        lemma_digits_val_prefix(s, k + 1);
        assert(s.take(k + 1).drop_last() =~= s.take(k));
        assert(all_digits(s.take(k)));
        lemma_digits_val_nonneg(s.take(k));
        assert(is_digit(s.take(k + 1).last()));
        assert(digits_val(s.take(k + 1)) >= digits_val(s.take(k))) by (nonlinear_arith)
            requires
                digits_val(s.take(k + 1)) == digits_val(s.take(k)) * 10 + (s.take(k + 1).last()
                    as u32 as int - 48),
                digits_val(s.take(k)) >= 0,
                s.take(k + 1).last() as u32 as int - 48 >= 0,
        ;
    } else {
        assert(s.take(k) =~= s);
    }
}

/// Parses a base-10 signed integer: an optional `+` or `-` sign, then
/// digits.  Returns `None` on any other character, an empty digit string, or
/// a value outside the machine range.
#[verifier::loop_isolation(false)]
pub fn parse_i64(s: &str) -> (r: Option<i64>)
    ensures
        r == spec_parse_i64(s@),
{
    let n = s.unicode_len();
    if n == 0 {
        return None;
    }
    let first = s.get_char(0);
    let (neg, start): (bool, usize) = if first == '-' {
        (true, 1)
    } else if first == '+' {
        (false, 1)
    } else {
        (false, 0)
    };
    let ghost ds: Seq<char> = if start == 1 {
        s@.drop_first()
    } else {
        s@
    };
    proof {
        assert forall|j: int| 0 <= j < ds.len() implies ds[j] == s@[j + start] by {}
    }
    if start == n {
        return None;
    }
    let limit: u64 = if neg {
        9223372036854775808u64
    } else {
        9223372036854775807u64
    };
    let mut acc: u64 = 0;
    let mut i: usize = start;
    while i < n
        invariant
            start <= i <= n,
            n == s@.len(),
            start == 0 || start == 1,
            start == 1 ==> ds == s@.drop_first(),
            start == 0 ==> ds == s@,
            ds.len() == n - start,
            forall|j: int| 0 <= j < ds.len() ==> ds[j] == s@[j + start],
            all_digits(ds.take(i - start)),
            acc as int == digits_val(ds.take(i - start)),
            acc <= limit,
            limit >= 9223372036854775807,
        decreases n - i,
    {
        let c = s.get_char(i);
        if !('0' <= c && c <= '9') {
            proof {
                assert(ds[i - start] == c);
                assert(!is_digit(ds[i - start]));
                assert(!all_digits(ds));
            }
            return None;
        }
        let d: u64 = (c as u32 - 48) as u64;
        proof {
            assert(c as u32 >= 48 && c as u32 <= 57);
        }
        if acc > (limit - d) / 10 {
            proof {
                assert(ds.take(i - start + 1).drop_last() =~= ds.take(i - start));
                assert(ds.take(i - start + 1).last() == ds[i - start]);
                assert(all_digits(ds.take(i - start + 1)));
                assert(digits_val(ds.take(i - start + 1)) == acc as int * 10 + d);
                assert(acc as int * 10 + d > limit) by (nonlinear_arith)
                    requires
                        acc as int > (limit as int - d) / 10,
                        0 <= d <= 9,
                        limit as int >= d,
                ;
                if all_digits(ds) {
                    lemma_digits_val_prefix(ds, i - start + 1);
                    assert(digits_val(ds) > limit);
                }
            }
            return None;
        }
        proof {
            assert(acc * 10 + d <= limit) by (nonlinear_arith)
                requires
                    acc as int <= (limit as int - d) / 10,
                    0 <= d <= 9,
                    limit as int >= d,
            ;
            assert(ds.take(i - start + 1).drop_last() =~= ds.take(i - start));
            assert(ds.take(i - start + 1).last() == ds[i - start]);
        }
        acc = acc * 10 + d;
        i = i + 1;
    }
    proof {
        assert(ds.take(n - start) =~= ds);
        lemma_digits_val_nonneg(ds);
    }
    if neg {
        if acc == 9223372036854775808u64 {
            Some(i64::MIN)
        } else {
            Some(-(acc as i64))
        }
    } else {
        Some(acc as i64)
    }
}

/// The whitespace characters the reader strips at the ends of a line.
pub open spec fn is_space(c: char) -> bool {
    c == ' ' || c == '\n' || c == '\t' || c == '\r'
}


/// The input without its leading whitespace.
pub open spec fn trim_front(s: Seq<char>) -> Seq<char>
    decreases s.len(),
{
    if s.len() > 0 && is_space(s[0]) {
        trim_front(s.drop_first())
    } else {
        s
    }
}


/// The input without its trailing whitespace.
pub open spec fn trim_back(s: Seq<char>) -> Seq<char>
    decreases s.len(),
{
    if s.len() > 0 && is_space(s.last()) {
        trim_back(s.drop_last())
    } else {
        s
    }
}


/// Dropping leading whitespace is taking a suffix.
pub proof fn lemma_trim_front(s: Seq<char>, a: int)
    requires
        0 <= a <= s.len(),
        forall|j: int| 0 <= j < a ==> is_space(s[j]),
        a == s.len() || !is_space(s[a]),
    ensures
        trim_front(s) == s.skip(a),
    decreases a,
{
    if a == 0 {
        assert(s.skip(0) =~= s);
    } else {
        lemma_trim_front(s.drop_first(), a - 1);
        assert(s.drop_first().skip(a - 1) =~= s.skip(a));
    }
}


/// Dropping trailing whitespace is taking a prefix.
pub proof fn lemma_trim_back(s: Seq<char>, b: int)
    requires
        0 <= b <= s.len(),
        forall|j: int| b <= j < s.len() ==> is_space(s[j]),
        b == 0 || !is_space(s[b - 1]),
    ensures
        trim_back(s) == s.take(b),
    decreases s.len() - b,
{
    if b == s.len() {
        assert(s.take(b) =~= s);
    } else {
        lemma_trim_back(s.drop_last(), b);
        assert(s.drop_last().take(b) =~= s.take(b));
    }
}

/// Whether a character is reader whitespace.
pub(crate) fn space_char(c: char) -> (r: bool)
    ensures
        r == is_space(c),
{
    c == ' ' || c == '\n' || c == '\t' || c == '\r'
}

/// Appends the input without its surrounding whitespace to `out`.
#[verifier::loop_isolation(false)]
pub fn append_trimmed(out: &mut String, s: &str)
    ensures
        final(out)@ == old(out)@.add(trim_back(trim_front(s@))),
{
    let n = s.unicode_len();
    let mut a: usize = 0;
    while a < n && space_char(s.get_char(a))
        invariant
            a <= n,
            forall|j: int| 0 <= j < a ==> is_space(s@[j]),
        decreases n - a,
    {
        a = a + 1;
    }
    if a == n {
        proof {
            lemma_trim_front(s@, a as int);
            assert(s@.skip(a as int) =~= Seq::<char>::empty());
            lemma_trim_back(Seq::<char>::empty(), 0);
            assert(out@ =~= old(out)@.add(trim_back(trim_front(s@))));
        }
        return ;
    }
    let mut b: usize = n;
    while b > a && space_char(s.get_char(b - 1))
        invariant
            a <= b <= n,
            forall|j: int| b <= j < n ==> is_space(s@[j]),
        decreases b,
    {
        b = b - 1;
    }
    proof {
        lemma_trim_front(s@, a as int);
        lemma_trim_back(s@.skip(a as int), b - a);
        assert(trim_back(trim_front(s@)) =~= s@.subrange(a as int, b as int)) by {
            assert(s@.skip(a as int).take(b - a) =~= s@.subrange(a as int, b as int));
        }
    }
    let ghost base = out@;
    let mut i: usize = a;
    while i < b
        invariant
            a <= i <= b,
            out@ == base.add(s@.subrange(a as int, i as int)),
        decreases b - i,
    {
        push_char(out, s.get_char(i));
        proof {
            assert(out@ =~= base.add(s@.subrange(a as int, i + 1)));
        }
        i = i + 1;
    }
}

} // verus!

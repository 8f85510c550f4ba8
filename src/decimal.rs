//! Decimal numerals: their meaning, their canonical form, reading and writing them.
use vstd::prelude::*;

verus! {

/// Whether `c` is an ASCII decimal digit.
pub open spec fn is_digit(c: char) -> bool {
    '0' <= c && c <= '9'
}

/// The value of the digit `c`.
pub open spec fn digit_value(c: char) -> nat {
    (c as int - '0' as int) as nat
}

/// The digit whose value is `d` (for `d < 10`).
pub open spec fn digit_char(d: nat) -> char {
    ((d + 48) as u8) as char
}

/// The value of a string of digits, most significant first.
pub open spec fn digits_value(s: Seq<char>) -> nat
    decreases s.len(),
{
    if s.len() == 0 {
        0
    } else {
        digits_value(s.drop_last()) * 10 + digit_value(s.last())
    }
}

/// A canonical numeral: non-empty, digits only, and no leading zero unless it is "0".
pub open spec fn is_numeral(s: Seq<char>) -> bool {
    &&& s.len() > 0
    &&& forall|i: int| 0 <= i < s.len() ==> is_digit(#[trigger] s[i])
    &&& (s[0] == '0' ==> s.len() == 1)
}

/// The canonical decimal numeral of `n`.
pub open spec fn decimal(n: nat) -> Seq<char>
    decreases n,
{
    if n < 10 {
        seq![digit_char(n)]
    } else {
        decimal(n / 10).push(digit_char(n % 10))
    }
}

/// The end of the run of digits that starts at `i` in `s`.
pub open spec fn run_end(s: Seq<char>, i: int) -> int
    decreases s.len() - i,
{
    if 0 <= i < s.len() && is_digit(s[i]) {
        run_end(s, i + 1)
    } else {
        i
    }
}

/// The number written at `i` in `s`: the run of digits there, when it is a canonical
/// numeral whose value is at most `max`.
pub open spec fn numeral_at(s: Seq<char>, i: int, max: nat) -> Option<nat> {
    let t = s.subrange(i, run_end(s, i));
    if is_numeral(t) && digits_value(t) <= max {
        Some(digits_value(t))
    } else {
        None
    }
}

/// Whether the bytes of `b` are the characters of `s`, which are all ASCII.
pub open spec fn bytes_of(b: Seq<u8>, s: Seq<char>) -> bool {
    &&& b.len() == s.len()
    &&& forall|i: int| 0 <= i < s.len() ==> '\0' <= #[trigger] s[i] <= '\u{7f}' && b[i] == s[i] as u8
}

pub proof fn lemma_digit_char(d: nat)
    requires
        d < 10,
    ensures
        is_digit(digit_char(d)),
        digit_value(digit_char(d)) == d,
{
}

pub proof fn lemma_run_end_bounds(s: Seq<char>, i: int)
    requires
        0 <= i <= s.len(),
    ensures
        i <= run_end(s, i) <= s.len(),
        forall|k: int| i <= k < run_end(s, i) ==> is_digit(#[trigger] s[k]),
        run_end(s, i) < s.len() ==> !is_digit(s[run_end(s, i)]),
    decreases s.len() - i,
{
    if i < s.len() && is_digit(s[i]) {
        lemma_run_end_bounds(s, i + 1);
    }
}

/// A run of digits from `i` that stops at `j`, before a non-digit or the end, ends at `j`.
pub proof fn lemma_run_end_at(s: Seq<char>, i: int, j: int)
    requires
        0 <= i <= j <= s.len(),
        forall|k: int| i <= k < j ==> is_digit(#[trigger] s[k]),
        j == s.len() || !is_digit(s[j]),
    ensures
        run_end(s, i) == j,
    decreases j - i,
{
    if i < j {
        lemma_run_end_at(s, i + 1, j);
    }
}

/// The numeral of `n` is canonical and means `n`.
pub proof fn lemma_decimal(n: nat)
    ensures
        is_numeral(decimal(n)),
        digits_value(decimal(n)) == n,
        n < 10 ==> decimal(n).len() == 1,
    decreases n,
{
    if n < 10 {
        lemma_digit_char(n);
        assert(decimal(n).drop_last() =~= Seq::<char>::empty());
        assert(digits_value(Seq::<char>::empty()) == 0);
    } else {
        let p = decimal(n / 10);
        lemma_decimal(n / 10);
        lemma_digit_char(n % 10);
        assert(decimal(n).drop_last() =~= p);
        lemma_digits_value_push(p, digit_char(n % 10));
        if p[0] == '0' {
            assert(p.drop_last() =~= Seq::<char>::empty());
            assert(digits_value(Seq::<char>::empty()) == 0);
            assert(digits_value(p) == 0);
        }
        assert(p[0] != '0');
        assert(decimal(n)[0] == p[0]);
        assert(n == (n / 10) * 10 + n % 10);
    }
}

/// The numeral of `n`, written at `i` in `s` and followed by a non-digit or the end, is
/// read back as `n`.
pub proof fn lemma_numeral_at_decimal(s: Seq<char>, i: int, n: nat, max: nat)
    requires
        0 <= i,
        i + decimal(n).len() <= s.len(),
        s.subrange(i, i + decimal(n).len()) == decimal(n),
        i + decimal(n).len() == s.len() || !is_digit(s[i + decimal(n).len()]),
        n <= max,
    ensures
        run_end(s, i) == i + decimal(n).len(),
        numeral_at(s, i, max) == Some(n),
{
    let d = decimal(n);
    lemma_decimal(n);
    assert forall|k: int| i <= k < i + d.len() implies is_digit(#[trigger] s[k]) by {
        assert(s[k] == s.subrange(i, i + d.len())[k - i]);
    }
    lemma_run_end_at(s, i, i + d.len());
}

/// The numeral of `n` is ASCII.
pub proof fn lemma_decimal_ascii(n: nat)
    ensures
        vstd::utf8::is_ascii_chars(decimal(n)),
{
    lemma_decimal(n);
    let d = decimal(n);
    assert forall|k: int| 0 <= k < d.len() implies '\0' <= #[trigger] d[k] <= '\u{7f}' by {
        assert(is_digit(d[k]));
    }
}

/// Appending a digit to a string of digits.
pub proof fn lemma_digits_value_push(s: Seq<char>, c: char)
    ensures
        digits_value(s.push(c)) == digits_value(s) * 10 + digit_value(c),
{
    assert(s.push(c).drop_last() =~= s);
}

/// The digit that `d` is, as the one-character text that spells it.
fn digit_text(d: u16) -> (r: &'static str)
    requires
        d < 10,
    ensures
        r@ == seq![digit_char(d as nat)],
{
    proof {
        reveal_strlit("0");
        reveal_strlit("1");
        reveal_strlit("2");
        reveal_strlit("3");
        reveal_strlit("4");
        reveal_strlit("5");
        reveal_strlit("6");
        reveal_strlit("7");
        reveal_strlit("8");
        reveal_strlit("9");
    }
    let r = if d == 0 {
        "0"
    } else if d == 1 {
        "1"
    } else if d == 2 {
        "2"
    } else if d == 3 {
        "3"
    } else if d == 4 {
        "4"
    } else if d == 5 {
        "5"
    } else if d == 6 {
        "6"
    } else if d == 7 {
        "7"
    } else if d == 8 {
        "8"
    } else {
        "9"
    };
    assert(r@ =~= seq![digit_char(d as nat)]);
    r
}

/// Appends the canonical decimal numeral of `n` to `out`.
pub fn push_decimal(out: &mut String, n: u16)
    ensures
        final(out)@ == old(out)@ + decimal(n as nat),
    decreases n,
{
    if n >= 10 {
        push_decimal(out, n / 10);
    }
    let d = digit_text(n % 10);
    out.append(d);
    proof {
        if n < 10 {
            assert(decimal(n as nat) == seq![digit_char(n as nat)]);
        } else {
            assert(decimal(n as nat) == decimal((n / 10) as nat).push(digit_char((n % 10) as nat)));
        }
        assert(final(out)@ =~= old(out)@ + decimal(n as nat));
    }
}

/// Reads the numeral at `i` in the ASCII text `b`, whose characters are `s`.
/// Returns where its run of digits ends, and its value when it is a canonical numeral
/// of at most `max`.
pub(crate) fn read_numeral(b: &[u8], i: usize, max: u32, Ghost(s): Ghost<Seq<char>>) -> (r: (usize, Option<u32>))
    requires
        bytes_of(b@, s),
        i <= s.len(),
        max <= 65535,
    ensures
        r.0 == run_end(s, i as int),
        r.1 == match numeral_at(s, i as int, max as nat) {
            Some(v) => Some(v as u32),
            None => None::<u32>,
        },
{
    let mut j: usize = i;
    let mut val: u32 = 0;
    let mut big = false;
    proof {
        lemma_run_end_bounds(s, i as int);
    }
    while j < b.len() && b[j] >= 48 && b[j] <= 57
        invariant
            bytes_of(b@, s),
            i <= j <= s.len(),
            max <= 65535,
            run_end(s, i as int) == run_end(s, j as int),
            forall|k: int| i <= k < j ==> is_digit(#[trigger] s[k]),
            !big ==> val == digits_value(s.subrange(i as int, j as int)) && val <= max,
            big ==> digits_value(s.subrange(i as int, j as int)) > max,
        decreases s.len() - j,
    {
        let d = (b[j] - 48) as u32;
        proof {
            assert(is_digit(s[j as int]));
            assert(digit_value(s[j as int]) == d);
            lemma_digits_value_push(s.subrange(i as int, j as int), s[j as int]);
            assert(s.subrange(i as int, j as int + 1) =~= s.subrange(i as int, j as int).push(
                s[j as int],
            ));
        }
        if !big {
            if val * 10 + d <= max {
                val = val * 10 + d;
            } else {
                big = true;
            }
        }
        j = j + 1;
    }
    proof {
        if j < s.len() {
            assert(!is_digit(s[j as int]));
        }
        assert(run_end(s, j as int) == j);
    }
    let t = Ghost(s.subrange(i as int, j as int));
    if big || j == i || (b[i] == 48 && j > i + 1) {
        proof {
            if !big && j > i {
                assert(t@[0] == s[i as int]);
                assert(s[i as int] == '0');
            }
        }
        (j, None)
    } else {
        proof {
            assert(t@[0] == s[i as int]);
            assert forall|k: int| 0 <= k < t@.len() implies is_digit(#[trigger] t@[k]) by {
                assert(t@[k] == s[i + k]);
            }
        }
        (j, Some(val))
    }
}

} // verus!

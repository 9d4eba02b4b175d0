use vstd::prelude::*;
use crate::chars::push_char;

verus! {

/// The character for one decimal digit value.
pub open spec fn digit_char(d: nat) -> char {
    ((d + 48) as u8) as char
}

/// The numeric value of one decimal digit character.
pub open spec fn digit_val(c: char) -> nat {
    ((c as u32) - 48) as nat
}

/// Whether the character is a decimal digit.
pub open spec fn is_digit(c: char) -> bool {
    48 <= (c as u32) && (c as u32) <= 57
}

/// The decimal representation of a number, most significant digit first,
/// with no sign and no leading zeros.
pub open spec fn dec_rep(n: nat) -> Seq<char>
    decreases n,
{
    if n < 10 {
        seq![digit_char(n)]
    } else {
        dec_rep(n / 10).push(digit_char(n % 10))
    }
}

/// The number a sequence of decimal digit characters denotes.
pub open spec fn dec_val(ds: Seq<char>) -> nat
    decreases ds.len(),
{
    if ds.len() == 0 {
        0
    } else {
        dec_val(ds.drop_last()) * 10 + digit_val(ds.last())
    }
}

/// Ten to the given power.
pub open spec fn pow10(k: nat) -> nat
    decreases k,
{
    if k == 0 {
        1
    } else {
        10 * pow10((k - 1) as nat)
    }
}

/// Every character of a decimal representation is a digit.
pub proof fn lemma_dec_rep_digits(n: nat)
    ensures
        forall|i: int| 0 <= i < dec_rep(n).len() ==> is_digit(#[trigger] dec_rep(n)[i]),
    decreases n,
{
    if n < 10 {
        assert(dec_rep(n)[0] == digit_char(n));
        assert(is_digit(digit_char(n)));
    } else {
        lemma_dec_rep_digits(n / 10);
        assert(is_digit(digit_char(n % 10)));
        assert(forall|i: int|
            0 <= i < dec_rep(n / 10).len() ==> dec_rep(n)[i] == dec_rep(n / 10)[i]);
    }
}

/// A number below the `k`-th power of ten prints in at most `k` digits.
pub proof fn lemma_dec_rep_len(n: nat, k: nat)
    requires
        1 <= k,
        n < pow10(k),
    ensures
        1 <= dec_rep(n).len() <= k,
    decreases n,
{
    if n < 10 {
    } else {
        assert(k >= 2) by {
            if k == 1 {
                assert(pow10(1nat) == 10);
            }
        }
        assert(n / 10 < pow10((k - 1) as nat)) by (nonlinear_arith)
            requires
                n < 10 * pow10((k - 1) as nat),
        ;
        lemma_dec_rep_len(n / 10, (k - 1) as nat);
    }
}

/// Reading the decimal representation of a number back gives the number.
pub proof fn lemma_dec_val_rep(n: nat)
    ensures
        dec_val(dec_rep(n)) == n,
    decreases n,
{
    if n < 10 {
        assert(dec_rep(n) == seq![digit_char(n)]);
        assert(seq![digit_char(n)].drop_last() =~= Seq::<char>::empty());
        assert(seq![digit_char(n)].last() == digit_char(n));
        assert(dec_val(Seq::<char>::empty()) == 0);
        assert(digit_val(digit_char(n)) == n);
        assert(dec_val(seq![digit_char(n)]) == n);
    } else {
        lemma_dec_val_rep(n / 10);
        let tail = dec_rep(n / 10).push(digit_char(n % 10));
        assert(dec_rep(n) == tail);
        assert(tail.drop_last() =~= dec_rep(n / 10));
        assert(tail.last() == digit_char(n % 10));
        assert(digit_val(digit_char(n % 10)) == n % 10);
        assert(dec_val(tail) == (n / 10) * 10 + n % 10);
        assert((n / 10) * 10 + n % 10 == n) by (nonlinear_arith);
    }
}

/// The position just past the run of decimal digits starting at `i`.
pub open spec fn digit_run_end(s: Seq<char>, i: int) -> int
    decreases s.len() - i,
{
    if 0 <= i < s.len() && is_digit(s[i]) {
        digit_run_end(s, i + 1)
    } else {
        i
    }
}

/// Reads an unsigned number of at most ten digits from position `i`; yields
/// the value and the position just past the digits.
pub open spec fn parse_u32(s: Seq<char>, i: int) -> Option<(u32, int)> {
    let j = digit_run_end(s, i);
    if i < j <= i + 10 && dec_val(s.subrange(i, j)) <= u32::MAX {
        Some((dec_val(s.subrange(i, j)) as u32, j))
    } else {
        None
    }
}

/// The digit run ends exactly where the digits stop.
pub proof fn lemma_digit_run(s: Seq<char>, i: int, j: int)
    requires
        0 <= i <= j <= s.len(),
        forall|k: int| i <= k < j ==> is_digit(#[trigger] s[k]),
        j == s.len() || !is_digit(s[j]),
    ensures
        digit_run_end(s, i) == j,
    decreases j - i,
{
    if i < j {
        lemma_digit_run(s, i + 1, j);
    }
}

/// Reading a decimal representation followed by a non-digit yields the
/// number and stops at the non-digit.
pub proof fn lemma_parse_u32_rep(s: Seq<char>, i: int, n: u32)
    requires
        0 <= i,
        i + dec_rep(n as nat).len() < s.len(),
        s.subrange(i, i + dec_rep(n as nat).len() as int) == dec_rep(n as nat),
        !is_digit(s[i + dec_rep(n as nat).len() as int]),
    ensures
        parse_u32(s, i) == Some((n, i + dec_rep(n as nat).len() as int)),
{
    let rep = dec_rep(n as nat);
    let len = rep.len() as int;
    lemma_dec_rep_digits(n as nat);
    assert forall|k: int| i <= k < i + len implies is_digit(#[trigger] s[k]) by {
        assert(s[k] == s.subrange(i, i + len)[k - i]);
        assert(rep[k - i] == s.subrange(i, i + len)[k - i]);
    }
    lemma_digit_run(s, i, i + len);
    assert(pow10(10) == 10000000000) by {
        reveal_with_fuel(pow10, 11);
    }
    lemma_dec_rep_len(n as nat, 10);
    lemma_dec_val_rep(n as nat);
}

/// Whether the character is a decimal digit.
pub(crate) fn is_digit_exec(c: char) -> (r: bool)
    ensures
        r == is_digit(c),
{
    let v = c as u32;
    48 <= v && v <= 57
}

/// Whether position `j` holds a decimal digit.
fn digit_at(s: &Vec<char>, j: usize) -> (r: bool)
    ensures
        r == (j < s@.len() && is_digit(s@[j as int])),
{
    if j < s.len() {
        is_digit_exec(s[j])
    } else {
        false
    }
}

/// Reads an unsigned number; implements `parse_u32`.
pub(crate) fn parse_u32_exec(s: &Vec<char>, i: usize) -> (r: Option<(u32, usize)>)
    requires
        i <= s@.len(),
    ensures
        match r {
            Some((n, j)) => parse_u32(s@, i as int) == Some((n, j as int)) && i < j <= s@.len(),
            None => parse_u32(s@, i as int) is None,
        },
{
    let n = s.len();
    let mut j: usize = i;
    let mut more = digit_at(s, j);
    while more
        invariant
            n == s@.len(),
            i <= j <= s@.len(),
            more == (j < s@.len() && is_digit(s@[j as int])),
            digit_run_end(s@, i as int) == digit_run_end(s@, j as int),
            forall|k: int| i <= k < j ==> is_digit(#[trigger] s@[k]),
        decreases s@.len() - j,
    {
        j = j + 1;
        more = digit_at(s, j);
    }
    proof {
        assert(digit_run_end(s@, j as int) == j);
    }
    if j == i || j - i > 10 {
        return None;
    }
    proof {
        reveal_with_fuel(pow10, 11);
    }
    let mut acc: u64 = 0;
    let mut k: usize = i;
    proof {
        assert(s@.subrange(i as int, i as int) =~= Seq::<char>::empty());
    }
    while k < j
        invariant
            n == s@.len(),
            i <= k <= j <= s@.len(),
            j <= i + 10,
            forall|q: int| i <= q < j ==> is_digit(#[trigger] s@[q]),
            (acc as nat) == dec_val(s@.subrange(i as int, k as int)),
            (acc as nat) < pow10((k - i) as nat),
            pow10(10) == 10000000000,
        decreases j - k,
    {
        let c = s[k];
        proof {
            assert(is_digit(s@[k as int]));
        }
        let d: u64 = (c as u32 - 48) as u64;
        proof {
            assert((d as nat) == digit_val(c));
            assert(d <= 9);
            let pre = s@.subrange(i as int, k as int);
            let post = s@.subrange(i as int, k as int + 1);
            assert(post.drop_last() =~= pre);
            assert(post.last() == c);
            assert(pow10((k - i + 1) as nat) == 10 * pow10((k - i) as nat));
            assert((acc as nat) * 10 + (d as nat) < 10 * pow10((k - i) as nat)) by (nonlinear_arith)
                requires
                    (acc as nat) < pow10((k - i) as nat),
                    d as nat <= 9,
            ;
            assert(pow10((k - i + 1) as nat) <= pow10(10)) by {
                lemma_pow10_mono((k - i + 1) as nat, 10);
            }
        }
        acc = acc * 10 + d;
        k = k + 1;
    }
    if acc > 0xFFFF_FFFF {
        return None;
    }
    Some((acc as u32, j))
}

/// Powers of ten grow with the exponent.
pub proof fn lemma_pow10_mono(a: nat, b: nat)
    requires
        a <= b,
    ensures
        pow10(a) <= pow10(b),
    decreases b,
{
    if a < b {
        lemma_pow10_mono(a, (b - 1) as nat);
        assert(pow10(b) == 10 * pow10((b - 1) as nat));
        assert(pow10((b - 1) as nat) <= 10 * pow10((b - 1) as nat)) by (nonlinear_arith)
            requires
                pow10((b - 1) as nat) >= 0,
        ;
    }
}

/// Appends the decimal digits of `n` to the string.
pub fn push_u32(out: &mut String, n: u32)
    ensures
        final(out)@ == old(out)@ + dec_rep(n as nat),
    decreases n,
{
    if n >= 10 {
        push_u32(out, n / 10);
        let d: u8 = (n % 10) as u8 + 48;
        push_char(out, d as char);
        proof {
            assert(d as char == digit_char((n % 10) as nat));
            assert(old(out)@ + dec_rep((n / 10) as nat) + seq![digit_char((n % 10) as nat)]
                =~= old(out)@ + dec_rep(n as nat));
        }
    } else {
        let d: u8 = n as u8 + 48;
        push_char(out, d as char);
        proof {
            assert(d as char == digit_char(n as nat));
            assert(old(out)@.push(digit_char(n as nat)) =~= old(out)@ + dec_rep(n as nat));
        }
    }
}

} // verus!

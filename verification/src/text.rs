use vstd::prelude::*;
use vstd::string::*;

verus! {

/// The character of the decimal digit `d`.
pub open spec fn digit_char(d: nat) -> char {
    if d == 0 {
        '0'
    } else if d == 1 {
        '1'
    } else if d == 2 {
        '2'
    } else if d == 3 {
        '3'
    } else if d == 4 {
        '4'
    } else if d == 5 {
        '5'
    } else if d == 6 {
        '6'
    } else if d == 7 {
        '7'
    } else if d == 8 {
        '8'
    } else {
        '9'
    }
}

/// The decimal notation of `n`, without leading zeros.
pub open spec fn decimal(n: nat) -> Seq<char>
    decreases n,
{
    if n < 10 {
        seq![digit_char(n)]
    } else {
        decimal(n / 10).push(digit_char(n % 10))
    }
}

/// The number that a text of decimal digits reads as, most significant digit first.
pub open spec fn decimal_value(s: Seq<char>) -> int
    decreases s.len(),
{
    if s.len() == 0 {
        0
    } else {
        10 * decimal_value(s.drop_last()) + (s.last() as int - 48)
    }
}

/// Each digit is written as its ASCII character: digit `d` is character `48 + d`.
pub proof fn lemma_digit_char_is_ascii(d: nat)
    requires
        d < 10,
    ensures
        digit_char(d) as int == 48 + d,
{
    assert('0' as int == 48 && '1' as int == 49 && '2' as int == 50 && '3' as int == 51
        && '4' as int == 52 && '5' as int == 53 && '6' as int == 54 && '7' as int == 55
        && '8' as int == 56 && '9' as int == 57);
}

/// The decimal notation of a number reads back as that number: it is made of
/// ASCII digits, has no leading zero, and its digits give `n` again.
pub proof fn lemma_decimal_reads_back(n: nat)
    ensures
        decimal_value(decimal(n)) == n,
        forall|i: int| 0 <= i < decimal(n).len() ==> 48 <= #[trigger] decimal(n)[i] as int <= 57,
        decimal(n).len() > 1 ==> decimal(n)[0] as int != 48,
    decreases n,
{
    if n < 10 {
        lemma_digit_char_is_ascii(n);
        assert(decimal(n).drop_last() =~= Seq::<char>::empty());
        assert(decimal_value(decimal(n)) == 10 * decimal_value(Seq::<char>::empty()) + (digit_char(n) as int - 48));
    } else {
        lemma_decimal_reads_back(n / 10);
        lemma_digit_char_is_ascii(n % 10);
        let front = decimal(n / 10);
        assert(decimal(n).drop_last() =~= front);
        assert(decimal(n).last() == digit_char(n % 10));
        assert(decimal_value(decimal(n)) == 10 * decimal_value(front) + (digit_char(n % 10) as int - 48));
        assert(n == 10 * (n / 10) + n % 10);
        assert(decimal(n)[0] == front[0]);
        assert forall|i: int| 0 <= i < decimal(n).len() implies 48 <= #[trigger] decimal(n)[i] as int <= 57 by {
            if i < front.len() {
                assert(decimal(n)[i] == front[i]);
            }
        }
        if front.len() == 1 {
            assert(n / 10 < 10) by {
                if n / 10 >= 10 {
                    assert(decimal(n / 10).len() > 1) by {
                        reveal_with_fuel(decimal, 2);
                    }
                }
            }
            assert(n / 10 > 0);
            lemma_digit_char_is_ascii(n / 10);
        }
    }
}

fn digit_text(d: u64) -> (r: &'static str)
    requires
        d < 10,
    ensures
        r@ == seq![digit_char(d as nat)],
{
    if d == 0 {
        proof { reveal_strlit("0"); }
        "0"
    } else if d == 1 {
        proof { reveal_strlit("1"); }
        "1"
    } else if d == 2 {
        proof { reveal_strlit("2"); }
        "2"
    } else if d == 3 {
        proof { reveal_strlit("3"); }
        "3"
    } else if d == 4 {
        proof { reveal_strlit("4"); }
        "4"
    } else if d == 5 {
        proof { reveal_strlit("5"); }
        "5"
    } else if d == 6 {
        proof { reveal_strlit("6"); }
        "6"
    } else if d == 7 {
        proof { reveal_strlit("7"); }
        "7"
    } else if d == 8 {
        proof { reveal_strlit("8"); }
        "8"
    } else {
        proof { reveal_strlit("9"); }
        "9"
    }
}

/// Appends the decimal notation of `n` to `out`.
pub fn push_decimal(out: &mut String, n: u64)
    ensures
        final(out)@ == old(out)@ + decimal(n as nat),
    decreases n,
{
    if n < 10 {
        out.append(digit_text(n));
    } else {
        push_decimal(out, n / 10);
        out.append(digit_text(n % 10));
        proof {
            assert((n / 10) as nat == (n as nat) / 10);
        }
    }
}

/// Whether two texts are the same.
pub fn text_equals(a: &str, b: &str) -> (r: bool)
    ensures
        r == (a@ == b@),
{
    let n = a.unicode_len();
    if n != b.unicode_len() {
        return false;
    }
    for i in 0..n
        invariant
            n == a@.len(),
            n == b@.len(),
            forall|k: int| 0 <= k < i ==> a@[k] == b@[k],
    {
        if a.get_char(i) != b.get_char(i) {
            return false;
        }
    }
    assert(a@ =~= b@);
    true
}

} // verus!

use vstd::prelude::*;

verus! {

/// The character for one decimal digit.
pub open spec fn digit_char(d: int) -> char {
    if d == 0 {
        '0'
    } else if d == 1 {
        '1'
    } else if d == 2 {
        '2'
    } else if d == 3 {
        '3'
    } else if d == 4 {
        '4'
    } else if d == 5 {
        '5'
    } else if d == 6 {
        '6'
    } else if d == 7 {
        '7'
    } else if d == 8 {
        '8'
    } else {
        '9'
    }
}

/// The decimal digits of a natural number, most significant first, no leading
/// zeros (a single zero for zero itself).
pub open spec fn dec_digits(n: nat) -> Seq<char>
    decreases n,
{
    if n < 10 {
        seq![digit_char(n as int)]
    } else {
        dec_digits((n / 10) as nat).push(digit_char((n % 10) as int))
    }
}

/// The decimal form of an integer: a minus sign before the digits when negative.
pub open spec fn dec_int(n: int) -> Seq<char> {
    if n >= 0 {
        dec_digits(n as nat)
    } else {
        seq!['-'] + dec_digits((-n) as nat)
    }
}

pub proof fn lemma_dec_digits_len(n: nat)
    ensures
        dec_digits(n).len() >= 1,
        n < 10 <==> dec_digits(n).len() == 1,
    decreases n,
{
    if n >= 10 {
        lemma_dec_digits_len((n / 10) as nat);
    }
}

/// Distinct naturals have distinct decimal forms.
pub proof fn lemma_dec_digits_injective(a: nat, b: nat)
    requires
        dec_digits(a) == dec_digits(b),
    ensures
        a == b,
    decreases a,
{
    lemma_dec_digits_len(a);
    lemma_dec_digits_len(b);
    if a < 10 && b < 10 {
        assert(dec_digits(a)[0] == dec_digits(b)[0]);
        assert(dec_digits(a)[0] == digit_char(a as int));
        assert(dec_digits(b)[0] == digit_char(b as int));
        lemma_digit_char_injective(a as int, b as int);
    } else if a < 10 {
        assert(dec_digits(b).len() >= 2) by {
            lemma_dec_digits_len((b / 10) as nat);
        }
    } else if b < 10 {
        assert(dec_digits(a).len() >= 2) by {
            lemma_dec_digits_len((a / 10) as nat);
        }
    } else {
        assert(dec_digits(a) == dec_digits((a / 10) as nat).push(digit_char((a % 10) as int)));
        assert(dec_digits(b) == dec_digits((b / 10) as nat).push(digit_char((b % 10) as int)));
        assert(dec_digits(a).last() == digit_char((a % 10) as int));
        assert(dec_digits(b).last() == digit_char((b % 10) as int));
        lemma_digit_char_injective((a % 10) as int, (b % 10) as int);
        assert(dec_digits((a / 10) as nat) =~= dec_digits(a).drop_last());
        assert(dec_digits((b / 10) as nat) =~= dec_digits(b).drop_last());
        lemma_dec_digits_injective((a / 10) as nat, (b / 10) as nat);
        assert(a == 10 * (a as int / 10) + a as int % 10) by {
            vstd::arithmetic::div_mod::lemma_fundamental_div_mod(a as int, 10);
        }
        assert(b == 10 * (b as int / 10) + b as int % 10) by {
            vstd::arithmetic::div_mod::lemma_fundamental_div_mod(b as int, 10);
        }
    }
}

proof fn lemma_digit_char_injective(x: int, y: int)
    requires
        0 <= x < 10,
        0 <= y < 10,
        digit_char(x) == digit_char(y),
    ensures
        x == y,
{
}

/// Distinct integers have distinct decimal forms.
pub proof fn lemma_dec_int_injective(a: int, b: int)
    requires
        dec_int(a) == dec_int(b),
    ensures
        a == b,
{
    if a >= 0 && b >= 0 {
        lemma_dec_digits_injective(a as nat, b as nat);
    } else if a < 0 && b < 0 {
        assert(dec_int(a).skip(1) =~= dec_digits((-a) as nat));
        assert(dec_int(b).skip(1) =~= dec_digits((-b) as nat));
        lemma_dec_digits_injective((-a) as nat, (-b) as nat);
    } else if a >= 0 {
        assert(dec_int(a)[0] == dec_int(b)[0]);
        assert(dec_digits(a as nat)[0] == '-');
        lemma_first_digit_not_minus(a as nat);
    } else {
        assert(dec_int(a)[0] == dec_int(b)[0]);
        assert(dec_digits(b as nat)[0] == '-');
        lemma_first_digit_not_minus(b as nat);
    }
}

proof fn lemma_first_digit_not_minus(n: nat)
    ensures
        dec_digits(n)[0] != '-',
    decreases n,
{
    if n >= 10 {
        lemma_first_digit_not_minus((n / 10) as nat);
        lemma_dec_digits_len((n / 10) as nat);
    }
}

/// The character for `d`; mirrors `digit_char`.
pub fn digit_char_exec(d: u64) -> (c: char)
    requires
        d < 10,
    ensures
        c == digit_char(d as int),
{
    if d == 0 {
        '0'
    } else if d == 1 {
        '1'
    } else if d == 2 {
        '2'
    } else if d == 3 {
        '3'
    } else if d == 4 {
        '4'
    } else if d == 5 {
        '5'
    } else if d == 6 {
        '6'
    } else if d == 7 {
        '7'
    } else if d == 8 {
        '8'
    } else {
        '9'
    }
}

/// The decimal digits of `n`, as characters.
pub fn u64_chars(n: u64) -> (r: Vec<char>)
    ensures
        r@ == dec_digits(n as nat),
    decreases n,
{
    let d = digit_char_exec(n % 10);
    if n < 10 {
        let mut v: Vec<char> = Vec::new();
        v.push(d);
        proof {
            assert(v@ =~= dec_digits(n as nat));
        }
        v
    } else {
        let mut v = u64_chars(n / 10);
        v.push(d);
        proof {
            assert(v@ =~= dec_digits(n as nat));
        }
        v
    }
}

/// The decimal form of `n`, as characters, minus sign included when negative.
pub fn i64_chars(n: i64) -> (r: Vec<char>)
    ensures
        r@ == dec_int(n as int),
{
    if n >= 0 {
        u64_chars(n as u64)
    } else {
        let m128: i128 = -(n as i128);
        proof {
            assert(m128 == -(n as int));
            assert(0 < m128 < 0x1_0000_0000_0000_0000_i128);
        }
        let m: u64 = m128 as u64;
        proof {
            assert(m as nat == (-(n as int)) as nat);
        }
        let mut v: Vec<char> = Vec::new();
        v.push('-');
        let digits = u64_chars(m);
        let mut i: usize = 0;
        while i < digits.len()
            invariant
                i <= digits@.len(),
                v@ == seq!['-'] + digits@.take(i as int),
            decreases digits@.len() - i,
        {
            v.push(digits[i]);
            proof {
                assert(v@ =~= seq!['-'] + digits@.take(i as int + 1));
            }
            i += 1;
        }
        proof {
            assert(v@ =~= dec_int(n as int));
        }
        v
    }
}

/// Two fixed decimal digits, zero padded.
pub open spec fn two_digit_chars(n: int) -> Seq<char> {
    seq![digit_char(n / 10 % 10), digit_char(n % 10)]
}

/// Four fixed decimal digits, zero padded.
pub open spec fn four_digit_chars(n: int) -> Seq<char> {
    seq![
        digit_char(n / 1000 % 10),
        digit_char(n / 100 % 10),
        digit_char(n / 10 % 10),
        digit_char(n % 10),
    ]
}

/// Appends `n` as exactly two digits.
pub fn push_two_digits(v: &mut Vec<char>, n: u64)
    requires
        n < 100,
    ensures
        final(v)@ == old(v)@ + two_digit_chars(n as int),
{
    let ghost base = v@;
    v.push(digit_char_exec(n / 10 % 10));
    v.push(digit_char_exec(n % 10));
    proof {
        assert(v@ =~= base + two_digit_chars(n as int));
    }
}

/// Appends `n` as exactly four digits.
pub fn push_four_digits(v: &mut Vec<char>, n: u64)
    requires
        n < 10000,
    ensures
        final(v)@ == old(v)@ + four_digit_chars(n as int),
{
    let ghost base = v@;
    v.push(digit_char_exec(n / 1000 % 10));
    v.push(digit_char_exec(n / 100 % 10));
    v.push(digit_char_exec(n / 10 % 10));
    v.push(digit_char_exec(n % 10));
    proof {
        assert(v@ =~= base + four_digit_chars(n as int));
    }
}

} // verus!

//! Canonical text rendering: `-N/D`, with the slash and denominator left
//! off for integral values and zero rendered as plain `0`.

use crate::fraction::Fraction;
use crate::fraction::Sign;
use vstd::prelude::*;
use vstd::string::StringExecFns;

verus! {

/// The character for one decimal digit.
pub open spec fn digit_char(d: nat) -> char
    recommends
        d < 10,
{
    if d == 0 {
        '0'
    } else if d == 1 {
        '1'
    } else if d == 2 {
        '2'
    } else if d == 3 {
        '3'
    } else if d == 4 {
        '4'
    } else if d == 5 {
        '5'
    } else if d == 6 {
        '6'
    } else if d == 7 {
        '7'
    } else if d == 8 {
        '8'
    } else {
        '9'
    }
}

/// The decimal digits of `n`, most significant first, with no leading
/// zeros except for `n == 0` itself.
pub open spec fn dec_chars(n: nat) -> Seq<char>
    decreases n,
{
    if n < 10 {
        seq![digit_char(n)]
    } else {
        dec_chars(n / 10).push(digit_char(n % 10))
    }
}

/// The digit characters of a digit list, last digit first.
pub open spec fn rev_digit_chars(ds: Seq<u64>) -> Seq<char>
    decreases ds.len(),
{
    if ds.len() == 0 {
        Seq::<char>::empty()
    } else {
        seq![digit_char(ds.last() as nat)] + rev_digit_chars(ds.drop_last())
    }
}

/// The canonical rendering of a well-formed fraction: an optional minus
/// sign, the numerator, and `/D` only when the denominator is not 1.
pub open spec fn display_chars(f: Fraction) -> Seq<char> {
    let sign_part = if f.sign == Sign::Negative {
        seq!['-']
    } else {
        Seq::<char>::empty()
    };
    let whole = sign_part + dec_chars(f.numerator as nat);
    if f.denominator == 1 {
        whole
    } else {
        whole + seq!['/'] + dec_chars(f.denominator as nat)
    }
}

/// Peeling the first digit off a list moves its character to the end of
/// the reversed rendering.
proof fn lemma_rev_digit_chars_cons(x: u64, t: Seq<u64>)
    ensures
        rev_digit_chars(seq![x] + t) == rev_digit_chars(t).push(digit_char(x as nat)),
    decreases t.len(),
{
    let whole = seq![x] + t;
    assert(whole.len() == t.len() + 1);
    assert(rev_digit_chars(whole) == seq![digit_char(whole.last() as nat)] + rev_digit_chars(
        whole.drop_last(),
    ));
    if t.len() == 0 {
        assert(whole.last() == x);
        assert(whole.drop_last() =~= Seq::<u64>::empty());
        assert(rev_digit_chars(Seq::<u64>::empty()) =~= Seq::<char>::empty());
        assert(rev_digit_chars(whole) =~= rev_digit_chars(t).push(digit_char(x as nat)));
    } else {
        assert(whole.last() == t.last());
        assert(whole.drop_last() =~= seq![x] + t.drop_last());
        lemma_rev_digit_chars_cons(x, t.drop_last());
        assert(rev_digit_chars(t) == seq![digit_char(t.last() as nat)] + rev_digit_chars(
            t.drop_last(),
        ));
        assert(rev_digit_chars(whole) =~= rev_digit_chars(t).push(digit_char(x as nat)));
    }
}

/// One decimal digit as a string slice.
fn digit_str(d: u64) -> (c: &'static str)
    requires
        d < 10,
    ensures
        c@ =~= seq![digit_char(d as nat)],
{
    proof {
        reveal_strlit("0");
        reveal_strlit("1");
        reveal_strlit("2");
        reveal_strlit("3");
        reveal_strlit("4");
        reveal_strlit("5");
        reveal_strlit("6");
        reveal_strlit("7");
        reveal_strlit("8");
        reveal_strlit("9");
    }
    if d == 0 {
        "0"
    } else if d == 1 {
        "1"
    } else if d == 2 {
        "2"
    } else if d == 3 {
        "3"
    } else if d == 4 {
        "4"
    } else if d == 5 {
        "5"
    } else if d == 6 {
        "6"
    } else if d == 7 {
        "7"
    } else if d == 8 {
        "8"
    } else {
        "9"
    }
}

/// Appends the decimal rendering of `n` to `s`.
fn push_decimal(s: &mut String, n: u64)
    ensures
        final(s)@ == old(s)@ + dec_chars(n as nat),
{
    let ghost init = s@;
    let mut digits: Vec<u64> = Vec::new();
    let mut m = n;
    loop
        invariant_except_break
            digits@.len() == 0 ==> m == n,
            digits@.len() > 0 ==> m > 0 && dec_chars(m as nat) + rev_digit_chars(digits@)
                == dec_chars(n as nat),
            forall|k: int| 0 <= k < digits@.len() ==> digits@[k] < 10,
        ensures
            rev_digit_chars(digits@) == dec_chars(n as nat),
            forall|k: int| 0 <= k < digits@.len() ==> digits@[k] < 10,
        decreases m,
    {
        let ghost before = digits@;
        let ghost m_before = m;
        let d = m % 10;
        digits.push(d);
        m = m / 10;
        proof {
            assert(digits@.last() == d && digits@.drop_last() =~= before);
            if before.len() == 0 {
                if m_before < 10 {
                    assert(rev_digit_chars(digits@) =~= dec_chars(n as nat));
                } else {
                    assert(dec_chars(m as nat) + rev_digit_chars(digits@) =~= dec_chars(
                        n as nat,
                    ));
                }
            } else {
                if m_before < 10 {
                    assert(dec_chars(m_before as nat) =~= seq![digit_char(d as nat)]);
                    assert(rev_digit_chars(digits@) =~= seq![digit_char(d as nat)]
                        + rev_digit_chars(before));
                    assert(rev_digit_chars(digits@) =~= dec_chars(n as nat));
                } else {
                    assert(dec_chars(m_before as nat) =~= dec_chars(m as nat).push(
                        digit_char(d as nat),
                    ));
                    assert(rev_digit_chars(digits@) =~= seq![digit_char(d as nat)]
                        + rev_digit_chars(before));
                    assert(dec_chars(m as nat) + rev_digit_chars(digits@) =~= dec_chars(
                        n as nat,
                    ));
                }
            }
        }
        if m == 0 {
            break;
        }
    }
    proof {
        assert(digits@.skip(digits@.len() as int) =~= Seq::<u64>::empty());
        assert(s@ =~= init + rev_digit_chars(digits@.skip(digits@.len() as int)));
    }
    let mut i: usize = digits.len();
    while i > 0
        invariant
            i <= digits@.len(),
            forall|k: int| 0 <= k < digits@.len() ==> digits@[k] < 10,
            s@ == init + rev_digit_chars(digits@.skip(i as int)),
            rev_digit_chars(digits@) == dec_chars(n as nat),
        decreases i,
    {
        i = i - 1;
        let c = digit_str(digits[i]);
        proof {
            assert(digits@.skip(i as int) =~= seq![digits@[i as int]] + digits@.skip(
                i as int + 1,
            ));
            lemma_rev_digit_chars_cons(digits@[i as int], digits@.skip(i as int + 1));
        }
        s.append(c);
        proof {
            assert(s@ =~= init + rev_digit_chars(digits@.skip(i as int)));
        }
    }
    proof {
        assert(digits@.skip(0) =~= digits@);
    }
}

impl Fraction {
    /// Renders the simplified value as text: `-N/D`, or `-N` when the
    /// denominator is 1, with zero rendered as `0`.
    pub fn to_display_string(&self) -> (s: String)
        requires
            self.denominator != 0,
        ensures
            s@ == display_chars(Fraction::norm(self.num(), self.den())),
    {
        let simplified = self.simplify();
        let mut s = String::new();
        if matches!(simplified.sign, Sign::Negative) {
            proof {
                reveal_strlit("-");
            }
            s.append("-");
        }
        push_decimal(&mut s, simplified.numerator);
        if simplified.denominator != 1 {
            proof {
                reveal_strlit("/");
            }
            s.append("/");
            push_decimal(&mut s, simplified.denominator);
        }
        proof {
            assert(s@ =~= display_chars(Fraction::norm(self.num(), self.den())));
        }
        s
    }
}

} // verus!

use vstd::prelude::*;
use vstd::string::StrSliceExecFns;
use vstd::string::StringExecFns;

verus! {

/// Whether `c` is a decimal digit.
pub open spec fn is_digit(c: char) -> bool {
    ||| c == '0'
    ||| c == '1'
    ||| c == '2'
    ||| c == '3'
    ||| c == '4'
    ||| c == '5'
    ||| c == '6'
    ||| c == '7'
    ||| c == '8'
    ||| c == '9'
}

/// Numeric value of the digit `c`.
pub open spec fn digit_val(c: char) -> nat
    recommends
        is_digit(c),
{
    match c {
        '0' => 0,
        '1' => 1,
        '2' => 2,
        '3' => 3,
        '4' => 4,
        '5' => 5,
        '6' => 6,
        '7' => 7,
        '8' => 8,
        '9' => 9,
        _ => 0,
    }
}

/// The digit character for a value below ten.
pub open spec fn digit_char(d: nat) -> char
    recommends
        d < 10,
{
    if d == 0 {
        '0'
    } else if d == 1 {
        '1'
    } else if d == 2 {
        '2'
    } else if d == 3 {
        '3'
    } else if d == 4 {
        '4'
    } else if d == 5 {
        '5'
    } else if d == 6 {
        '6'
    } else if d == 7 {
        '7'
    } else if d == 8 {
        '8'
    } else {
        '9'
    }
}

/// Value of a run of decimal digits, most significant first.
pub open spec fn digits_val(t: Seq<char>) -> nat
    recommends
        forall|k: int| 0 <= k < t.len() ==> is_digit(t[k]),
    decreases t.len(),
{
    if t.len() == 0 {
        0
    } else {
        digits_val(t.drop_last()) * 10 + digit_val(t.last())
    }
}

/// The decimal text of `n`: no sign and no leading zeroes, a single "0" for
/// zero.
pub open spec fn dec_str(n: nat) -> Seq<char>
    decreases n,
{
    if n < 10 {
        seq![digit_char(n)]
    } else {
        dec_str(n / 10) + seq![digit_char(n % 10)]
    }
}

/// Extending a digit run to the right never shrinks its value.
pub proof fn lemma_digits_val_prefix_le(t: Seq<char>, p: int)
    requires
        0 <= p <= t.len(),
    ensures
        digits_val(t.take(p)) <= digits_val(t),
    decreases t.len() - p,
{
    if p == t.len() {
        assert(t.take(p) =~= t);
    } else {
        lemma_digits_val_prefix_le(t, p + 1);
        assert(t.take(p + 1).drop_last() =~= t.take(p));
        assert(t.take(p + 1).last() == t[p]);
        assert(digits_val(t.take(p + 1)) == digits_val(t.take(p)) * 10 + digit_val(t[p]));
        assert(digits_val(t.take(p)) * 10 >= digits_val(t.take(p)));
    }
}

/// The digit character for a value below ten, as text.
fn digit_str(d: u128) -> (r: &'static str)
    requires
        d < 10,
    ensures
        r@ =~= seq![digit_char(d as nat)],
{
    proof {
        reveal_strlit("0");
        reveal_strlit("1");
        reveal_strlit("2");
        reveal_strlit("3");
        reveal_strlit("4");
        reveal_strlit("5");
        reveal_strlit("6");
        reveal_strlit("7");
        reveal_strlit("8");
        reveal_strlit("9");
    }
    if d == 0 {
        "0"
    } else if d == 1 {
        "1"
    } else if d == 2 {
        "2"
    } else if d == 3 {
        "3"
    } else if d == 4 {
        "4"
    } else if d == 5 {
        "5"
    } else if d == 6 {
        "6"
    } else if d == 7 {
        "7"
    } else if d == 8 {
        "8"
    } else {
        "9"
    }
}

/// The decimal text of `n`.
pub fn u128_to_string(n: u128) -> (r: String)
    ensures
        r@ == dec_str(n as nat),
    decreases n,
{
    if n < 10 {
        digit_str(n).to_owned()
    } else {
        let mut s = u128_to_string(n / 10);
        s.append(digit_str(n % 10));
        proof {
            assert(dec_str(n as nat) == dec_str((n as nat) / 10) + seq![
                digit_char((n as nat) % 10),
            ]);
            assert((n / 10) as nat == (n as nat) / 10);
            assert((n % 10) as nat == (n as nat) % 10);
        }
        s
    }
}

/// Parses the digit run `s[from..to]` as a byte amount; `None` when its
/// value exceeds the representable range.
pub(crate) fn parse_amount(s: &str, from: usize, to: usize) -> (r: Option<u128>)
    requires
        from <= to <= s@.len(),
        forall|k: int| from <= k < to ==> is_digit(s@[k]),
    ensures
        match r {
            Some(v) => v == digits_val(s@.subrange(from as int, to as int)),
            None => digits_val(s@.subrange(from as int, to as int)) > u128::MAX,
        },
{
    let mut acc: u128 = 0;
    let mut p = from;
    while p < to
        invariant
            from <= p <= to <= s@.len(),
            forall|k: int| from <= k < to ==> is_digit(s@[k]),
            acc == digits_val(s@.subrange(from as int, p as int)),
        decreases to - p,
    {
        let c = s.get_char(p);
        let d = digit_of(c);
        proof {
            assert(s@.subrange(from as int, p + 1).drop_last() =~= s@.subrange(
                from as int,
                p as int,
            ));
            assert(s@.subrange(from as int, p + 1).last() == s@[p as int]);
        }
        if acc > (u128::MAX - d) / 10 {
            proof {
                let whole = s@.subrange(from as int, to as int);
                assert(acc * 10 + d > u128::MAX) by {
                    assert(acc >= (u128::MAX - d) / 10 + 1);
                    assert(acc * 10 >= ((u128::MAX - d) / 10 + 1) * 10) by (nonlinear_arith)
                        requires
                            acc >= (u128::MAX - d) / 10 + 1,
                    ;
                    assert(((u128::MAX - d) / 10) * 10 + 10 > u128::MAX - d);
                    assert(((u128::MAX - d) / 10 + 1) * 10 == ((u128::MAX - d) / 10) * 10 + 10)
                        by (nonlinear_arith);
                }
                assert(digits_val(s@.subrange(from as int, p + 1)) > u128::MAX);
                lemma_digits_val_prefix_le(whole, p + 1 - from);
                assert(whole.take(p + 1 - from) =~= s@.subrange(from as int, p + 1));
            }
            return None;
        }
        proof {
            assert(acc <= (u128::MAX - d) / 10);
            assert(acc * 10 <= ((u128::MAX - d) / 10) * 10) by (nonlinear_arith)
                requires
                    acc <= (u128::MAX - d) / 10,
            ;
            assert(((u128::MAX - d) / 10) * 10 <= u128::MAX - d);
        }
        acc = acc * 10 + d;
        p = p + 1;
    }
    proof {
        assert(s@.subrange(from as int, p as int) =~= s@.subrange(from as int, to as int));
    }
    Some(acc)
}

/// Numeric value of the digit `c`.
fn digit_of(c: char) -> (r: u128)
    requires
        is_digit(c),
    ensures
        r == digit_val(c),
        r < 10,
{
    match c {
        '0' => 0,
        '1' => 1,
        '2' => 2,
        '3' => 3,
        '4' => 4,
        '5' => 5,
        '6' => 6,
        '7' => 7,
        '8' => 8,
        _ => 9,
    }
}

} // verus!

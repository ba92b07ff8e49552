use vstd::prelude::*;
use vstd::string::StrSliceExecFns;
use vstd::string::StringExecFns;
use crate::binary_prefix::BinaryPrefix;
use crate::binary_prefix::scale_spec;
use crate::binary_prefix::unit_token_at;
use crate::binary_prefix::match_unit_token;
use crate::decimal::is_digit;
use crate::decimal::digits_val;
use crate::decimal::dec_str;
use crate::decimal::parse_amount;
use crate::decimal::u128_to_string;
use crate::error::Error;

verus! {

/// Whether `c` is one of the whitespace characters allowed between an
/// amount and its unit token: space, tab, carriage return, newline,
/// vertical tab or form feed.
pub open spec fn is_space(c: char) -> bool {
    ||| c == ' '
    ||| c == '\t'
    ||| c == '\r'
    ||| c == '\n'
    ||| c == '\u{b}'
    ||| c == '\u{c}'
}

/// Length of the longest prefix of `t` whose characters all satisfy `pred`.
pub open spec fn run_len(t: Seq<char>, pred: spec_fn(char) -> bool) -> nat
    decreases t.len(),
{
    if t.len() > 0 && pred(t[0]) {
        (1 + run_len(t.skip(1), pred)) as nat
    } else {
        0
    }
}

/// Length of the digit run at the start of `t`.
pub open spec fn digit_run(t: Seq<char>) -> nat {
    run_len(t, |c: char| is_digit(c))
}

/// Length of the whitespace run at the start of `t`.
pub open spec fn space_run(t: Seq<char>) -> nat {
    run_len(t, |c: char| is_space(c))
}

/// The prefix of length `run_len` satisfies `pred` throughout and is
/// maximal.
pub proof fn lemma_run_len_bound(t: Seq<char>, pred: spec_fn(char) -> bool)
    ensures
        run_len(t, pred) <= t.len(),
        forall|k: int| 0 <= k < run_len(t, pred) ==> pred(t[k]),
        run_len(t, pred) < t.len() ==> !pred(t[run_len(t, pred) as int]),
    decreases t.len(),
{
    if t.len() > 0 && pred(t[0]) {
        lemma_run_len_bound(t.skip(1), pred);
        assert forall|k: int| 0 <= k < run_len(t, pred) implies pred(t[k]) by {
            if k > 0 {
                assert(t.skip(1)[k - 1] == t[k]);
            }
        }
        if run_len(t, pred) < t.len() {
            assert(t.skip(1)[run_len(t, pred) - 1] == t[run_len(t, pred) as int]);
        }
    }
}

/// Any position bounded by `pred` on the left and delimited on the right is
/// exactly the run length.
pub proof fn lemma_run_len_is(t: Seq<char>, pred: spec_fn(char) -> bool, p: int)
    requires
        0 <= p <= t.len(),
        forall|k: int| 0 <= k < p ==> pred(t[k]),
        p < t.len() ==> !pred(t[p]),
    ensures
        run_len(t, pred) == p,
    decreases p,
{
    if p == 0 {
    } else {
        assert forall|k: int| 0 <= k < p - 1 implies pred(t.skip(1)[k]) by {
            assert(t.skip(1)[k] == t[k + 1]);
        }
        if p - 1 < t.skip(1).len() {
            assert(t.skip(1)[p - 1] == t[p]);
        }
        lemma_run_len_is(t.skip(1), pred, p - 1);
    }
}

/// Outcome of normalizing a text, at the specification level.
pub enum SubstOutcome {
    /// The normalized text: every unit occurrence replaced by the decimal
    /// text of the byte count it denotes, everything else unchanged.
    Text(Seq<char>),
    /// A matched digit run whose value is too large for a byte amount;
    /// carries that run.
    AmountTooBig(Seq<char>),
    /// A matched amount whose byte count exceeds the representable range.
    Overflow,
}

/// Prefixes `p` to a successfully normalized text; failures pass through.
pub open spec fn prepend(p: Seq<char>, r: SubstOutcome) -> SubstOutcome {
    match r {
        SubstOutcome::Text(t) => SubstOutcome::Text(p + t),
        _ => r,
    }
}

pub proof fn lemma_prepend_empty(r: SubstOutcome)
    ensures
        prepend(Seq::empty(), r) == r,
{
    match r {
        SubstOutcome::Text(t) => {
            assert(Seq::empty() + t =~= t);
        },
        _ => {},
    }
}

pub proof fn lemma_prepend_assoc(a: Seq<char>, b: Seq<char>, r: SubstOutcome)
    ensures
        prepend(a, prepend(b, r)) == prepend(a + b, r),
{
    match r {
        SubstOutcome::Text(t) => {
            assert(a + (b + t) =~= (a + b) + t);
        },
        _ => {},
    }
}

/// One left-to-right pass over `s`: each non-overlapping occurrence of a
/// digit run, optional whitespace and a unit token is replaced by the
/// decimal text of the byte count it denotes; every other character is kept
/// unchanged, and replaced text is not scanned again.
pub open spec fn subst_spec(s: Seq<char>) -> SubstOutcome
    decreases s.len(),
{
    if s.len() == 0 {
        SubstOutcome::Text(Seq::empty())
    } else if !is_digit(s[0]) {
        prepend(seq![s[0]], subst_spec(s.skip(1)))
    } else {
        let d = digit_run(s) as int;
        let w = d + space_run(s.skip(d));
        proof {
            lemma_run_len_bound(s, |c: char| is_digit(c));
            lemma_run_len_bound(s.skip(d), |c: char| is_space(c));
        }
        match unit_token_at(s.skip(w)) {
            Option::None => prepend(s.take(w), subst_spec(s.skip(w))),
            Option::Some((u, l)) => {
                let amt = digits_val(s.take(d));
                if amt > u128::MAX {
                    SubstOutcome::AmountTooBig(s.take(d))
                } else if amt * scale_spec(u) > u128::MAX {
                    SubstOutcome::Overflow
                } else {
                    prepend(dec_str(amt * scale_spec(u)), subst_spec(s.skip(w + l)))
                }
            },
        }
    }
}

/// Whether a digit run, optional whitespace and a unit token start at the
/// head of `t`.
pub open spec fn match_at_head(t: Seq<char>) -> bool {
    &&& t.len() > 0
    &&& is_digit(t[0])
    &&& {
        let d = digit_run(t) as int;
        let w = d + space_run(t.skip(d));
        unit_token_at(t.skip(w)) is Some
    }
}

/// Text in which no unit occurrence starts anywhere is left exactly as it
/// was.
pub proof fn lemma_substitute_no_units(s: Seq<char>)
    requires
        forall|i: int| 0 <= i < s.len() ==> !match_at_head(#[trigger] s.skip(i)),
    ensures
        subst_spec(s) == SubstOutcome::Text(s),
    decreases s.len(),
{
    if s.len() == 0 {
        assert(s =~= Seq::empty());
    } else if !is_digit(s[0]) {
        assert forall|i: int| 0 <= i < s.skip(1).len() implies !match_at_head(
            #[trigger] s.skip(1).skip(i),
        ) by {
            assert(s.skip(1).skip(i) =~= s.skip(1 + i));
            assert(!match_at_head(s.skip(1 + i)));
        }
        lemma_substitute_no_units(s.skip(1));
        assert(seq![s[0]] + s.skip(1) =~= s);
    } else {
        let d = digit_run(s) as int;
        let w = d + space_run(s.skip(d));
        lemma_run_len_bound(s, |c: char| is_digit(c));
        lemma_run_len_bound(s.skip(d), |c: char| is_space(c));
        assert(s.skip(0) =~= s);
        assert(!match_at_head(s));
        assert(unit_token_at(s.skip(w)) is None);
        assert forall|i: int| 0 <= i < s.skip(w).len() implies !match_at_head(
            #[trigger] s.skip(w).skip(i),
        ) by {
            assert(s.skip(w).skip(i) =~= s.skip(w + i));
            assert(!match_at_head(s.skip(w + i)));
        }
        lemma_substitute_no_units(s.skip(w));
        assert(s.take(w) + s.skip(w) =~= s);
    }
}

/// Index just past the digit run that starts at position `i` of `s`.
fn scan_digits(s: &str, i: usize, n: usize) -> (j: usize)
    requires
        n == s@.len(),
        i <= n,
    ensures
        i <= j <= n,
        j - i == digit_run(s@.skip(i as int)),
{
    let mut j = i;
    while j < n && is_digit_x(s.get_char(j))
        invariant
            i <= j <= n <= s@.len(),
            forall|k: int| i <= k < j ==> is_digit(s@[k]),
        decreases n - j,
    {
        j = j + 1;
    }
    proof {
        let suf = s@.skip(i as int);
        assert forall|k: int| 0 <= k < j - i implies (|c: char| is_digit(c))(suf[k]) by {
            assert(suf[k] == s@[i + k]);
        }
        if j - i < suf.len() {
            assert(suf[j - i] == s@[j as int]);
        }
        lemma_run_len_is(suf, |c: char| is_digit(c), j - i);
    }
    j
}

/// Index just past the whitespace run that starts at position `i` of `s`.
fn scan_spaces(s: &str, i: usize, n: usize) -> (j: usize)
    requires
        n == s@.len(),
        i <= n,
    ensures
        i <= j <= n,
        j - i == space_run(s@.skip(i as int)),
{
    let mut j = i;
    while j < n && is_space_x(s.get_char(j))
        invariant
            i <= j <= n <= s@.len(),
            forall|k: int| i <= k < j ==> is_space(s@[k]),
        decreases n - j,
    {
        j = j + 1;
    }
    proof {
        let suf = s@.skip(i as int);
        assert forall|k: int| 0 <= k < j - i implies (|c: char| is_space(c))(suf[k]) by {
            assert(suf[k] == s@[i + k]);
        }
        if j - i < suf.len() {
            assert(suf[j - i] == s@[j as int]);
        }
        lemma_run_len_is(suf, |c: char| is_space(c), j - i);
    }
    j
}

/// Whether `c` is a decimal digit.
fn is_digit_x(c: char) -> (r: bool)
    ensures
        r == is_digit(c),
{
    c == '0' || c == '1' || c == '2' || c == '3' || c == '4' || c == '5' || c == '6' || c == '7'
        || c == '8' || c == '9'
}

/// Whether `c` is whitespace allowed between an amount and its unit token.
fn is_space_x(c: char) -> (r: bool)
    ensures
        r == is_space(c),
{
    c == ' ' || c == '\t' || c == '\r' || c == '\n' || c == '\u{b}' || c == '\u{c}'
}

/// Replaces every `<digits><whitespace><unit token>` occurrence in `s` by
/// the decimal text of the byte count it denotes, so that the result is an
/// arithmetic expression over plain integers. A digit run whose value does
/// not fit a byte amount raises `UnitParseError` carrying that run; an
/// amount whose byte count is too large raises `OverflowError`.
pub fn substitute(s: &str) -> (r: Result<String, Error>)
    ensures
        match subst_spec(s@) {
            SubstOutcome::Text(t) => r matches Ok(o) && o@ == t,
            SubstOutcome::AmountTooBig(run) => r matches Err(e) && (e matches
            Error::UnitParseError(m) && m@ == run),
            SubstOutcome::Overflow => r matches Err(e) && e is OverflowError,
        },
{
    let n = s.unicode_len();
    let mut out = String::new();
    let mut i: usize = 0;
    proof {
        assert(s@.skip(0) =~= s@);
        lemma_prepend_empty(subst_spec(s@));
    }
    while i < n
        invariant
            i <= n,
            n == s@.len(),
            subst_spec(s@) == prepend(out@, subst_spec(s@.skip(i as int))),
        decreases n - i,
    {
        let ghost suf = s@.skip(i as int);
        let ghost out_pre = out@;
        let c = s.get_char(i);
        if !is_digit_x(c) {
            let piece = s.substring_char(i, i + 1);
            out.append(piece);
            proof {
                assert(suf[0] == s@[i as int]);
                assert(suf.skip(1) =~= s@.skip(i + 1));
                assert(subst_spec(suf) == prepend(seq![s@[i as int]], subst_spec(s@.skip(i + 1))));
                assert(piece@ =~= seq![s@[i as int]]);
                lemma_prepend_assoc(out_pre, piece@, subst_spec(s@.skip(i + 1)));
            }
            i = i + 1;
        } else {
            let j = scan_digits(s, i, n);
            let k = scan_spaces(s, j, n);
            proof {
                lemma_run_len_bound(suf, |c: char| is_digit(c));
                assert(suf[0] == s@[i as int]);
                assert(digit_run(suf) >= 1);
                let d = digit_run(suf) as int;
                assert(d == j - i);
                assert(suf.skip(d) =~= s@.skip(j as int));
                assert(d + space_run(suf.skip(d)) == k - i);
                assert(suf.skip(k - i) =~= s@.skip(k as int));
                assert(suf.take(d) =~= s@.subrange(i as int, j as int));
                assert forall|k: int| i <= k < j implies is_digit(s@[k]) by {
                    assert((|c: char| is_digit(c))(suf[k - i]));
                    assert(suf[k - i] == s@[k]);
                }
            }
            match match_unit_token(s, k, n) {
                None => {
                    let piece = s.substring_char(i, k);
                    out.append(piece);
                    proof {
                        assert(subst_spec(suf) == prepend(
                            suf.take(k - i),
                            subst_spec(suf.skip(k - i)),
                        ));
                        assert(suf.take(k - i) =~= s@.subrange(i as int, k as int));
                        assert(subst_spec(suf) == prepend(piece@, subst_spec(s@.skip(k as int))));
                        lemma_prepend_assoc(out_pre, piece@, subst_spec(s@.skip(k as int)));
                    }
                    i = k;
                },
                Some((u, l)) => {
                    match parse_amount(s, i, j) {
                        None => {
                            let run = s.substring_char(i, j);
                            proof {
                                assert(subst_spec(suf) == SubstOutcome::AmountTooBig(
                                    suf.take(j - i),
                                ));
                                assert(run@ =~= suf.take(j - i));
                            }
                            return Err(Error::UnitParseError(run.to_owned()));
                        },
                        Some(amt) => {
                            let scale = u.scale();
                            match amt.checked_mul(scale) {
                                None => {
                                    proof {
                                        assert(subst_spec(suf) == SubstOutcome::Overflow);
                                    }
                                    return Err(Error::OverflowError);
                                },
                                Some(b) => {
                                    let txt = u128_to_string(b);
                                    out.append(txt.as_str());
                                    proof {
                                        assert(suf.skip(k - i + l) =~= s@.skip(k + l));
                                        assert(subst_spec(suf) == prepend(
                                            dec_str(b as nat),
                                            subst_spec(s@.skip(k + l)),
                                        ));
                                        lemma_prepend_assoc(
                                            out_pre,
                                            txt@,
                                            subst_spec(s@.skip(k + l)),
                                        );
                                    }
                                    i = k + l;
                                },
                            }
                        },
                    }
                },
            }
        }
    }
    proof {
        assert(s@.skip(n as int) =~= Seq::<char>::empty());
        assert(subst_spec(Seq::<char>::empty()) == SubstOutcome::Text(Seq::<char>::empty()));
        assert(out@ + Seq::<char>::empty() =~= out@);
    }
    Ok(out)
}

} // verus!

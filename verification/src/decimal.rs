//! Decimal rendering and parsing for chunk ids. A chunk file's name
//! embeds its id as a run of decimal digits; rendering and parsing are
//! verified inverses, which is what makes discovery after creation find
//! exactly the chunks that were created.

use vstd::prelude::*;
use vstd::string::StrSliceExecFns;
use vstd::string::StringExecFns;

verus! {

/// The digit character for a value in `0..10`.
pub open spec fn spec_digit_char(d: int) -> char {
    if d == 0 {
        '0'
    } else if d == 1 {
        '1'
    } else if d == 2 {
        '2'
    } else if d == 3 {
        '3'
    } else if d == 4 {
        '4'
    } else if d == 5 {
        '5'
    } else if d == 6 {
        '6'
    } else if d == 7 {
        '7'
    } else if d == 8 {
        '8'
    } else {
        '9'
    }
}

pub open spec fn spec_is_digit(c: char) -> bool {
    '0' as int <= c as int <= '9' as int
}

/// Numeric value of a digit character.
pub open spec fn spec_digit_val(c: char) -> int {
    c as int - '0' as int
}

/// Decimal rendering of `n`, most significant digit first; no sign, and
/// no leading zero except for "0" itself.
pub open spec fn spec_decimal(n: int) -> Seq<char>
    decreases n,
        when 0 <= n
{
    if n < 10 {
        seq![spec_digit_char(n)]
    } else {
        spec_decimal(n / 10).push(spec_digit_char(n % 10))
    }
}

/// Value of a run of digit characters, most significant first.
pub open spec fn spec_digits_val(s: Seq<char>) -> int
    decreases s.len(),
{
    if s.len() == 0 {
        0
    } else {
        spec_digits_val(s.drop_last()) * 10 + spec_digit_val(s.last())
    }
}

pub open spec fn spec_all_digits(s: Seq<char>) -> bool {
    forall|i: int| 0 <= i < s.len() ==> spec_is_digit(s[i])
}

/// The digit characters carry their values.
pub proof fn lemma_digit_char_val(d: int)
    requires
        0 <= d < 10,
    ensures
        spec_is_digit(spec_digit_char(d)),
        spec_digit_val(spec_digit_char(d)) == d,
{
}

/// Rendering a value gives digits that parse back to it.
pub proof fn lemma_decimal_roundtrip(n: int)
    requires
        0 <= n,
    ensures
        spec_decimal(n).len() >= 1,
        spec_all_digits(spec_decimal(n)),
        spec_digits_val(spec_decimal(n)) == n,
    decreases n,
{
    if n < 10 {
        lemma_digit_char_val(n);
        let s = spec_decimal(n);
        assert(s.len() == 1);
        assert(s.drop_last() =~= Seq::<char>::empty());
        assert(spec_digits_val(s) == spec_digits_val(Seq::<char>::empty()) * 10 + spec_digit_val(
            spec_digit_char(n),
        ));
    } else {
        lemma_decimal_roundtrip(n / 10);
        lemma_digit_char_val(n % 10);
        let s = spec_decimal(n);
        assert(s.drop_last() =~= spec_decimal(n / 10));
        assert(s.last() == spec_digit_char(n % 10));
        assert(spec_digits_val(s) == spec_digits_val(spec_decimal(n / 10)) * 10 + spec_digit_val(
            spec_digit_char(n % 10),
        ));
        assert forall|i: int| 0 <= i < s.len() implies spec_is_digit(s[i]) by {
            if i < s.len() - 1 {
                assert(s[i] == spec_decimal(n / 10)[i]);
            }
        }
    }
}

/// A longer run of digits never has a smaller value.
pub proof fn lemma_digits_val_prefix(s: Seq<char>, i: int)
    requires
        spec_all_digits(s),
        0 <= i <= s.len(),
    ensures
        spec_digits_val(s.subrange(0, i)) >= 0,
        spec_digits_val(s) >= spec_digits_val(s.subrange(0, i)),
    decreases s.len() - i,
{
    if i == s.len() {
        assert(s.subrange(0, i) =~= s);
        lemma_digits_val_nonneg(s);
    } else {
        lemma_digits_val_prefix(s, i + 1);
        lemma_digits_val_nonneg(s.subrange(0, i));
        assert(s.subrange(0, i + 1).drop_last() =~= s.subrange(0, i));
        assert(spec_is_digit(s[i]));
        assert(spec_digits_val(s.subrange(0, i + 1)) == spec_digits_val(s.subrange(0, i)) * 10
            + spec_digit_val(s[i]));
        assert(spec_digits_val(s.subrange(0, i)) * 10 >= spec_digits_val(s.subrange(0, i)))
            by (nonlinear_arith)
            requires
                spec_digits_val(s.subrange(0, i)) >= 0,
        ;
    }
}

/// A run of digits has a non-negative value.
pub proof fn lemma_digits_val_nonneg(s: Seq<char>)
    requires
        spec_all_digits(s),
    ensures
        spec_digits_val(s) >= 0,
    decreases s.len(),
{
    if s.len() > 0 {
        assert(spec_all_digits(s.drop_last()));
        lemma_digits_val_nonneg(s.drop_last());
        assert(spec_is_digit(s.last()));
        assert(spec_digits_val(s.drop_last()) * 10 >= 0) by (nonlinear_arith)
            requires
                spec_digits_val(s.drop_last()) >= 0,
        ;
    }
}

/// Appends the decimal rendering of `n` to `out`.
pub fn push_decimal(n: usize, out: &mut String)
    ensures
        final(out)@ == old(out)@ + spec_decimal(n as int),
    decreases n,
{
    if n >= 10 {
        push_decimal(n / 10, out);
    }
    let d = n % 10;
    let digits = "0123456789";
    proof {
        reveal_strlit("0123456789");
        assert(digits@.len() == 10);
        assert(digits@[d as int] == spec_digit_char(d as int));
    }
    let digit = digits.substring_char(d, d + 1);
    proof {
        assert(digit@ =~= seq![spec_digit_char(d as int)]);
    }
    out.append(digit);
    proof {
        if n >= 10 {
            assert(old(out)@ + spec_decimal(n as int) =~= (old(out)@ + spec_decimal(
                n as int / 10,
            )) + seq![spec_digit_char(n as int % 10)]);
        } else {
            assert(old(out)@ + spec_decimal(n as int) =~= old(out)@ + seq![
                spec_digit_char(n as int),
            ]);
        }
    }
}

/// Parses `s[from..to]` as a run of decimal digits; fails on an empty
/// run, a non-digit, or a value beyond `usize::MAX`.
pub fn parse_decimal(s: &str, from: usize, to: usize) -> (r: Option<usize>)
    requires
        from <= to <= s@.len(),
    ensures
        r is Some <==> (from < to && spec_all_digits(s@.subrange(from as int, to as int))
            && spec_digits_val(s@.subrange(from as int, to as int)) <= usize::MAX),
        r matches Some(v) ==> spec_digits_val(s@.subrange(from as int, to as int)) == v,
{
    if from == to {
        return None;
    }
    let mut value: usize = 0;
    let mut i = from;
    while i < to
        invariant
            from <= i <= to <= s@.len(),
            spec_all_digits(s@.subrange(from as int, i as int)),
            value == spec_digits_val(s@.subrange(from as int, i as int)),
        decreases to - i,
    {
        let c = s.get_char(i);
        let cv = c as u32;
        if cv < 48 || cv > 57 {
            proof {
                assert(!spec_is_digit(s@[i as int]));
                assert(s@.subrange(from as int, to as int)[i - from] == s@[i as int]);
            }
            return None;
        }
        let d = (cv - 48) as usize;
        proof {
            assert(spec_is_digit(s@[i as int]));
            assert(spec_digit_val(s@[i as int]) == d);
        }
        if value > usize::MAX / 10 || (value == usize::MAX / 10 && d > usize::MAX % 10) {
            proof {
                let full = s@.subrange(from as int, to as int);
                let part = s@.subrange(from as int, (i + 1) as int);
                assert(part.drop_last() =~= s@.subrange(from as int, i as int));
                assert(part.last() == s@[i as int]);
                assert(spec_digits_val(part) == value * 10 + d);
                assert(value * 10 + d > usize::MAX) by (nonlinear_arith)
                    requires
                        value > usize::MAX / 10 || (value == usize::MAX / 10 && d > usize::MAX
                            % 10),
                        0 <= value,
                        0 <= d <= 9,
                ;
                if spec_all_digits(full) {
                    assert(full.subrange(0, (i + 1 - from) as int) =~= part);
                    lemma_digits_val_prefix(full, (i + 1 - from) as int);
                }
            }
            return None;
        }
        proof {
            assert(value * 10 + d <= usize::MAX) by (nonlinear_arith)
                requires
                    !(value > usize::MAX / 10 || (value == usize::MAX / 10 && d > usize::MAX % 10)),
                    0 <= value,
                    0 <= d <= 9,
            ;
            let part = s@.subrange(from as int, (i + 1) as int);
            assert(part.drop_last() =~= s@.subrange(from as int, i as int));
            assert(part.last() == s@[i as int]);
        }
        value = value * 10 + d;
        i = i + 1;
    }
    proof {
        assert(s@.subrange(from as int, i as int) =~= s@.subrange(from as int, to as int));
    }
    Some(value)
}

} // verus!

use vstd::prelude::*;

verus! {

/// A survival probability held exactly as `numerator / denominator`.
#[derive(Clone, Copy, Debug, PartialEq, Eq, Structural)]
pub struct Survival {
    pub numerator: u32,
    pub denominator: u32,
}

/// Why a survival probability was refused.
#[derive(Clone, Copy, Debug, PartialEq, Eq, Structural)]
pub enum BadParameter {
    /// The text is not a decimal number such as `0`, `0.25` or `1.5`.
    Malformed,
    /// The number is not below one: survival may not be certain.
    OutOfRange,
    /// The number has more than nine digits after the point.
    TooPrecise,
    /// The population is empty.
    EmptyPopulation,
    /// The genome has length zero.
    EmptyGenome,
    /// Simplification would never happen.
    ZeroInterval,
}

/// The most digits after the point that a probability may have.
pub const MAX_FRACTION_DIGITS: usize = 9;

pub open spec fn is_digit(c: u8) -> bool {
    48 <= c <= 57
}

pub open spec fn all_digits(s: Seq<u8>) -> bool {
    forall|i: int| 0 <= i < s.len() ==> is_digit(#[trigger] s[i])
}

pub open spec fn all_zeros(s: Seq<u8>) -> bool {
    forall|i: int| 0 <= i < s.len() ==> #[trigger] s[i] == 48
}

/// How many digits `s` starts with.
pub open spec fn digit_run(s: Seq<u8>) -> nat
    decreases s.len(),
{
    if s.len() == 0 || !is_digit(s[0]) {
        0
    } else {
        1 + digit_run(s.drop_first())
    }
}

/// The number the digits `s` stand for.
pub open spec fn digits_value(s: Seq<u8>) -> nat
    decreases s.len(),
{
    if s.len() == 0 {
        0
    } else {
        digits_value(s.drop_last()) * 10 + (s.last() - 48) as nat
    }
}

pub open spec fn pow10(n: nat) -> nat
    decreases n,
{
    if n == 0 {
        1
    } else {
        10 * pow10((n - 1) as nat)
    }
}

/// The digits of `s` after its point (none when it has no point).
pub open spec fn fraction(s: Seq<u8>) -> Seq<u8> {
    if digit_run(s) < s.len() {
        s.skip(digit_run(s) + 1int)
    } else {
        seq![]
    }
}

/// `s` is a decimal number: digits, then optionally a point and digits.
pub open spec fn decimal_text(s: Seq<u8>) -> bool {
    let d = digit_run(s);
    &&& d > 0
    &&& d == s.len() || (s[d as int] == 46 && d + 1 < s.len() && all_digits(fraction(s)))
}

/// `s` is a minus sign followed by a decimal number.
pub open spec fn negative_text(s: Seq<u8>) -> bool {
    s.len() > 1 && s[0] == 45 && decimal_text(s.drop_first())
}

/// The decimal number `s` is below one: its digits before the point are zeros.
pub open spec fn below_one(s: Seq<u8>) -> bool {
    all_zeros(s.take(digit_run(s) as int))
}

proof fn lemma_digit_run(s: Seq<u8>, i: int)
    requires
        0 <= i <= s.len(),
        forall|k: int| 0 <= k < i ==> is_digit(#[trigger] s[k]),
        i == s.len() || !is_digit(s[i]),
    ensures
        digit_run(s) == i,
    decreases i,
{
    if i > 0 {
        let t = s.drop_first();
        assert forall|k: int| 0 <= k < i - 1 implies is_digit(#[trigger] t[k]) by {
            assert(t[k] == s[k + 1]);
        }
        if i < s.len() {
            assert(t[i - 1] == s[i]);
        }
        lemma_digit_run(t, i - 1);
    }
}

proof fn lemma_value_below(s: Seq<u8>)
    requires
        all_digits(s),
    ensures
        digits_value(s) < pow10(s.len()),
    decreases s.len(),
{
    if s.len() > 0 {
        let t = s.drop_last();
        assert forall|i: int| 0 <= i < t.len() implies is_digit(#[trigger] t[i]) by {
            assert(t[i] == s[i]);
        }
        lemma_value_below(t);
        assert(is_digit(s[s.len() - 1]));
    }
}

proof fn lemma_pow10_grows(a: nat, b: nat)
    requires
        a <= b,
    ensures
        pow10(a) <= pow10(b),
    decreases b,
{
    if a < b {
        lemma_pow10_grows(a, (b - 1) as nat);
    }
}

impl Survival {
    /// A probability in `[0, 1)`: survival is never certain.
    pub open spec fn wf(&self) -> bool {
        0 < self.denominator && self.numerator < self.denominator
    }

    /// Read a survival probability from decimal text. The value must lie in
    /// `[0, 1)`; a negative number is out of range. The result holds the value
    /// exactly, as the digits after the point over the matching power of ten.
    pub fn parse(text: &[u8]) -> (r: Result<Survival, BadParameter>)
        ensures
            r == Err::<Survival, BadParameter>(BadParameter::Malformed) <==> !decimal_text(text@)
                && !negative_text(text@),
            r == Err::<Survival, BadParameter>(BadParameter::OutOfRange) <==> (decimal_text(text@)
                && !below_one(text@)) || negative_text(text@),
            r == Err::<Survival, BadParameter>(BadParameter::TooPrecise) <==> decimal_text(text@)
                && below_one(text@) && fraction(text@).len() > MAX_FRACTION_DIGITS,
            r matches Ok(p) ==> {
                &&& decimal_text(text@)
                &&& below_one(text@)
                &&& p.wf()
                &&& p.numerator == digits_value(fraction(text@))
                &&& p.denominator == pow10(fraction(text@).len())
            },
    {
        if text.len() > 1 && text[0] == 45 {
            let mut rest: Vec<u8> = Vec::new();
            let mut i: usize = 1;
            while i < text.len()
                invariant
                    1 <= i <= text@.len(),
                    rest@ == text@.subrange(1, i as int),
                decreases text@.len() - i,
            {
                rest.push(text[i]);
                i = i + 1;
            }
            assert(rest@ == text@.drop_first());
            assert(digit_run(text@) == 0);
            let unsigned = Self::parse_unsigned(rest.as_slice());
            match unsigned {
                Err(BadParameter::Malformed) => Err(BadParameter::Malformed),
                _ => Err(BadParameter::OutOfRange),
            }
        } else {
            Self::parse_unsigned(text)
        }
    }

    /// Read a decimal number without sign as a survival probability.
    fn parse_unsigned(text: &[u8]) -> (r: Result<Survival, BadParameter>)
        ensures
            r == Err::<Survival, BadParameter>(BadParameter::Malformed) <==> !decimal_text(text@),
            r == Err::<Survival, BadParameter>(BadParameter::OutOfRange) <==> decimal_text(text@)
                && !below_one(text@),
            r == Err::<Survival, BadParameter>(BadParameter::TooPrecise) <==> decimal_text(text@)
                && below_one(text@) && fraction(text@).len() > MAX_FRACTION_DIGITS,
            r matches Ok(p) ==> {
                &&& decimal_text(text@)
                &&& below_one(text@)
                &&& p.wf()
                &&& p.numerator == digits_value(fraction(text@))
                &&& p.denominator == pow10(fraction(text@).len())
            },
    {
        let n = text.len();
        let mut d: usize = 0;
        while d < n && 48 <= text[d] && text[d] <= 57
            invariant
                d <= n,
                n == text@.len(),
                forall|k: int| 0 <= k < d ==> is_digit(#[trigger] text@[k]),
            decreases n - d,
        {
            d = d + 1;
        }
        proof {
            lemma_digit_run(text@, d as int);
        }
        if d == 0 {
            return Err(BadParameter::Malformed);
        }
        if d < n && (text[d] != 46 || d + 1 == n) {
            return Err(BadParameter::Malformed);
        }
        if d < n {
            let mut j: usize = d + 1;
            while j < n
                invariant
                    d < j <= n,
                    n == text@.len(),
                    d == digit_run(text@),
                    forall|k: int| d < k < j ==> is_digit(#[trigger] text@[k]),
                decreases n - j,
            {
                if text[j] < 48 || text[j] > 57 {
                    proof {
                        assert(!is_digit(fraction(text@)[j - d - 1]));
                    }
                    return Err(BadParameter::Malformed);
                }
                j = j + 1;
            }
        }
        assert(decimal_text(text@)) by {
            if d < n {
                assert forall|i: int| 0 <= i < fraction(text@).len() implies is_digit(
                    #[trigger] fraction(text@)[i],
                ) by {
                    assert(fraction(text@)[i] == text@[d + 1 + i]);
                }
            }
        }
        let mut i: usize = 0;
        while i < d
            invariant
                i <= d,
                d <= n,
                n == text@.len(),
                d == digit_run(text@),
                decimal_text(text@),
                forall|k: int| 0 <= k < i ==> #[trigger] text@[k] == 48,
            decreases d - i,
        {
            if text[i] != 48 {
                proof {
                    assert(text@.take(d as int)[i as int] != 48);
                }
                return Err(BadParameter::OutOfRange);
            }
            i = i + 1;
        }
        assert(below_one(text@)) by {
            assert forall|k: int| 0 <= k < d implies #[trigger] text@.take(d as int)[k] == 48 by {
                assert(text@.take(d as int)[k] == text@[k]);
            }
        }
        if d == n {
            return Ok(Survival { numerator: 0, denominator: 1 });
        }
        if n - d - 1 > MAX_FRACTION_DIGITS {
            return Err(BadParameter::TooPrecise);
        }
        let ghost frac = fraction(text@);
        let mut value: u64 = 0;
        let mut scale: u64 = 1;
        let mut k: usize = d + 1;
        while k < n
            invariant
                d + 1 <= k <= n,
                n == text@.len(),
                d == digit_run(text@),
                frac == text@.skip(d + 1),
                n - d - 1 <= 9,
                all_digits(frac),
                value == digits_value(frac.take(k - d - 1)),
                scale == pow10((k - d - 1) as nat),
            decreases n - k,
        {
            let ghost t = frac.take(k - d - 1);
            let ghost t1 = frac.take(k - d);
            proof {
                assert(t1.drop_last() == t);
                assert(t1.last() == text@[k as int]);
                assert forall|i: int| 0 <= i < t.len() implies is_digit(#[trigger] t[i]) by {
                    assert(t[i] == frac[i]);
                }
                lemma_value_below(t);
                lemma_pow10_grows(t.len(), 8);
                reveal_with_fuel(pow10, 10);
                assert(pow10(8) == 100000000);
                assert(is_digit(frac[k - d - 1]));
            }
            value = value * 10 + (text[k] - 48) as u64;
            scale = scale * 10;
            k = k + 1;
        }
        proof {
            assert(frac.take(n - d - 1) == frac);
            lemma_value_below(frac);
            lemma_pow10_grows(frac.len(), 9);
            reveal_with_fuel(pow10, 11);
            assert(pow10(9) == 1000000000);
        }
        Ok(Survival { numerator: value as u32, denominator: scale as u32 })
    }
}

} // verus!

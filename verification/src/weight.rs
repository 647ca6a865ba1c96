//! The capability interface for node and edge payloads, and its built-in
//! variants.

use crate::error::GraphError;
use crate::num::{all_digits, digits_val, find_byte_from, find_from, is_digit, lemma_digits_val_take_mono, lemma_digits_val_take_succ, pow10};
use vstd::prelude::*;

verus! {

/// A value type usable as a node or edge payload. It must supply a
/// context-free default (used when a node or edge is created without an
/// explicit weight), a deterministic textual parse, and copy semantics.
pub trait WeightType: Sized + Copy {
    /// The default value.
    spec fn default_spec() -> Self;

    /// What a weight token denotes, or `None` where the token is not part of
    /// this type's textual grammar.
    spec fn parse_spec(s: Seq<u8>) -> Option<Self>;

    /// Produces the default value.
    fn default_weight() -> (r: Self)
        ensures
            r == Self::default_spec(),
    ;

    /// Reads a weight token.
    fn parse_weight(s: &[u8]) -> (r: Result<Self, GraphError>)
        ensures
            match r {
                Ok(w) => Self::parse_spec(s@) == Some(w),
                Err(e) => Self::parse_spec(s@) is None && e == GraphError::WeightParseError,
            },
    ;
}

/// The payload of an unweighted graph: carries no information, and parses
/// only the empty token.
#[derive(Clone, Copy, Debug, PartialEq, Eq, Structural)]
pub struct Unweighted;

impl WeightType for Unweighted {
    open spec fn default_spec() -> Self {
        Unweighted
    }

    open spec fn parse_spec(s: Seq<u8>) -> Option<Self> {
        if s.len() == 0 {
            Some(Unweighted)
        } else {
            None
        }
    }

    fn default_weight() -> Self {
        Unweighted
    }

    fn parse_weight(s: &[u8]) -> Result<Self, GraphError> {
        if s.len() == 0 {
            Ok(Unweighted)
        } else {
            Err(GraphError::WeightParseError)
        }
    }
}

/// The scale that brings a 1-, 2- or 3-digit fraction to thousandths.
pub open spec fn frac_scale(l: int) -> nat {
    if l == 1 {
        100
    } else if l == 2 {
        10
    } else {
        1
    }
}

/// What a decimal weight token denotes, in thousandths: one or more integer
/// digits, optionally a point and one to three fraction digits; values that
/// do not fit are rejected.
pub open spec fn decimal_parse(s: Seq<u8>) -> Option<u64> {
    let dot = find_from(s, 0, 46);
    let ipart = s.take(dot);
    if dot >= s.len() {
        if ipart.len() >= 1 && all_digits(ipart) && digits_val(ipart) * 1000 <= u64::MAX {
            Option::Some((digits_val(ipart) * 1000) as u64)
        } else {
            Option::None
        }
    } else {
        let frac = s.skip(dot + 1);
        if ipart.len() >= 1 && all_digits(ipart) && 1 <= frac.len() <= 3 && all_digits(frac)
            && digits_val(ipart) * 1000 + digits_val(frac) * frac_scale(frac.len() as int)
            <= u64::MAX {
            Option::Some(
                (digits_val(ipart) * 1000 + digits_val(frac) * frac_scale(
                    frac.len() as int,
                )) as u64,
            )
        } else {
            Option::None
        }
    }
}

/// A numeric payload held in thousandths, so that decimal weight tokens such
/// as `2.5` carry an exact value.
#[derive(Clone, Copy, Debug, PartialEq, Eq, Structural)]
pub struct DecimalWeight {
    pub millis: u64,
}

impl DecimalWeight {
    /// The weight worth `millis` thousandths.
    pub fn from_millis(millis: u64) -> (r: Self)
        ensures
            r.millis == millis,
    {
        DecimalWeight { millis }
    }
}

impl WeightType for DecimalWeight {
    open spec fn default_spec() -> Self {
        DecimalWeight { millis: 0 }
    }

    open spec fn parse_spec(s: Seq<u8>) -> Option<Self> {
        match decimal_parse(s) {
            Option::None => Option::None,
            Option::Some(v) => Option::Some(DecimalWeight { millis: v }),
        }
    }

    fn default_weight() -> Self {
        DecimalWeight { millis: 0 }
    }

    fn parse_weight(s: &[u8]) -> (r: Result<Self, GraphError>) {
        let dot = find_byte_from(s, 0, 46);
        let ipart = &s[0..dot];
        proof {
            assert(ipart@ =~= s@.take(dot as int));
        }
        if ipart.len() == 0 {
            return Err(GraphError::WeightParseError);
        }
        let mut val: u128 = 0;
        let mut i: usize = 0;
        while i < ipart.len()
            invariant
                0 <= i <= ipart@.len(),
                dot as int == find_from(s@, 0, 46),
                dot <= s@.len(),
                ipart@ == s@.take(dot as int),
                all_digits(ipart@.take(i as int)),
                val == digits_val(ipart@.take(i as int)),
                val * 1000 <= u64::MAX as u128,
            decreases ipart@.len() - i,
        {
            let b = ipart[i];
            if b < 48 || b > 57 {
                assert(!is_digit(ipart@[i as int]));
                return Err(GraphError::WeightParseError);
            }
            proof {
                lemma_digits_val_take_succ(ipart@, i as int);
            }
            val = val * 10 + ((b - 48) as u128);
            i = i + 1;
            if val * 1000 > u64::MAX as u128 {
                proof {
                    if all_digits(ipart@) {
                        lemma_digits_val_take_mono(ipart@, i as int, ipart@.len() as int);
                        assert(ipart@.take(ipart@.len() as int) =~= ipart@);
                    }
                }
                return Err(GraphError::WeightParseError);
            }
        }
        assert(ipart@.take(ipart@.len() as int) =~= ipart@);
        if dot >= s.len() {
            return Ok(DecimalWeight { millis: (val * 1000) as u64 });
        }
        let flen = s.len() - dot - 1;
        if flen < 1 || flen > 3 {
            return Err(GraphError::WeightParseError);
        }
        let frac = &s[dot + 1..s.len()];
        proof {
            assert(frac@ =~= s@.skip(dot as int + 1));
            assert(pow10(0) == 1);
            assert(pow10(1) == 10);
            assert(pow10(2) == 100);
            assert(pow10(3) == 1000);
        }
        let mut fv: u64 = 0;
        let mut j: usize = 0;
        while j < frac.len()
            invariant
                0 <= j <= frac@.len() <= 3,
                dot as int == find_from(s@, 0, 46),
                dot < s@.len(),
                frac@ == s@.skip(dot as int + 1),
                all_digits(frac@.take(j as int)),
                fv == digits_val(frac@.take(j as int)),
                fv < pow10(j as nat),
                pow10(0) == 1 && pow10(1) == 10 && pow10(2) == 100 && pow10(3) == 1000,
            decreases frac@.len() - j,
        {
            let b = frac[j];
            if b < 48 || b > 57 {
                assert(!is_digit(frac@[j as int]));
                return Err(GraphError::WeightParseError);
            }
            proof {
                lemma_digits_val_take_succ(frac@, j as int);
            }
            fv = fv * 10 + ((b - 48) as u64);
            j = j + 1;
        }
        assert(frac@.take(frac@.len() as int) =~= frac@);
        let fscaled: u64 = if flen == 1 {
            fv * 100
        } else if flen == 2 {
            fv * 10
        } else {
            fv
        };
        proof {
            assert(fscaled == digits_val(frac@) * frac_scale(frac@.len() as int));
        }
        let total: u128 = val * 1000 + fscaled as u128;
        if total > u64::MAX as u128 {
            return Err(GraphError::WeightParseError);
        }
        Ok(DecimalWeight { millis: total as u64 })
    }
}

} // verus!

//! The closed set of schema types, the recognized type names, and the
//! coercion of raw default-value tokens into typed literal values.
use vstd::prelude::*;

use crate::error::{ErrorV, ParseError};
use crate::item::{Value, ValueV, value_wf};
use crate::text::{bytes_of_str, is_digit_byte, digit_byte, lit_vec, bytes_eq};

verus! {

/// A schema node's type. The root document uses `Object`; individual
/// options use the scalar types or `Array`.
#[derive(Clone, Copy, Debug, PartialEq, Eq, Structural)]
pub enum Type {
    Integer,
    Boolean,
    String,
    Object,
    Array,
}

/// The scalar type named by a type-hint token, if the name is recognized:
/// `integer` and `unsigned integer` both name `Integer`.
pub open spec fn type_of_name(s: Seq<u8>) -> Option<Type> {
    if s == bytes_of_str("integer"@) || s == bytes_of_str("unsigned integer"@) {
        Some(Type::Integer)
    } else if s == bytes_of_str("boolean"@) {
        Some(Type::Boolean)
    } else if s == bytes_of_str("string"@) {
        Some(Type::String)
    } else {
        None
    }
}

/// The numeric value of an ASCII digit byte.
pub open spec fn digit_val(b: u8) -> int {
    b - 48
}

/// True when every byte of `s` is an ASCII digit.
pub open spec fn all_digits(s: Seq<u8>) -> bool {
    forall|i: int| 0 <= i < s.len() ==> is_digit_byte(#[trigger] s[i])
}

/// The magnitude of a digit string read in base 10.
pub open spec fn mag_of(s: Seq<u8>) -> int
    decreases s.len(),
{
    if s.len() == 0 {
        0
    } else {
        mag_of(s.drop_last()) * 10 + digit_val(s.last())
    }
}

/// The mathematical integer denoted by `s` under the base-10 signed
/// integer grammar (an optional sign, then one or more digits), if any.
pub open spec fn int_literal(s: Seq<u8>) -> Option<int> {
    if s.len() == 0 {
        None
    } else {
        let digs = if s[0] == 43 || s[0] == 45 {
            s.skip(1)
        } else {
            s
        };
        let sign: int = if s[0] == 45 {
            -1
        } else {
            1
        };
        if digs.len() >= 1 && all_digits(digs) {
            Some(sign * mag_of(digs))
        } else {
            None
        }
    }
}

/// `int_literal`, narrowed to the values representable as `i64`: a value
/// outside that range is a parse failure, never a silent truncation.
pub open spec fn i64_of_literal(s: Seq<u8>) -> Option<int> {
    match int_literal(s) {
        Some(v) => if i64::MIN <= v <= i64::MAX {
            Some(v)
        } else {
            None
        },
        None => None,
    }
}

pub proof fn lemma_mag_nonneg(s: Seq<u8>)
    requires
        all_digits(s),
    ensures
        mag_of(s) >= 0,
    decreases s.len(),
{
    if s.len() > 0 {
        assert(all_digits(s.drop_last())) by {
            assert(forall|i: int|
                0 <= i < s.len() - 1 ==> s.drop_last()[i] == #[trigger] s[i]);
        }
        lemma_mag_nonneg(s.drop_last());
    }
}

/// Reading more digits never shrinks the magnitude.
pub proof fn lemma_mag_prefix(s: Seq<u8>, j: int)
    requires
        all_digits(s),
        0 <= j <= s.len(),
    ensures
        mag_of(s.take(j)) <= mag_of(s),
    decreases s.len() - j,
{
    if j < s.len() {
        assert(all_digits(s.take(j + 1))) by {
            assert(forall|i: int| 0 <= i < j + 1 ==> s.take(j + 1)[i] == #[trigger] s[i]);
        }
        assert(s.take(j + 1).drop_last() =~= s.take(j));
        lemma_mag_nonneg(s.take(j));
        assert(mag_of(s.take(j)) <= mag_of(s.take(j + 1)));
        lemma_mag_prefix(s, j + 1);
    } else {
        assert(s.take(j) =~= s);
    }
}

/// Parses a base-10 signed 64-bit integer; `None` on any malformed or
/// out-of-range token.
#[verifier::loop_isolation(false)]
pub fn parse_i64(s: &[u8]) -> (r: Option<i64>)
    ensures
        match r {
            Some(v) => i64_of_literal(s@) == Some(v as int),
            None => i64_of_literal(s@) == None::<int>,
        },
{
    if s.len() == 0 {
        return None;
    }
    let neg = s[0] == 45;
    let start: usize = if s[0] == 43 || s[0] == 45 {
        1
    } else {
        0
    };
    if s.len() == start {
        return None;
    }
    let ghost digs = if s@[0] == 43 || s@[0] == 45 {
        s@.skip(1)
    } else {
        s@
    };
    proof {
        assert(digs =~= s@.subrange(start as int, s@.len() as int));
    }
    let mut mag: u64 = 0;
    let mut i: usize = start;
    while i < s.len()
        invariant
            start <= i <= s@.len(),
            start <= 1 < s@.len() || start == 0 < s@.len(),
            digs == s@.subrange(start as int, s@.len() as int),
            all_digits(s@.subrange(start as int, i as int)),
            mag == mag_of(s@.subrange(start as int, i as int)),
        decreases s@.len() - i,
    {
        let ghost pre = s@.subrange(start as int, i as int);
        let b = s[i];
        if !digit_byte(b) {
            proof {
                assert(digs[i - start] == s@[i as int]);
            }
            return None;
        }
        proof {
            assert(s@.subrange(start as int, i + 1 as int).drop_last() =~= pre);
            assert(s@.subrange(start as int, i + 1 as int).last() == s@[i as int]);
            assert(all_digits(s@.subrange(start as int, i + 1 as int))) by {
                assert(forall|k: int|
                    0 <= k < i + 1 - start ==> s@.subrange(start as int, i + 1 as int)[k]
                        == #[trigger] s@.subrange(start as int, s@.len() as int)[k] || k == i
                        - start);
            }
        }
        if mag > 1844674407370955160u64 {
            // one more digit pushes the magnitude past the signed 64-bit range
            proof {
                if all_digits(digs) {
                    lemma_mag_prefix(digs, i + 1 - start);
                    assert(digs.take(i + 1 - start) =~= s@.subrange(start as int, i + 1 as int));
                    lemma_mag_nonneg(s@.subrange(start as int, i + 1 as int));
                    assert(mag_of(digs) >= mag_of(s@.subrange(start as int, i + 1 as int)));
                    assert(mag_of(s@.subrange(start as int, i + 1 as int)) == mag * 10 + digit_val(
                        s@[i as int],
                    ));
                    assert(mag_of(digs) > i64::MAX);
                    assert(forall|a: int| #![trigger -1 * a] -1 * a == -a && 1 * a == a)
                        by (nonlinear_arith);
                    assert(forall|a: int| #![trigger 1 * a] 1 * a == a) by (nonlinear_arith);
                    assert(int_literal(s@) == Some(
                        (if s@[0] == 45 {
                            -1
                        } else {
                            1int
                        }) * mag_of(digs),
                    ));
                    assert(i64_of_literal(s@) == None::<int>);
                }
            }
            return None;
        }
        mag = mag * 10 + ((b - 48) as u64);
        i = i + 1;
    }
    proof {
        assert(s@.subrange(start as int, i as int) =~= digs);
        assert(all_digits(digs));
        assert(mag == mag_of(digs));
        lemma_mag_nonneg(digs);
        assert(int_literal(s@) == Some((if s@[0] == 45 { -1 } else { 1int }) * mag_of(digs)));
        assert(forall|a: int| #![trigger -1 * a] -1 * a == -a && 1 * a == a) by (nonlinear_arith);
        assert(forall|a: int| #![trigger 1 * a] 1 * a == a) by (nonlinear_arith);
    }
    if neg {
        if mag > 9223372036854775808u64 {
            proof {
                assert(int_literal(s@) == Some(-1 * mag_of(digs)));
                assert(-1 * mag_of(digs) == -(mag as int)) by (nonlinear_arith)
                    requires
                        mag == mag_of(digs),
                ;
                assert(-(mag as int) < i64::MIN);
                assert(i64_of_literal(s@) == None::<int>);
            }
            return None;
        }
        if mag == 9223372036854775808u64 {
            Some(i64::MIN)
        } else {
            Some(-(mag as i64))
        }
    } else {
        if mag > 9223372036854775807u64 {
            return None;
        }
        Some(mag as i64)
    }
}

/// How a raw default-value token is coerced under each type: a base-10
/// signed integer, the literals `true`/`false`, a verbatim string, or the
/// empty array literal `[]`; `Object` has no literal syntax at all.
pub open spec fn coerce_spec(t: Type, s: Seq<u8>) -> Result<ValueV, ErrorV> {
    match t {
        Type::Integer => match i64_of_literal(s) {
            Some(v) => Ok(ValueV::Int(v)),
            None => Err(ErrorV::InvalidInteger { token: s }),
        },
        Type::Boolean => if s == bytes_of_str("true"@) {
            Ok(ValueV::Bool(true))
        } else if s == bytes_of_str("false"@) {
            Ok(ValueV::Bool(false))
        } else {
            Err(ErrorV::UnknownBoolean { token: s })
        },
        Type::String => Ok(ValueV::Str(s)),
        Type::Array => if s == bytes_of_str("[]"@) {
            Ok(ValueV::Arr)
        } else {
            Err(ErrorV::ArrayLiteral { token: s })
        },
        Type::Object => Err(ErrorV::UnsupportedType { typ: Type::Object }),
    }
}

impl Type {
    /// The scalar type named by `s`, or an `UnknownType` error.
    pub fn from_name(s: &[u8]) -> (r: Result<Type, ParseError>)
        ensures
            match r {
                Ok(t) => type_of_name(s@) == Some(t),
                Err(e) => type_of_name(s@) == None::<Type> && e@ == (ErrorV::UnknownType {
                    token: s@,
                }),
            },
    {
        proof {
            reveal_strlit("integer");
            reveal_strlit("unsigned integer");
            reveal_strlit("boolean");
            reveal_strlit("string");
        }
        let integer = lit_vec_checked("integer");
        let unsigned = lit_vec_checked("unsigned integer");
        let boolean = lit_vec_checked("boolean");
        let string = lit_vec_checked("string");
        if bytes_eq(s, integer.as_slice()) || bytes_eq(s, unsigned.as_slice()) {
            Ok(Type::Integer)
        } else if bytes_eq(s, boolean.as_slice()) {
            Ok(Type::Boolean)
        } else if bytes_eq(s, string.as_slice()) {
            Ok(Type::String)
        } else {
            Err(ParseError::UnknownType { token: vstd::slice::slice_to_vec(s) })
        }
    }

    /// Coerces a raw token into a literal value of this type, exactly as
    /// `coerce_spec` states.
    pub fn parse(&self, s: &[u8]) -> (r: Result<Value, ParseError>)
        ensures
            match r {
                Ok(v) => coerce_spec(*self, s@) == Ok::<ValueV, ErrorV>(v@) && value_wf(v),
                Err(e) => coerce_spec(*self, s@) == Err::<ValueV, ErrorV>(e@),
            },
    {
        match self {
            Type::Integer => match parse_i64(s) {
                Some(v) => Ok(Value::Integer(v)),
                None => Err(ParseError::InvalidInteger { token: vstd::slice::slice_to_vec(s) }),
            },
            Type::Boolean => {
                proof {
                    reveal_strlit("true");
                    reveal_strlit("false");
                }
                let tru = lit_vec_checked("true");
                let fal = lit_vec_checked("false");
                if bytes_eq(s, tru.as_slice()) {
                    Ok(Value::Boolean(true))
                } else if bytes_eq(s, fal.as_slice()) {
                    Ok(Value::Boolean(false))
                } else {
                    Err(ParseError::UnknownBoolean { token: vstd::slice::slice_to_vec(s) })
                }
            },
            Type::String => Ok(Value::String(vstd::slice::slice_to_vec(s))),
            Type::Array => {
                proof {
                    reveal_strlit("[]");
                }
                let empty_arr = lit_vec_checked("[]");
                if bytes_eq(s, empty_arr.as_slice()) {
                    Ok(Value::Array(Vec::new()))
                } else {
                    Err(ParseError::ArrayLiteral { token: vstd::slice::slice_to_vec(s) })
                }
            },
            Type::Object => Err(ParseError::UnsupportedType { typ: Type::Object }),
        }
    }
}

/// `lit_vec` for the short ASCII literals this module compares against.
fn lit_vec_checked(s: &str) -> (v: Vec<u8>)
    requires
        s.is_ascii(),
    ensures
        v@ == bytes_of_str(s@),
{
    lit_vec(s)
}

} // verus!

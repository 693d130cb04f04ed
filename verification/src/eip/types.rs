//! The CIP ⇄ JSON value codec.
//!
//! * Read ([`decode_value`]): a wire-type check, then the value as JSON. Integers without a
//!   transform keep every digit; a number that is not finite has no JSON form and comes back as a
//!   null that is marked.
//! * Write ([`encode_write`]): the value coerced to the elementary type. A value outside the type's
//!   range is a typed error, never a clamp, and an integer literal without a transform reaches the
//!   device digit for digit.
//!
//! The scale/offset arithmetic is floating point and is done by the caller, who hands in its result
//! as bit patterns; every decision about those results is taken here.

use vstd::prelude::*;

use crate::config::EipType;
use crate::ieee::{F32, F64, ONE_BITS};
use crate::json::{Json, Number};
use crate::text::{decimal_int, decimal_i128, decimal_nat, decimal_u64, join2, join3, owned};

verus! {

/// The elementary CIP types, as a device declares them.
#[derive(Clone, Copy, Debug, PartialEq, Eq, Structural)]
pub enum CipType {
    Bool,
    Sint,
    Usint,
    Int,
    Uint,
    Dint,
    Udint,
    Lint,
    Ulint,
    Real,
    Lreal,
    /// A type this codec does not map, by its type code.
    Other(u16),
}

/// A CIP value.
#[derive(Debug)]
pub enum CipValue {
    Bool(bool),
    Sint(i8),
    Usint(u8),
    Int(i16),
    Uint(u16),
    Dint(i32),
    Udint(u32),
    Lint(i64),
    Ulint(u64),
    Real(F32),
    Lreal(F64),
    /// A value of a type this codec does not map, by its type code.
    Other(u16),
    Array(CipType, Vec<CipValue>),
}

/// The CIP type of a configured type.
pub open spec fn cip_type_of(ty: EipType) -> CipType {
    match ty {
        EipType::Bool => CipType::Bool,
        EipType::Sint => CipType::Sint,
        EipType::Usint => CipType::Usint,
        EipType::Int => CipType::Int,
        EipType::Uint => CipType::Uint,
        EipType::Dint => CipType::Dint,
        EipType::Udint => CipType::Udint,
        EipType::Lint => CipType::Lint,
        EipType::Ulint => CipType::Ulint,
        EipType::Real => CipType::Real,
        EipType::Lreal => CipType::Lreal,
    }
}

/// The CIP type of a configured type.
pub fn cip_type(ty: EipType) -> (r: CipType)
    ensures
        r == cip_type_of(ty),
{
    match ty {
        EipType::Bool => CipType::Bool,
        EipType::Sint => CipType::Sint,
        EipType::Usint => CipType::Usint,
        EipType::Int => CipType::Int,
        EipType::Uint => CipType::Uint,
        EipType::Dint => CipType::Dint,
        EipType::Udint => CipType::Udint,
        EipType::Lint => CipType::Lint,
        EipType::Ulint => CipType::Ulint,
        EipType::Real => CipType::Real,
        EipType::Lreal => CipType::Lreal,
    }
}

impl CipValue {
    /// The type a value declares; an array declares its element type.
    pub open spec fn declared(self) -> CipType {
        match self {
            CipValue::Bool(_) => CipType::Bool,
            CipValue::Sint(_) => CipType::Sint,
            CipValue::Usint(_) => CipType::Usint,
            CipValue::Int(_) => CipType::Int,
            CipValue::Uint(_) => CipType::Uint,
            CipValue::Dint(_) => CipType::Dint,
            CipValue::Udint(_) => CipType::Udint,
            CipValue::Lint(_) => CipType::Lint,
            CipValue::Ulint(_) => CipType::Ulint,
            CipValue::Real(_) => CipType::Real,
            CipValue::Lreal(_) => CipType::Lreal,
            CipValue::Other(code) => CipType::Other(code),
            CipValue::Array(t, _) => t,
        }
    }

    /// The integer an integer value carries.
    pub open spec fn integer(self) -> Option<int> {
        match self {
            CipValue::Sint(v) => Some(v as int),
            CipValue::Usint(v) => Some(v as int),
            CipValue::Int(v) => Some(v as int),
            CipValue::Uint(v) => Some(v as int),
            CipValue::Dint(v) => Some(v as int),
            CipValue::Udint(v) => Some(v as int),
            CipValue::Lint(v) => Some(v as int),
            CipValue::Ulint(v) => Some(v as int),
            _ => None,
        }
    }

    /// An integer or a floating-point number.
    pub open spec fn numeric(self) -> bool {
        self.integer() is Some || self is Real || self is Lreal
    }

    /// The type a value declares; an array declares its element type.
    pub fn wire_type(&self) -> (r: CipType)
        ensures
            r == self.declared(),
    {
        match self {
            CipValue::Bool(_) => CipType::Bool,
            CipValue::Sint(_) => CipType::Sint,
            CipValue::Usint(_) => CipType::Usint,
            CipValue::Int(_) => CipType::Int,
            CipValue::Uint(_) => CipType::Uint,
            CipValue::Dint(_) => CipType::Dint,
            CipValue::Udint(_) => CipType::Udint,
            CipValue::Lint(_) => CipType::Lint,
            CipValue::Ulint(_) => CipType::Ulint,
            CipValue::Real(_) => CipType::Real,
            CipValue::Lreal(_) => CipType::Lreal,
            CipValue::Other(code) => CipType::Other(*code),
            CipValue::Array(t, _) => *t,
        }
    }
}

/// A value decoded for reading.
#[derive(Debug)]
pub struct Decoded {
    /// The published value.
    pub value: Json,
    /// The number was not finite, so the reading is uncertain and its value null.
    pub non_finite: bool,
}

/// Why a value could not be decoded.
#[derive(Clone, Copy, Debug, PartialEq, Eq, Structural)]
pub enum DecodeError {
    /// The declared wire type is not the configured type.
    TypeMismatch { expected: EipType, got: CipType },
}

impl CipType {
    /// The type's name.
    pub open spec fn label(self) -> Seq<char> {
        match self {
            CipType::Bool => "Bool"@,
            CipType::Sint => "Sint"@,
            CipType::Usint => "Usint"@,
            CipType::Int => "Int"@,
            CipType::Uint => "Uint"@,
            CipType::Dint => "Dint"@,
            CipType::Udint => "Udint"@,
            CipType::Lint => "Lint"@,
            CipType::Ulint => "Ulint"@,
            CipType::Real => "Real"@,
            CipType::Lreal => "Lreal"@,
            CipType::Other(code) => "Other("@ + decimal_nat(code as nat) + ")"@,
        }
    }

    /// The type's name.
    pub fn name(self) -> (r: String)
        ensures
            r@ == self.label(),
    {
        match self {
            CipType::Bool => owned("Bool"),
            CipType::Sint => owned("Sint"),
            CipType::Usint => owned("Usint"),
            CipType::Int => owned("Int"),
            CipType::Uint => owned("Uint"),
            CipType::Dint => owned("Dint"),
            CipType::Udint => owned("Udint"),
            CipType::Lint => owned("Lint"),
            CipType::Ulint => owned("Ulint"),
            CipType::Real => owned("Real"),
            CipType::Lreal => owned("Lreal"),
            CipType::Other(code) => {
                let digits = decimal_u64(code as u64);
                join3("Other(", digits.as_str(), ")")
            },
        }
    }
}

impl DecodeError {
    /// The native-quality text of a bad sample from this failure.
    pub open spec fn text(self) -> Seq<char> {
        match self {
            DecodeError::TypeMismatch { expected, got } => "DECODE type mismatch (expected "@
                + expected.spelling() + ", got "@ + got.label() + ")"@,
        }
    }

    /// The native-quality text of a bad sample from this failure.
    pub fn quality_raw(&self) -> (r: String)
        ensures
            r@ == self.text(),
    {
        match self {
            DecodeError::TypeMismatch { expected, got } => {
                let mut r = join3("DECODE type mismatch (expected ", expected.wire(), ", got ");
                let name = got.name();
                r.append(name.as_str());
                r.append(")");
                r
            },
        }
    }
}

// ---- read ----

/// The configured type cannot be read from this value.
pub open spec fn unreadable(v: CipValue, ty: EipType) -> bool {
    if ty == EipType::Bool {
        !(v is Bool)
    } else {
        !v.numeric()
    }
}

/// `g` is the finite binary32 number `f` as a binary64.
pub open spec fn widens(g: F64, f: F32) -> bool {
    &&& g.finite()
    &&& g.magnitude() == f.magnitude()
    &&& g.negative() == f.negative()
}

/// What one readable element decodes to. `published` is its transformed number, when the signal has
/// a transform.
pub open spec fn element_reads(
    v: CipValue,
    ty: EipType,
    published: Option<F64>,
    value: Json,
    non_finite: bool,
) -> bool {
    if element_non_finite(v, ty, published) {
        value == Json::Null && non_finite
    } else {
        &&& !non_finite
        &&& if ty == EipType::Bool {
            value == Json::Bool(v->Bool_0)
        } else if published is Some {
            value == Json::Number(Number::Float(published->0))
        } else {
            match v {
                CipValue::Real(f) => value matches Json::Number(Number::Float(g)) && widens(g, f),
                CipValue::Lreal(f) => value == Json::Number(Number::Float(f)),
                _ => value matches Json::Number(n) && n.exact() == v.integer(),
            }
        }
    }
}

/// The transformed number of element `i`, when the signal has a transform.
pub open spec fn published_at(published: Option<Seq<F64>>, i: int) -> Option<F64> {
    match published {
        Some(s) => Some(s[i]),
        None => None,
    }
}

/// Whether the element's reading is not finite.
pub open spec fn element_non_finite(v: CipValue, ty: EipType, published: Option<F64>) -> bool {
    if ty == EipType::Bool {
        false
    } else if published is Some {
        !(published->0).finite()
    } else {
        match v {
            CipValue::Real(f) => !f.finite(),
            CipValue::Lreal(f) => !f.finite(),
            _ => false,
        }
    }
}

/// Decode one element. A `bool` ignores the transform.
pub fn decode_scalar(v: &CipValue, ty: EipType, published: Option<F64>) -> (r: Result<
    Decoded,
    DecodeError,
>)
    ensures
        r is Err <==> unreadable(*v, ty),
        r matches Err(e) ==> e == (DecodeError::TypeMismatch { expected: ty, got: v.declared() }),
        r matches Ok(d) ==> element_reads(*v, ty, published, d.value, d.non_finite),
{
    if ty == EipType::Bool {
        return match v {
            CipValue::Bool(b) => Ok(Decoded { value: Json::Bool(*b), non_finite: false }),
            _ => Err(DecodeError::TypeMismatch { expected: ty, got: v.wire_type() }),
        };
    }
    if !is_numeric(v) {
        return Err(DecodeError::TypeMismatch { expected: ty, got: v.wire_type() });
    }
    match published {
        Some(f) => Ok(float_json(f)),
        None => match v {
            CipValue::Real(f) => {
                if f.is_finite() {
                    Ok(float_json(f.widen()))
                } else {
                    Ok(Decoded { value: Json::Null, non_finite: true })
                }
            },
            CipValue::Lreal(f) => Ok(float_json(*f)),
            other => Ok(Decoded { value: native_int_json(other), non_finite: false }),
        },
    }
}

/// A floating-point number as JSON; one that is not finite has no JSON form.
fn float_json(f: F64) -> (d: Decoded)
    ensures
        d.non_finite == !f.finite(),
        d.value == (if f.finite() {
            Json::Number(Number::Float(f))
        } else {
            Json::Null
        }),
{
    if f.is_finite() {
        Decoded { value: Json::Number(Number::Float(f)), non_finite: false }
    } else {
        Decoded { value: Json::Null, non_finite: true }
    }
}

/// Whether the value is an integer or a floating-point number.
pub fn is_numeric(v: &CipValue) -> (r: bool)
    ensures
        r == v.numeric(),
{
    match v {
        CipValue::Sint(_)
        | CipValue::Usint(_)
        | CipValue::Int(_)
        | CipValue::Uint(_)
        | CipValue::Dint(_)
        | CipValue::Udint(_)
        | CipValue::Lint(_)
        | CipValue::Ulint(_)
        | CipValue::Real(_)
        | CipValue::Lreal(_) => true,
        _ => false,
    }
}

/// The JSON integer of an integer value, with every digit.
fn native_int_json(v: &CipValue) -> (r: Json)
    requires
        v.integer() is Some,
    ensures
        r matches Json::Number(n) && n.exact() == v.integer(),
{
    let number = match v {
        CipValue::Sint(x) => Number::Signed(*x as i64),
        CipValue::Usint(x) => Number::Unsigned(*x as u64),
        CipValue::Int(x) => Number::Signed(*x as i64),
        CipValue::Uint(x) => Number::Unsigned(*x as u64),
        CipValue::Dint(x) => Number::Signed(*x as i64),
        CipValue::Udint(x) => Number::Unsigned(*x as u64),
        CipValue::Lint(x) => Number::Signed(*x),
        CipValue::Ulint(x) => Number::Unsigned(*x),
        _ => Number::Unsigned(0),
    };
    Json::Number(number)
}

/// The first element of `elems` the configured type cannot be read from is at `i`.
pub open spec fn first_unreadable(elems: Seq<CipValue>, ty: EipType, i: int) -> bool {
    &&& 0 <= i < elems.len()
    &&& unreadable(elems[i], ty)
    &&& forall|j: int| 0 <= j < i ==> !unreadable(#[trigger] elems[j], ty)
}

/// The refusal of a value whose declared type is not the configured one.
pub open spec fn mismatch(v: CipValue, ty: EipType) -> DecodeError {
    DecodeError::TypeMismatch { expected: ty, got: v.declared() }
}

/// What an array of readable elements decodes to: one element that is not finite makes the whole
/// reading a null.
pub open spec fn array_reads(
    elems: Seq<CipValue>,
    ty: EipType,
    published: Option<Seq<F64>>,
    d: Decoded,
) -> bool {
    if exists|i: int|
        0 <= i < elems.len() && #[trigger] element_non_finite(elems[i], ty, published_at(published, i)) {
        d.value == Json::Null && d.non_finite
    } else {
        &&& d.value matches Json::Array(items)
        &&& items@.len() == elems.len()
        &&& forall|i: int|
            0 <= i < elems.len() ==> element_reads(
                #[trigger] elems[i],
                ty,
                published_at(published, i),
                items@[i],
                false,
            )
        &&& !d.non_finite
    }
}

/// What an array of the configured element type decodes to: the refusal of its first unreadable
/// element, or the reading.
pub open spec fn array_decodes(
    elems: Seq<CipValue>,
    ty: EipType,
    published: Option<Seq<F64>>,
    r: Result<Decoded, DecodeError>,
) -> bool {
    match r {
        Err(e) => exists|i: int|
            first_unreadable(elems, ty, i) && e == #[trigger] mismatch(elems[i], ty),
        Ok(d) => (forall|i: int| 0 <= i < elems.len() ==> !unreadable(#[trigger] elems[i], ty))
            && array_reads(elems, ty, published, d),
    }
}

/// What a value of the configured type decodes to. `published` holds the transformed number of each
/// element, when the signal has a transform (one number for a scalar).
pub open spec fn decodes(
    v: CipValue,
    ty: EipType,
    published: Option<Seq<F64>>,
    r: Result<Decoded, DecodeError>,
) -> bool {
    if v.declared() != cip_type_of(ty) {
        r == Err::<Decoded, DecodeError>(mismatch(v, ty))
    } else {
        match v {
            CipValue::Array(_, elems) => array_decodes(elems@, ty, published, r),
            _ => r matches Ok(d) && element_reads(
                v,
                ty,
                published_at(published, 0),
                d.value,
                d.non_finite,
            ),
        }
    }
}

/// The JSON value of a CIP value for the configured type. `published` holds the transformed number of
/// each element, when the signal has a transform (one number for a scalar).
pub fn decode_value(v: &CipValue, ty: EipType, published: Option<&Vec<F64>>) -> (r: Result<
    Decoded,
    DecodeError,
>)
    requires
        published matches Some(p) ==> (match *v {
            CipValue::Array(_, elems) => p@.len() == elems@.len(),
            _ => p@.len() == 1,
        }),
    ensures
        decodes(
            *v,
            ty,
            match published {
                Some(s) => Some(s@),
                None => None::<Seq<F64>>,
            },
            r,
        ),
{
    let want = cip_type(ty);
    match v {
        CipValue::Array(el_ty, elems) => {
            if *el_ty != want {
                return Err(DecodeError::TypeMismatch { expected: ty, got: *el_ty });
            }
            let ghost p = match published {
                Some(s) => Some(s@),
                None => None::<Seq<F64>>,
            };
            let mut out: Vec<Json> = Vec::new();
            let mut non_finite = false;
            let mut i: usize = 0;
            while i < elems.len()
                invariant
                    i <= elems@.len(),
                    out@.len() == i,
                    *v == CipValue::Array(*el_ty, *elems),
                    *el_ty == cip_type_of(ty),
                    published matches Some(s) ==> s@.len() == elems@.len(),
                    p == (match published {
                        Some(s) => Some(s@),
                        None => None::<Seq<F64>>,
                    }),
                    forall|j: int| 0 <= j < i ==> !unreadable(#[trigger] elems@[j], ty),
                    forall|j: int|
                        0 <= j < i ==> element_reads(
                            #[trigger] elems@[j],
                            ty,
                            published_at(p, j),
                            out@[j],
                            element_non_finite(elems@[j], ty, published_at(p, j)),
                        ),
                    non_finite == (exists|j: int|
                        0 <= j < i && #[trigger] element_non_finite(
                            elems@[j],
                            ty,
                            published_at(p, j),
                        )),
                decreases elems@.len() - i,
            {
                let one = match published {
                    Some(s) => Some(s[i]),
                    None => None,
                };
                match decode_scalar(&elems[i], ty, one) {
                    Ok(d) => {
                        if d.non_finite {
                            non_finite = true;
                            assert(element_non_finite(elems@[i as int], ty, published_at(p, i as int)));
                        }
                        out.push(d.value);
                    },
                    Err(e) => {
                        assert(first_unreadable(elems@, ty, i as int));
                        assert(e == mismatch(elems@[i as int], ty));
                        assert(array_decodes(elems@, ty, p, Err(e)));
                        return Err(e);
                    },
                }
                i = i + 1;
            }
            if non_finite {
                Ok(Decoded { value: Json::Null, non_finite: true })
            } else {
                Ok(Decoded { value: Json::Array(out), non_finite: false })
            }
        },
        scalar => {
            if scalar.wire_type() != want {
                return Err(DecodeError::TypeMismatch { expected: ty, got: scalar.wire_type() });
            }
            let one = match published {
                Some(s) => Some(s[0]),
                None => None,
            };
            decode_scalar(scalar, ty, one)
        },
    }
}

// ---- write ----

/// Why a write value could not be coerced to the configured type.
#[derive(Debug)]
pub enum WriteError {
    /// A `bool` target was given something else.
    ExpectedBool,
    /// A numeric target was given something else.
    ExpectedNumber,
    /// An array target was given something else.
    ExpectedArray,
    /// An array target was given the wrong number of elements.
    WrongArrayLen { expected: usize, got: usize },
    /// An integer target without a transform was given a fractional number.
    NonInteger { ty: EipType },
    /// The device value does not fit the type.
    OutOfRange { ty: EipType, value: String },
    /// The integer is past what the transform's arithmetic carries exactly.
    InexactUnderTransform { ty: EipType, value: String },
    /// The device value is not finite.
    NonFinite,
}

/// A write refusal, with its texts as character sequences.
pub enum WriteErrorV {
    ExpectedBool,
    ExpectedNumber,
    ExpectedArray,
    WrongArrayLen { expected: nat, got: nat },
    NonInteger { ty: EipType },
    OutOfRange { ty: EipType, value: Seq<char> },
    InexactUnderTransform { ty: EipType, value: Seq<char> },
    NonFinite,
}

impl View for WriteError {
    type V = WriteErrorV;

    open spec fn view(&self) -> WriteErrorV {
        match *self {
            WriteError::ExpectedBool => WriteErrorV::ExpectedBool,
            WriteError::ExpectedNumber => WriteErrorV::ExpectedNumber,
            WriteError::ExpectedArray => WriteErrorV::ExpectedArray,
            WriteError::WrongArrayLen { expected, got } => WriteErrorV::WrongArrayLen {
                expected: expected as nat,
                got: got as nat,
            },
            WriteError::NonInteger { ty } => WriteErrorV::NonInteger { ty },
            WriteError::OutOfRange { ty, value } => WriteErrorV::OutOfRange { ty, value: value@ },
            WriteError::InexactUnderTransform { ty, value } => WriteErrorV::InexactUnderTransform {
                ty,
                value: value@,
            },
            WriteError::NonFinite => WriteErrorV::NonFinite,
        }
    }
}

impl WriteErrorV {
    /// The refusal as an operator reads it.
    pub open spec fn text(self) -> Seq<char> {
        match self {
            WriteErrorV::ExpectedBool => "expected a JSON boolean"@,
            WriteErrorV::ExpectedNumber => "expected a JSON number"@,
            WriteErrorV::ExpectedArray => "expected a JSON array"@,
            WriteErrorV::WrongArrayLen { expected, got } => "expected "@ + decimal_nat(expected)
                + " elements, got "@ + decimal_nat(got),
            WriteErrorV::NonInteger { ty } => ty.spelling() + " requires an integral number"@,
            WriteErrorV::OutOfRange { ty, value } => "value "@ + value + " is out of range for "@
                + ty.spelling(),
            WriteErrorV::InexactUnderTransform { ty, value } => "value "@ + value
                + " exceeds the exact integer range (2^53) of the scale/offset arithmetic for "@
                + ty.spelling() + " - refused rather than rounded"@,
            WriteErrorV::NonFinite => "value is non-finite after applying scale/offset"@,
        }
    }
}

impl WriteError {
    /// The refusal as an operator reads it.
    pub fn message(&self) -> (r: String)
        ensures
            r@ == self@.text(),
    {
        match self {
            WriteError::ExpectedBool => owned("expected a JSON boolean"),
            WriteError::ExpectedNumber => owned("expected a JSON number"),
            WriteError::ExpectedArray => owned("expected a JSON array"),
            WriteError::WrongArrayLen { expected, got } => {
                let wanted = decimal_u64(*expected as u64);
                let mut r = join3("expected ", wanted.as_str(), " elements, got ");
                let given = decimal_u64(*got as u64);
                r.append(given.as_str());
                r
            },
            WriteError::NonInteger { ty } => join2(ty.wire(), " requires an integral number"),
            WriteError::OutOfRange { ty, value } => {
                let mut r = join3("value ", value.as_str(), " is out of range for ");
                r.append(ty.wire());
                r
            },
            WriteError::InexactUnderTransform { ty, value } => {
                let mut r = join3(
                    "value ",
                    value.as_str(),
                    " exceeds the exact integer range (2^53) of the scale/offset arithmetic for ",
                );
                r.append(ty.wire());
                r.append(" - refused rather than rounded");
                r
            },
            WriteError::NonFinite => owned("value is non-finite after applying scale/offset"),
        }
    }
}

/// The floating-point side of one number being written: the value after the inverse transform, which
/// counts only under a transform that changes numbers, and the device value as text.
#[derive(Debug)]
pub struct DeviceNumber {
    pub value: F64,
    pub text: String,
}

/// The largest magnitude at which a binary64 still represents every integer.
pub const EXACT_F64_INT_LIMIT: i128 = 9_007_199_254_740_992;

/// One of the eight integer widths.
pub open spec fn integer_type(ty: EipType) -> bool {
    !(ty == EipType::Bool || ty == EipType::Real || ty == EipType::Lreal)
}

/// The smallest value of an integer type.
pub open spec fn int_lo(ty: EipType) -> int {
    match ty {
        EipType::Sint => -0x80,
        EipType::Int => -0x8000,
        EipType::Dint => -0x8000_0000,
        EipType::Lint => -0x8000_0000_0000_0000,
        _ => 0,
    }
}

/// The largest value of an integer type.
pub open spec fn int_hi(ty: EipType) -> int {
    match ty {
        EipType::Sint => 0x7F,
        EipType::Usint => 0xFF,
        EipType::Int => 0x7FFF,
        EipType::Uint => 0xFFFF,
        EipType::Dint => 0x7FFF_FFFF,
        EipType::Udint => 0xFFFF_FFFF,
        EipType::Lint => 0x7FFF_FFFF_FFFF_FFFF,
        EipType::Ulint => 0xFFFF_FFFF_FFFF_FFFF,
        _ => 0,
    }
}

/// The integer value of an integer type.
pub open spec fn int_value(ty: EipType, n: int) -> CipValue {
    match ty {
        EipType::Sint => CipValue::Sint(n as i8),
        EipType::Usint => CipValue::Usint(n as u8),
        EipType::Int => CipValue::Int(n as i16),
        EipType::Uint => CipValue::Uint(n as u16),
        EipType::Dint => CipValue::Dint(n as i32),
        EipType::Udint => CipValue::Udint(n as u32),
        EipType::Lint => CipValue::Lint(n as i64),
        _ => CipValue::Ulint(n as u64),
    }
}

/// A transform that leaves every number as it is: absent, or `scale` one and `offset` zero.
pub open spec fn identity(scale: Option<F64>, offset: Option<F64>) -> bool {
    &&& scale matches Some(s) ==> s.bits == ONE_BITS
    &&& offset matches Some(o) ==> o.canonical() == 0
}

/// The device value of a number being written: the number itself, unless a transform changes it.
pub open spec fn device_value(
    n: Number,
    scale: Option<F64>,
    offset: Option<F64>,
    device: DeviceNumber,
) -> F64 {
    if identity(scale, offset) {
        n.float()
    } else {
        device.value
    }
}

/// What one scalar write comes to.
pub open spec fn scalar_write(
    value: Json,
    ty: EipType,
    scale: Option<F64>,
    offset: Option<F64>,
    device: DeviceNumber,
) -> Result<CipValue, WriteErrorV> {
    if ty == EipType::Bool {
        match value {
            Json::Bool(b) => Ok(CipValue::Bool(b)),
            _ => Err(WriteErrorV::ExpectedBool),
        }
    } else {
        match value {
            Json::Number(n) => if integer_type(ty) && n.exact() is Some && identity(scale, offset) {
                exact_write(ty, n.exact()->0)
            } else if integer_type(ty) && n.exact() is Some && !(-EXACT_F64_INT_LIMIT <= n.exact()->0
                <= EXACT_F64_INT_LIMIT) {
                Err(
                    WriteErrorV::InexactUnderTransform {
                        ty,
                        value: decimal_int(n.exact()->0),
                    },
                )
            } else {
                float_write(
                    ty,
                    !identity(scale, offset),
                    device_value(n, scale, offset, device),
                    device.text@,
                )
            },
            _ => Err(WriteErrorV::ExpectedNumber),
        }
    }
}

/// An exact integer written to an integer target.
pub open spec fn exact_write(ty: EipType, n: int) -> Result<CipValue, WriteErrorV> {
    if int_lo(ty) <= n <= int_hi(ty) {
        Ok(int_value(ty, n))
    } else {
        Err(WriteErrorV::OutOfRange { ty, value: decimal_int(n) })
    }
}

/// A number written through floating point: `value` is the device value and `text` its text. Only a
/// transform that changes numbers lets a fraction be rounded away.
pub open spec fn float_write(ty: EipType, scaled: bool, value: F64, text: Seq<char>) -> Result<
    CipValue,
    WriteErrorV,
> {
    if !value.finite() {
        Err(WriteErrorV::NonFinite)
    } else if ty == EipType::Real {
        if value.magnitude() > crate::ieee::f32_max_magnitude() {
            Err(WriteErrorV::OutOfRange { ty, value: text })
        } else {
            Ok(CipValue::Real(value.single()))
        }
    } else if ty == EipType::Lreal {
        Ok(CipValue::Lreal(value))
    } else if !scaled && !value.integral() {
        Err(WriteErrorV::NonInteger { ty })
    } else if int_lo(ty) <= value.rounded() <= int_hi(ty) {
        Ok(int_value(ty, value.rounded()))
    } else {
        Err(WriteErrorV::OutOfRange { ty, value: text })
    }
}

/// A result with the texts of its refusal as character sequences.
pub open spec fn outcome<T>(r: Result<T, WriteError>) -> Result<T, WriteErrorV> {
    match r {
        Ok(v) => Ok(v),
        Err(e) => Err(e@),
    }
}

/// Whether `ty` is one of the eight integer widths.
pub fn is_integer_type(ty: EipType) -> (r: bool)
    ensures
        r == integer_type(ty),
{
    match ty {
        EipType::Sint
        | EipType::Usint
        | EipType::Int
        | EipType::Uint
        | EipType::Dint
        | EipType::Udint
        | EipType::Lint
        | EipType::Ulint => true,
        _ => false,
    }
}

/// Whether the transform leaves every number as it is.
pub fn is_identity_transform(scale: Option<F64>, offset: Option<F64>) -> (r: bool)
    ensures
        r == identity(scale, offset),
{
    let unit = match scale {
        Some(s) => s.bits == ONE_BITS,
        None => true,
    };
    let none = match offset {
        Some(o) => o.same_number(F64 { bits: 0 }),
        None => true,
    };
    unit && none
}

/// The exact integer of an integer literal.
pub fn json_exact_int(v: &Json) -> (r: Option<i128>)
    ensures
        match *v {
            Json::Number(n) => match n.exact() {
                Some(x) => r matches Some(y) && x == y,
                None => r is None,
            },
            _ => r is None,
        },
{
    match v {
        Json::Number(Number::Unsigned(n)) => Some(*n as i128),
        Json::Number(Number::Signed(n)) => Some(*n as i128),
        _ => None,
    }
}

/// The inclusive range of an integer type; `(0, 0)` for the others.
pub fn int_bounds(ty: EipType) -> (r: (i128, i128))
    ensures
        r.0 == int_lo(ty),
        r.1 == int_hi(ty),
{
    match ty {
        EipType::Sint => (-0x80, 0x7F),
        EipType::Usint => (0, 0xFF),
        EipType::Int => (-0x8000, 0x7FFF),
        EipType::Uint => (0, 0xFFFF),
        EipType::Dint => (-0x8000_0000, 0x7FFF_FFFF),
        EipType::Udint => (0, 0xFFFF_FFFF),
        EipType::Lint => (-0x8000_0000_0000_0000, 0x7FFF_FFFF_FFFF_FFFF),
        EipType::Ulint => (0, 0xFFFF_FFFF_FFFF_FFFF),
        _ => (0, 0),
    }
}

/// The integer value of an integer type, when the integer fits it.
pub fn make_int(ty: EipType, v: i128) -> (r: Option<CipValue>)
    ensures
        r == (if integer_type(ty) && int_lo(ty) <= v <= int_hi(ty) {
            Some(int_value(ty, v as int))
        } else {
            None
        }),
{
    let (lo, hi) = int_bounds(ty);
    if !is_integer_type(ty) || v < lo || v > hi {
        return None;
    }
    match ty {
        EipType::Sint => Some(CipValue::Sint(v as i8)),
        EipType::Usint => Some(CipValue::Usint(v as u8)),
        EipType::Int => Some(CipValue::Int(v as i16)),
        EipType::Uint => Some(CipValue::Uint(v as u16)),
        EipType::Dint => Some(CipValue::Dint(v as i32)),
        EipType::Udint => Some(CipValue::Udint(v as u32)),
        EipType::Lint => Some(CipValue::Lint(v as i64)),
        _ => Some(CipValue::Ulint(v as u64)),
    }
}

/// An exact integer coerced to an integer type.
pub fn encode_exact_int(ty: EipType, v: i128) -> (r: Result<CipValue, WriteError>)
    requires
        integer_type(ty),
    ensures
        outcome(r) == exact_write(ty, v as int),
{
    match make_int(ty, v) {
        Some(value) => Ok(value),
        None => Err(WriteError::OutOfRange { ty, value: decimal_i128(v) }),
    }
}

/// One scalar coerced to the configured type. `device` is the floating-point side of the number, and
/// is not looked at for a value that is no number. A transform that changes nothing is no transform: a
/// fractional number is not rounded away under it.
pub fn encode_scalar(
    value: &Json,
    ty: EipType,
    scale: Option<F64>,
    offset: Option<F64>,
    device: &DeviceNumber,
) -> (r: Result<CipValue, WriteError>)
    ensures
        outcome(r) == scalar_write(*value, ty, scale, offset, *device),
{
    if ty == EipType::Bool {
        return match value {
            Json::Bool(b) => Ok(CipValue::Bool(*b)),
            _ => Err(WriteError::ExpectedBool),
        };
    }
    let number = match value {
        Json::Number(n) => *n,
        _ => {
            return Err(WriteError::ExpectedNumber);
        },
    };
    if is_integer_type(ty) {
        if let Some(exact) = json_exact_int(value) {
            if is_identity_transform(scale, offset) {
                return encode_exact_int(ty, exact);
            }
            if exact < -EXACT_F64_INT_LIMIT || exact > EXACT_F64_INT_LIMIT {
                return Err(WriteError::InexactUnderTransform { ty, value: decimal_i128(exact) });
            }
        }
    }
    let scaled = !is_identity_transform(scale, offset);
    let written = if scaled {
        device.value
    } else {
        number.to_float()
    };
    if !written.is_finite() {
        return Err(WriteError::NonFinite);
    }
    match ty {
        EipType::Real => {
            if written.exceeds_f32() {
                Err(WriteError::OutOfRange { ty, value: device.text.clone() })
            } else {
                Ok(CipValue::Real(written.narrow()))
            }
        },
        EipType::Lreal => Ok(CipValue::Lreal(written)),
        _ => {
            if !scaled && !written.is_integral() {
                return Err(WriteError::NonInteger { ty });
            }
            let (lo, hi) = int_bounds(ty);
            match written.rounded_in(lo, hi) {
                Some(exact) => match make_int(ty, exact) {
                    Some(v) => Ok(v),
                    None => Err(WriteError::NonInteger { ty }),
                },
                None => Err(WriteError::OutOfRange { ty, value: device.text.clone() }),
            }
        },
    }
}

/// What a write to an array of `n` elements comes to: the first refusal among the elements, or all of
/// them in order.
pub open spec fn array_write(
    items: Seq<Json>,
    n: nat,
    ty: EipType,
    scale: Option<F64>,
    offset: Option<F64>,
    numbers: Seq<DeviceNumber>,
    r: Result<CipValue, WriteError>,
) -> bool {
    if items.len() != n {
        outcome(r) == Err::<CipValue, WriteErrorV>(
            WriteErrorV::WrongArrayLen { expected: n, got: items.len() },
        )
    } else {
        match r {
            Err(e) => exists|i: int|
                {
                    &&& 0 <= i < n
                    &&& (#[trigger] element_write(items, ty, scale, offset, numbers, i)) == Err::<
                        CipValue,
                        WriteErrorV,
                    >(e@)
                    &&& forall|j: int|
                        0 <= j < i ==> (#[trigger] element_write(items, ty, scale, offset, numbers, j)) is Ok
                },
            Ok(v) => match v {
                CipValue::Array(t, elems) => {
                    &&& t == cip_type_of(ty)
                    &&& elems@.len() == n
                    &&& forall|i: int|
                        0 <= i < n ==> (#[trigger] element_write(items, ty, scale, offset, numbers, i))
                            == Ok::<CipValue, WriteErrorV>(elems@[i])
                },
                _ => false,
            },
        }
    }
}

/// What the write of element `i` comes to.
pub open spec fn element_write(
    items: Seq<Json>,
    ty: EipType,
    scale: Option<F64>,
    offset: Option<F64>,
    numbers: Seq<DeviceNumber>,
    i: int,
) -> Result<CipValue, WriteErrorV> {
    scalar_write(items[i], ty, scale, offset, numbers[i])
}

/// What a write comes to. `array_count` asks for an array of exactly that many elements.
pub open spec fn writes(
    value: Json,
    ty: EipType,
    scale: Option<F64>,
    offset: Option<F64>,
    array_count: Option<u32>,
    numbers: Seq<DeviceNumber>,
    r: Result<CipValue, WriteError>,
) -> bool {
    match array_count {
        None => outcome(r) == scalar_write(value, ty, scale, offset, numbers[0]),
        Some(n) => match value {
            Json::Array(items) => array_write(items@, n as nat, ty, scale, offset, numbers, r),
            _ => r == Err::<CipValue, WriteError>(WriteError::ExpectedArray),
        },
    }
}

/// A JSON value coerced to the configured type. `array_count` asks for an array of exactly that many
/// elements. `numbers` holds the floating-point side of each element (of the value itself, for a
/// scalar).
pub fn encode_write(
    value: &Json,
    ty: EipType,
    scale: Option<F64>,
    offset: Option<F64>,
    array_count: Option<u32>,
    numbers: &Vec<DeviceNumber>,
) -> (r: Result<CipValue, WriteError>)
    requires
        array_count is None ==> numbers@.len() == 1,
        array_count is Some ==> (value matches Json::Array(items) ==> numbers@.len() == items@.len()),
    ensures
        writes(*value, ty, scale, offset, array_count, numbers@, r),
{
    match array_count {
        None => encode_scalar(value, ty, scale, offset, &numbers[0]),
        Some(n) => match value {
            Json::Array(items) => {
                if items.len() != n as usize {
                    return Err(
                        WriteError::WrongArrayLen { expected: n as usize, got: items.len() },
                    );
                }
                let mut elems: Vec<CipValue> = Vec::new();
                let mut i: usize = 0;
                while i < items.len()
                    invariant
                        i <= items@.len(),
                        items@.len() == n,
                        numbers@.len() == items@.len(),
                        elems@.len() == i,
                        *value == Json::Array(*items),
                        array_count == Some(n),
                        forall|j: int|
                            0 <= j < i ==> (#[trigger] element_write(
                                items@,
                                ty,
                                scale,
                                offset,
                                numbers@,
                                j,
                            )) == Ok::<CipValue, WriteErrorV>(elems@[j]),
                    decreases items@.len() - i,
                {
                    match encode_scalar(&items[i], ty, scale, offset, &numbers[i]) {
                        Ok(v) => {
                            assert(element_write(items@, ty, scale, offset, numbers@, i as int) == Ok::<
                                CipValue,
                                WriteErrorV,
                            >(v));
                            elems.push(v);
                        },
                        Err(e) => {
                            assert(element_write(items@, ty, scale, offset, numbers@, i as int)
                                == Err::<CipValue, WriteErrorV>(e@));
                            assert(array_write(
                                items@,
                                n as nat,
                                ty,
                                scale,
                                offset,
                                numbers@,
                                Err(e),
                            ));
                            return Err(e);
                        },
                    }
                    i = i + 1;
                }
                Ok(CipValue::Array(cip_type(ty), elems))
            },
            _ => Err(WriteError::ExpectedArray),
        },
    }
}

// ---- what the two directions keep ----

/// A value that is no array, or an array none of whose elements is one, all of the one configured type
/// and none of them an infinity or a NaN.
pub open spec fn plain(v: CipValue, ty: EipType) -> bool {
    match v {
        CipValue::Array(t, elems) => t == cip_type_of(ty) && forall|i: int|
            0 <= i < elems@.len() ==> plain_scalar(#[trigger] elems@[i], ty),
        _ => plain_scalar(v, ty),
    }
}

/// A scalar of the configured type that is neither an infinity nor a NaN.
pub open spec fn plain_scalar(v: CipValue, ty: EipType) -> bool {
    &&& !(v is Array)
    &&& v.declared() == cip_type_of(ty)
    &&& !element_non_finite(v, ty, None)
}

/// Whether two values are the same scalar, or arrays of the same element type with the same elements.
pub open spec fn same_value(a: CipValue, b: CipValue) -> bool {
    match (a, b) {
        (CipValue::Array(t, x), CipValue::Array(u, y)) => t == u && x@ == y@,
        _ => a == b,
    }
}

/// What the read path publishes of a value, the write path encodes back to that very value, bit for
/// bit: a boolean, an integer of each width, a finite real or lreal, and arrays of them.
pub proof fn what_is_read_writes_back(
    v: CipValue,
    ty: EipType,
    read: Result<Decoded, DecodeError>,
    array_count: Option<u32>,
    numbers: Seq<DeviceNumber>,
    written: Result<CipValue, WriteError>,
)
    requires
        plain(v, ty),
        decodes(v, ty, None, read),
        match v {
            CipValue::Array(_, elems) => array_count == Some(elems@.len() as u32) && elems@.len()
                <= u32::MAX,
            _ => array_count is None,
        },
        read matches Ok(d) ==> writes(d.value, ty, None, None, array_count, numbers, written),
    ensures
        read matches Ok(d) && !d.non_finite,
        written matches Ok(back) && same_value(back, v),
{
    match v {
        CipValue::Array(_, elems) => {
            assert forall|i: int| 0 <= i < elems@.len() implies !unreadable(
                #[trigger] elems@[i],
                ty,
            ) && !element_non_finite(elems@[i], ty, published_at(None, i)) by {
                assert(plain_scalar(elems@[i], ty));
            }
            if let Err(e) = read {
                let i = choose|i: int|
                    first_unreadable(elems@, ty, i) && e == #[trigger] mismatch(elems@[i], ty);
                assert(first_unreadable(elems@, ty, i));
                assert(plain_scalar(elems@[i], ty));
            }
            let d = read->Ok_0;
            let items = d.value->Array_0;
            assert forall|i: int| 0 <= i < elems@.len() implies (#[trigger] element_write(
                items@,
                ty,
                None,
                None,
                numbers,
                i,
            )) == Ok::<CipValue, WriteErrorV>(elems@[i]) by {
                assert(plain_scalar(elems@[i], ty));
                a_scalar_writes_back(elems@[i], ty, items@[i], numbers[i]);
            }
            if let Ok(CipValue::Array(t, back)) = written {
                assert forall|i: int| 0 <= i < elems@.len() implies back@[i] == elems@[i] by {
                    assert(element_write(items@, ty, None, None, numbers, i) == Ok::<
                        CipValue,
                        WriteErrorV,
                    >(back@[i]));
                }
                assert(back@ =~= elems@);
            }
        },
        _ => {
            a_scalar_writes_back(v, ty, read->Ok_0.value, numbers[0]);
        },
    }
}

/// One finite scalar of the configured type is read and written back unchanged.
proof fn a_scalar_writes_back(v: CipValue, ty: EipType, value: Json, device: DeviceNumber)
    requires
        plain_scalar(v, ty),
        element_reads(v, ty, None, value, false),
    ensures
        scalar_write(value, ty, None, None, device) == Ok::<CipValue, WriteErrorV>(v),
{
    if let CipValue::Real(f) = v {
        let g = value->Number_0->Float_0;
        crate::ieee::a_single_stays_in_range(f);
        crate::ieee::the_single_is_the_number_rounded(g);
        crate::ieee::narrowing_undoes_widening(f, g, g.single());
    }
}

/// A transform that changes nothing is no transform: with `scale` one and `offset` zero, in any
/// combination, a write comes to what it comes to without them.
pub proof fn an_identity_transform_changes_no_write(
    value: Json,
    ty: EipType,
    scale: Option<F64>,
    offset: Option<F64>,
    array_count: Option<u32>,
    numbers: Seq<DeviceNumber>,
    r: Result<CipValue, WriteError>,
)
    requires
        identity(scale, offset),
        writes(value, ty, scale, offset, array_count, numbers, r),
    ensures
        writes(value, ty, None, None, array_count, numbers, r),
{
    if let (Some(n), Json::Array(items)) = (array_count, value) {
        assert forall|i: int|
            (#[trigger] element_write(items@, ty, None, None, numbers, i)) == element_write(
                items@,
                ty,
                scale,
                offset,
                numbers,
                i,
            ) by {}
        if items@.len() == n {
            match r {
                Err(e) => {
                    let i = choose|i: int|
                        {
                            &&& 0 <= i < n
                            &&& (#[trigger] element_write(items@, ty, scale, offset, numbers, i))
                                == Err::<CipValue, WriteErrorV>(e@)
                            &&& forall|j: int|
                                0 <= j < i ==> (#[trigger] element_write(
                                    items@,
                                    ty,
                                    scale,
                                    offset,
                                    numbers,
                                    j,
                                )) is Ok
                        };
                    assert(element_write(items@, ty, None, None, numbers, i) == Err::<
                        CipValue,
                        WriteErrorV,
                    >(e@));
                },
                Ok(_) => {},
            }
        }
    }
}

/// A write that is accepted is never a clamp: the device gets the very integer that was sent, or the
/// rounded device value, and it fits the type.
pub proof fn an_accepted_integer_write_is_no_clamp(
    value: Json,
    ty: EipType,
    scale: Option<F64>,
    offset: Option<F64>,
    device: DeviceNumber,
    written: CipValue,
)
    requires
        integer_type(ty),
        scalar_write(value, ty, scale, offset, device) == Ok::<CipValue, WriteErrorV>(written),
    ensures
        written.declared() == cip_type_of(ty),
        written.integer() is Some,
        int_lo(ty) <= written.integer()->0 <= int_hi(ty),
        written.integer()->0 == (if value->Number_0.exact() is Some && identity(scale, offset) {
            value->Number_0.exact()->0
        } else {
            device_value(value->Number_0, scale, offset, device).rounded()
        }),
        identity(scale, offset) && value->Number_0.exact() is None
            ==> device_value(value->Number_0, scale, offset, device).integral(),
{
}

/// A boolean is read and written whatever transform is configured.
pub proof fn booleans_know_no_transform(
    b: bool,
    scale: Option<F64>,
    offset: Option<F64>,
    device: DeviceNumber,
    published: Option<F64>,
    back: Json,
    non_finite: bool,
)
    requires
        element_reads(CipValue::Bool(b), EipType::Bool, published, back, non_finite),
    ensures
        scalar_write(Json::Bool(b), EipType::Bool, scale, offset, device) == Ok::<CipValue, WriteErrorV>(
            CipValue::Bool(b),
        ),
        back == Json::Bool(b),
        !non_finite,
{
}

/// Under a transform that changes numbers, what reaches the device is the number with the transform
/// undone, for every type: an lreal is that very number, a real is it in single precision, and an integer
/// is it rounded. The number that was sent counts only where it is past what the transform carries exactly.
pub proof fn a_transformed_write_reaches_the_device_undone(
    n: Number,
    ty: EipType,
    scale: Option<F64>,
    offset: Option<F64>,
    device: DeviceNumber,
    written: CipValue,
)
    requires
        (scale matches Some(s) && s.bits != ONE_BITS) || (offset matches Some(o) && o.bits != 0 && o.bits
            != 0x8000_0000_0000_0000),
        scalar_write(Json::Number(n), ty, scale, offset, device) == Ok::<CipValue, WriteErrorV>(written),
    ensures
        device.value.finite(),
        ty == EipType::Lreal ==> written == CipValue::Lreal(device.value),
        ty == EipType::Real ==> written == CipValue::Real(device.value.single()) && device.value.magnitude()
            <= crate::ieee::f32_max_magnitude(),
        ty != EipType::Real && ty != EipType::Lreal ==> written.integer() == Some(device.value.rounded()),
        written.declared() == cip_type_of(ty),
        integer_type(ty) && n.exact() is Some ==> -0x20_0000_0000_0000 <= n.exact()->0
            <= 0x20_0000_0000_0000,
{
}

/// Without a transform that changes numbers, what reaches the device is the number that was sent: an
/// lreal is that very number, a real is it in single precision, and an integer is it without rounding.
pub proof fn an_untransformed_write_reaches_the_device_as_sent(
    n: Number,
    ty: EipType,
    scale: Option<F64>,
    offset: Option<F64>,
    device: DeviceNumber,
    written: CipValue,
)
    requires
        scale matches Some(s) ==> s.bits == ONE_BITS,
        offset matches Some(o) ==> o.bits == 0 || o.bits == 0x8000_0000_0000_0000,
        scalar_write(Json::Number(n), ty, scale, offset, device) == Ok::<CipValue, WriteErrorV>(written),
    ensures
        n.float().finite() || integer_type(ty),
        ty == EipType::Lreal ==> written == CipValue::Lreal(n.float()),
        ty == EipType::Real ==> written == CipValue::Real(n.float().single()),
        ty != EipType::Real && ty != EipType::Lreal && n is Unsigned ==> written.integer() == Some(
            n->Unsigned_0 as int,
        ),
        ty != EipType::Real && ty != EipType::Lreal && n is Signed ==> written.integer() == Some(
            n->Signed_0 as int,
        ),
        ty != EipType::Real && ty != EipType::Lreal && n is Float ==> n->Float_0.integral()
            && written.integer() == Some(n->Float_0.rounded()),
        written.declared() == cip_type_of(ty),
{
}

/// A number that fits its target is accepted: any finite one for an lreal, one within single precision's
/// range for a real, and one within the type's range for an integer (whole, unless a transform that
/// changes numbers rounds it, and within what such a transform carries exactly).
pub proof fn a_write_that_fits_is_accepted(
    n: Number,
    ty: EipType,
    scale: Option<F64>,
    offset: Option<F64>,
    device: DeviceNumber,
)
    requires
        ty != EipType::Bool,
    ensures
        ({
            let plain = (scale matches Some(s) ==> s.bits == ONE_BITS) && (offset matches Some(o)
                ==> o.bits == 0 || o.bits == 0x8000_0000_0000_0000);
            let v = if plain {
                n.float()
            } else {
                device.value
            };
            let ok = scalar_write(Json::Number(n), ty, scale, offset, device) is Ok;
            &&& ty == EipType::Lreal ==> (ok <==> v.finite())
            &&& ty == EipType::Real ==> (ok <==> v.finite() && v.magnitude()
                <= crate::ieee::f32_max_magnitude())
            &&& integer_type(ty) && plain && n.exact() is Some ==> (ok <==> int_lo(ty) <= n.exact()->0
                <= int_hi(ty))
            &&& integer_type(ty) && plain && n.exact() is None ==> (ok <==> v.finite() && v.integral()
                && int_lo(ty) <= v.rounded() <= int_hi(ty))
            &&& integer_type(ty) && !plain && n.exact() is None ==> (ok <==> v.finite() && int_lo(ty)
                <= v.rounded() <= int_hi(ty))
            &&& integer_type(ty) && !plain && n.exact() is Some ==> (ok <==> -0x20_0000_0000_0000
                <= n.exact()->0 <= 0x20_0000_0000_0000 && v.finite() && int_lo(ty) <= v.rounded()
                <= int_hi(ty))
        }),
{
}

/// A number that does not fit its target is refused for what is wrong with it: not being finite before
/// anything else that the device value decides, then its range, and a fraction before the range.
pub proof fn a_refused_number_says_what_is_wrong(
    n: Number,
    ty: EipType,
    scale: Option<F64>,
    offset: Option<F64>,
    device: DeviceNumber,
    e: WriteErrorV,
)
    requires
        ty != EipType::Bool,
        scalar_write(Json::Number(n), ty, scale, offset, device) == Err::<CipValue, WriteErrorV>(e),
    ensures
        ({
            let plain = (scale matches Some(s) ==> s.bits == ONE_BITS) && (offset matches Some(o)
                ==> o.bits == 0 || o.bits == 0x8000_0000_0000_0000);
            let v = if plain {
                n.float()
            } else {
                device.value
            };
            let exact = integer_type(ty) && n.exact() is Some;
            let past = exact && !plain && !(-0x20_0000_0000_0000 <= n.exact()->0
                <= 0x20_0000_0000_0000);
            &&& past ==> e == (WriteErrorV::InexactUnderTransform {
                ty,
                value: decimal_int(n.exact()->0),
            })
            &&& exact && plain ==> e == (WriteErrorV::OutOfRange { ty, value: decimal_int(n.exact()->0) })
            &&& !past && !(exact && plain) && !v.finite() ==> e == WriteErrorV::NonFinite
            &&& !past && !(exact && plain) && v.finite() && integer_type(ty) && plain && !v.integral()
                ==> e == (WriteErrorV::NonInteger { ty })
            &&& !past && !(exact && plain) && v.finite() && !(integer_type(ty) && plain && !v.integral())
                ==> e == (WriteErrorV::OutOfRange { ty, value: device.text@ })
        }),
{
}

/// A value of another sort is refused, never coerced: a bool takes a boolean and nothing else, a numeric
/// type a number and nothing else.
pub proof fn a_value_of_another_sort_is_refused(
    value: Json,
    ty: EipType,
    scale: Option<F64>,
    offset: Option<F64>,
    device: DeviceNumber,
)
    ensures
        ty == EipType::Bool && !(value is Bool) ==> scalar_write(value, ty, scale, offset, device) == Err::<
            CipValue,
            WriteErrorV,
        >(WriteErrorV::ExpectedBool),
        ty != EipType::Bool && !(value is Number) ==> scalar_write(value, ty, scale, offset, device)
            == Err::<CipValue, WriteErrorV>(WriteErrorV::ExpectedNumber),
{
}

/// The integers of an integer type are those of its width, with its sign: each is written as itself.
pub proof fn an_integer_type_holds_its_width(ty: EipType, n: int)
    ensures
        ty == EipType::Sint ==> int_lo(ty) == i8::MIN && int_hi(ty) == i8::MAX,
        ty == EipType::Usint ==> int_lo(ty) == u8::MIN && int_hi(ty) == u8::MAX,
        ty == EipType::Int ==> int_lo(ty) == i16::MIN && int_hi(ty) == i16::MAX,
        ty == EipType::Uint ==> int_lo(ty) == u16::MIN && int_hi(ty) == u16::MAX,
        ty == EipType::Dint ==> int_lo(ty) == i32::MIN && int_hi(ty) == i32::MAX,
        ty == EipType::Udint ==> int_lo(ty) == u32::MIN && int_hi(ty) == u32::MAX,
        ty == EipType::Lint ==> int_lo(ty) == i64::MIN && int_hi(ty) == i64::MAX,
        ty == EipType::Ulint ==> int_lo(ty) == u64::MIN && int_hi(ty) == u64::MAX,
        integer_type(ty) <==> ty != EipType::Bool && ty != EipType::Real && ty != EipType::Lreal,
        integer_type(ty) && int_lo(ty) <= n <= int_hi(ty) ==> int_value(ty, n).integer() == Some(n)
            && int_value(ty, n).declared() == cip_type_of(ty),
{
}

/// A write to an array is the write of each element: as many as are asked for, each accepted as it would
/// be alone and in its place; the first that is refused alone refuses the array, with its reason.
pub proof fn an_array_is_written_element_by_element(
    items: Vec<Json>,
    n: u32,
    ty: EipType,
    scale: Option<F64>,
    offset: Option<F64>,
    numbers: Seq<DeviceNumber>,
    r: Result<CipValue, WriteError>,
    i: int,
    alone: Result<CipValue, WriteError>,
)
    requires
        writes(Json::Array(items), ty, scale, offset, Some(n), numbers, r),
        0 <= i < items@.len(),
        writes(items@[i], ty, scale, offset, None, seq![numbers[i]], alone),
    ensures
        items@.len() != n ==> (r matches Err(WriteError::WrongArrayLen { expected, got }) && expected == n
            && got == items@.len()),
        r is Ok ==> items@.len() == n,
        r matches Ok(v) ==> (alone matches Ok(one) && (v matches CipValue::Array(t, elems) && t
            == cip_type_of(ty) && elems@.len() == n && elems@[i] == one)),
        items@.len() == n && alone is Err ==> r is Err,
        items@.len() == n && alone is Err && (forall|j: int|
            0 <= j < i ==> scalar_write(#[trigger] items@[j], ty, scale, offset, numbers[j]) is Ok) ==> (
        r matches Err(e) && e@ == alone->Err_0@),
{
    assert(element_write(items@, ty, scale, offset, numbers, i) == outcome(alone));
    if items@.len() == n {
        if let Err(e) = r {
            let k = choose|k: int|
                {
                    &&& 0 <= k < n
                    &&& (#[trigger] element_write(items@, ty, scale, offset, numbers, k)) == Err::<
                        CipValue,
                        WriteErrorV,
                    >(e@)
                    &&& forall|j: int|
                        0 <= j < k ==> (#[trigger] element_write(items@, ty, scale, offset, numbers, j)) is Ok
                };
            if (forall|j: int|
                0 <= j < i ==> scalar_write(#[trigger] items@[j], ty, scale, offset, numbers[j]) is Ok)
                && alone is Err {
                if k < i {
                    assert(scalar_write(items@[k], ty, scale, offset, numbers[k]) is Ok);
                }
                if i < k {
                    assert(element_write(items@, ty, scale, offset, numbers, i) is Ok);
                }
            }
        }
    }
}

/// An array is refused only for its length or for one of its elements, and anything but an array is no
/// array.
pub proof fn an_array_is_refused_for_a_reason(
    value: Json,
    n: u32,
    ty: EipType,
    scale: Option<F64>,
    offset: Option<F64>,
    numbers: Seq<DeviceNumber>,
    r: Result<CipValue, WriteError>,
)
    requires
        writes(value, ty, scale, offset, Some(n), numbers, r),
    ensures
        !(value is Array) ==> r == Err::<CipValue, WriteError>(WriteError::ExpectedArray),
        value matches Json::Array(items) && items@.len() == n && (forall|j: int|
            0 <= j < n ==> scalar_write(#[trigger] items@[j], ty, scale, offset, numbers[j]) is Ok) ==> r is Ok,
{
    if let Json::Array(items) = value {
        if items@.len() == n && (forall|j: int|
            0 <= j < n ==> scalar_write(#[trigger] items@[j], ty, scale, offset, numbers[j]) is Ok) {
            if let Err(e) = r {
                let k = choose|k: int|
                    0 <= k < n && (#[trigger] element_write(items@, ty, scale, offset, numbers, k)) == Err::<
                        CipValue,
                        WriteErrorV,
                    >(e@);
                assert(scalar_write(items@[k], ty, scale, offset, numbers[k]) is Ok);
            }
        }
    }
}

/// A scalar of the configured type is read as what it is: a boolean as itself, an integer with every
/// digit, a finite floating-point number as that number; under a transform a number is the transformed
/// one. A number that is not finite is read as null, and marked. A value of another type is refused.
pub proof fn a_scalar_is_read_as_what_it_is(
    v: CipValue,
    ty: EipType,
    published: Option<F64>,
    r: Result<Decoded, DecodeError>,
)
    requires
        !(v is Array),
        decodes(
            v,
            ty,
            match published {
                Some(p) => Some(seq![p]),
                None => None,
            },
            r,
        ),
    ensures
        v.declared() != cip_type_of(ty) ==> r == Err::<Decoded, DecodeError>(
            DecodeError::TypeMismatch { expected: ty, got: v.declared() },
        ),
        v.declared() == cip_type_of(ty) ==> (r matches Ok(d) && ({
            &&& ty == EipType::Bool ==> d.value == Json::Bool(v->Bool_0) && !d.non_finite
            &&& ty != EipType::Bool && (published matches Some(p) && p.finite()) ==> d.value
                == Json::Number(Number::Float(published->0)) && !d.non_finite
            &&& ty != EipType::Bool && (published matches Some(p) && !p.finite()) ==> d.value is Null
                && d.non_finite
            &&& ty == EipType::Lreal && published is None && v->Lreal_0.finite() ==> d.value
                == Json::Number(Number::Float(v->Lreal_0)) && !d.non_finite
            &&& ty == EipType::Lreal && published is None && !v->Lreal_0.finite() ==> d.value is Null
                && d.non_finite
            &&& ty == EipType::Real && published is None && !v->Real_0.finite() ==> d.value is Null
                && d.non_finite
            &&& ty == EipType::Real && published is None && v->Real_0.finite() ==> !d.non_finite && (
            d.value matches Json::Number(Number::Float(g)) && g.finite() && g.magnitude()
                == v->Real_0.magnitude() && g.negative() == v->Real_0.negative())
            &&& ty != EipType::Bool && ty != EipType::Real && ty != EipType::Lreal && published is None
                ==> !d.non_finite && (d.value matches Json::Number(n) && n.exact() == v.integer()
                && n.exact() is Some)
        })),
{
}

/// An array of the configured type is read as an array of its elements, in order, each as it would be
/// alone (`published` holds their transformed numbers, where there is a transform). One element that is
/// not finite makes the whole of it null, and marks it.
pub proof fn an_array_is_read_element_by_element(
    elems: Vec<CipValue>,
    ty: EipType,
    published: Option<Seq<F64>>,
    r: Result<Decoded, DecodeError>,
    i: int,
)
    requires
        decodes(CipValue::Array(cip_type_of(ty), elems), ty, published, r),
        forall|j: int|
            0 <= j < elems@.len() ==> (#[trigger] elems@[j]).declared() == cip_type_of(ty)
                && !(elems@[j] is Array),
        0 <= i < elems@.len(),
    ensures
        r is Ok,
        ({
            let d = r->Ok_0;
            let v = elems@[i];
            let lost = ty != EipType::Bool && (match published {
                Some(p) => !p[i].finite(),
                None => (v is Real && !v->Real_0.finite()) || (v is Lreal && !v->Lreal_0.finite()),
            });
            &&& lost ==> d.non_finite
            &&& d.non_finite ==> d.value is Null
            &&& !d.non_finite ==> (d.value matches Json::Array(items) && items@.len() == elems@.len() && ({
                let item = items@[i];
                &&& ty == EipType::Bool ==> item == Json::Bool(v->Bool_0)
                &&& ty != EipType::Bool && published is Some ==> item == Json::Number(
                    Number::Float((published->0)[i]),
                )
                &&& ty == EipType::Lreal && published is None ==> item == Json::Number(
                    Number::Float(v->Lreal_0),
                )
                &&& ty == EipType::Real && published is None ==> (item matches Json::Number(
                    Number::Float(g),
                ) && g.magnitude() == v->Real_0.magnitude() && g.negative() == v->Real_0.negative())
                &&& integer_type(ty) && published is None ==> (item matches Json::Number(n) && n.exact()
                    == v.integer() && n.exact() is Some)
            }))
        }),
{
    assert forall|j: int| 0 <= j < elems@.len() implies !unreadable(#[trigger] elems@[j], ty) by {}
    if let Err(e) = r {
        let j = choose|j: int|
            first_unreadable(elems@, ty, j) && e == #[trigger] mismatch(elems@[j], ty);
        assert(first_unreadable(elems@, ty, j));
        assert(!unreadable(elems@[j], ty));
    }
    assert(!unreadable(elems@[i], ty));
    if element_non_finite(elems@[i], ty, published_at(published, i)) {
        assert(exists|j: int|
            0 <= j < elems@.len() && #[trigger] element_non_finite(
                elems@[j],
                ty,
                published_at(published, j),
            ));
    }
}

/// An array whose declared element type is not the configured one is refused, and one is marked as not
/// finite only where one of its elements is not.
pub proof fn an_array_is_marked_for_an_element(
    t: CipType,
    elems: Vec<CipValue>,
    ty: EipType,
    published: Option<Seq<F64>>,
    r: Result<Decoded, DecodeError>,
)
    requires
        decodes(CipValue::Array(t, elems), ty, published, r),
    ensures
        t != cip_type_of(ty) ==> r == Err::<Decoded, DecodeError>(
            DecodeError::TypeMismatch { expected: ty, got: t },
        ),
        r matches Ok(d) && d.non_finite ==> exists|i: int|
            0 <= i < elems@.len() && !(match published {
                Some(p) => p[i].finite(),
                None => match #[trigger] elems@[i] {
                    CipValue::Real(f) => f.finite(),
                    CipValue::Lreal(f) => f.finite(),
                    _ => true,
                },
            }),
{
    if let Ok(d) = r {
        if d.non_finite {
            let i = choose|i: int|
                0 <= i < elems@.len() && #[trigger] element_non_finite(
                    elems@[i],
                    ty,
                    published_at(published, i),
                );
            let v = elems@[i];
        }
    }
}

} // verus!

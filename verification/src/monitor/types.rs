use vstd::prelude::*;

use crate::errors::Error;
use crate::monitor::streams::IoTDevice;
use crate::program::operations::{BinaryOperators, UnaryOperators};

verus! {

/// The verdict of a property at one time point.
#[derive(Debug, PartialEq, Eq, Clone, Copy, Structural)]
pub enum Verdict {
    True,
    False,
    Undecided,
}

/// A device as the instrumentation reports it.
#[derive(Debug, PartialEq)]
pub struct Device {
    name: String,
    power: i128,
}

/// What a stream value stands for: a fixed-point number, `None` while it is
/// undecided, or a string.
pub enum Val {
    Num(Option<i128>),
    Str(Seq<char>),
}

/// A value that the evaluation of a derived stream produces.
///
/// Numbers are fixed point: `1_000` stands for `1`; truth is `1_000`,
/// falsity `0`. `Number(None)` is a value that is not decided yet.
#[derive(Debug, PartialEq, Clone, Copy)]
pub enum StreamValue<'a> {
    Number(Option<i128>),
    String(&'a str),
}

impl<'a> View for StreamValue<'a> {
    type V = Val;

    open spec fn view(&self) -> Val {
        match self {
            StreamValue::Number(v) => Val::Num(*v),
            StreamValue::String(s) => Val::Str(s@),
        }
    }
}

/// A result of stream values, seen through the view of its value.
pub open spec fn res_view<'a>(r: Result<StreamValue<'a>, Error>) -> Result<Val, Error> {
    match r {
        Ok(v) => Ok(v@),
        Err(e) => Err(e),
    }
}

/// The fixed-point encoding of a truth value.
pub open spec fn bool_num(b: bool) -> i128 {
    if b {
        1000
    } else {
        0
    }
}

/// `x`, or `d` where `x` is `None`.
pub open spec fn or_default(x: Option<i128>, d: i128) -> i128 {
    match x {
        Some(v) => v,
        None => d,
    }
}

/// Applies an operation on two decided numbers; an undecided operand makes
/// the result undecided, and a string operand is a type error. `f` gives
/// `None` where the result leaves the range of `i128`.
pub open spec fn lift_num(l: Val, r: Val, f: spec_fn(i128, i128) -> Option<i128>) -> Result<Val, Error> {
    match (l, r) {
        (Val::Num(Some(a)), Val::Num(Some(b))) => match f(a, b) {
            Some(c) => Ok(Val::Num(Some(c))),
            None => Err(Error::ArithmeticOverflow),
        },
        (Val::Num(_), Val::Num(_)) => Ok(Val::Num(None)),
        _ => Err(Error::TypeMismatch),
    }
}

/// The remainder of `a` by `b` with the sign of `b`; `0` for a zero divisor.
pub open spec fn modulo_fixed(a: i128, b: i128) -> Option<i128> {
    let r1 = or_default(a.checked_rem(b), 0);
    match r1.checked_add(b) {
        Some(s) => Some(or_default(s.checked_rem(b), 0)),
        None => None,
    }
}

/// Fixed-point product: the whole part of `m` times `n`, plus the
/// thousandths of `m` times `n`, divided by `1_000`.
pub open spec fn mul_fixed(m: i128, n: i128) -> Option<i128> {
    let m_int = or_default(m.checked_div(1000), 0);
    let m_frac = or_default(m.checked_rem(1000), 0);
    match (n.checked_mul(m_int), n.checked_mul(m_frac)) {
        (Some(whole), Some(p)) => whole.checked_add(or_default(p.checked_div(1000), 0)),
        _ => None,
    }
}

/// Fixed-point quotient: `a` divided by the whole part of `b`, plus `a`
/// divided by the thousandths of `b`; a zero divisor contributes `0`.
pub open spec fn div_fixed(a: i128, b: i128) -> Option<i128> {
    let m_int = or_default(b.checked_div(1000), 0);
    let m_frac = or_default(b.checked_rem(1000), 0);
    let whole = or_default(a.checked_div(m_int), 0);
    let frac = or_default(a.checked_div(m_frac), 0);
    whole.checked_add(frac)
}

pub open spec fn spec_plus(l: Val, r: Val) -> Result<Val, Error> {
    lift_num(l, r, |a: i128, b: i128| a.checked_add(b))
}

pub open spec fn spec_minus(l: Val, r: Val) -> Result<Val, Error> {
    lift_num(l, r, |a: i128, b: i128| a.checked_sub(b))
}

pub open spec fn spec_times(l: Val, r: Val) -> Result<Val, Error> {
    lift_num(l, r, |a: i128, b: i128| mul_fixed(a, b))
}

pub open spec fn spec_divide(l: Val, r: Val) -> Result<Val, Error> {
    lift_num(l, r, |a: i128, b: i128| div_fixed(a, b))
}

pub open spec fn spec_modulo(l: Val, r: Val) -> Result<Val, Error> {
    lift_num(l, r, |a: i128, b: i128| modulo_fixed(a, b))
}

pub open spec fn spec_less_than(l: Val, r: Val) -> Result<Val, Error> {
    lift_num(l, r, |a: i128, b: i128| Some(bool_num(a < b)))
}

pub open spec fn spec_less_equal(l: Val, r: Val) -> Result<Val, Error> {
    lift_num(l, r, |a: i128, b: i128| Some(bool_num(a <= b)))
}

/// Equality of two numbers or of two strings.
pub open spec fn spec_equals(l: Val, r: Val) -> Result<Val, Error> {
    match (l, r) {
        (Val::Str(a), Val::Str(b)) => Ok(Val::Num(Some(bool_num(a == b)))),
        _ => lift_num(l, r, |a: i128, b: i128| Some(bool_num(a == b))),
    }
}

pub open spec fn spec_not_equals(l: Val, r: Val) -> Result<Val, Error> {
    match (l, r) {
        (Val::Str(a), Val::Str(b)) => Ok(Val::Num(Some(bool_num(a != b)))),
        _ => lift_num(l, r, |a: i128, b: i128| Some(bool_num(a != b))),
    }
}

/// Three-valued conjunction: a decided false operand decides the result.
pub open spec fn spec_and(l: Val, r: Val) -> Result<Val, Error> {
    match (l, r) {
        (Val::Num(Some(a)), Val::Num(Some(b))) => Ok(Val::Num(Some(bool_num(a != 0 && b != 0)))),
        (Val::Num(None), Val::Num(Some(v))) | (Val::Num(Some(v)), Val::Num(None)) => Ok(
            Val::Num(if v != 0 { None } else { Some(0) }),
        ),
        (Val::Num(None), Val::Num(None)) => Ok(Val::Num(None)),
        _ => Err(Error::TypeMismatch),
    }
}

/// Three-valued disjunction: a decided true operand decides the result.
pub open spec fn spec_or(l: Val, r: Val) -> Result<Val, Error> {
    match (l, r) {
        (Val::Num(Some(a)), Val::Num(Some(b))) => Ok(Val::Num(Some(bool_num(a != 0 || b != 0)))),
        (Val::Num(None), Val::Num(Some(v))) | (Val::Num(Some(v)), Val::Num(None)) => Ok(
            Val::Num(if v != 0 { Some(1000) } else { None }),
        ),
        (Val::Num(None), Val::Num(None)) => Ok(Val::Num(None)),
        _ => Err(Error::TypeMismatch),
    }
}

/// The result of a binary operator; `Implies` has no evaluation.
pub open spec fn spec_bin_op(op: BinaryOperators, l: Val, r: Val) -> Result<Val, Error> {
    match op {
        BinaryOperators::Equal => spec_equals(l, r),
        BinaryOperators::NotEqual => spec_not_equals(l, r),
        BinaryOperators::Less => spec_less_than(l, r),
        BinaryOperators::Greater => spec_less_than(r, l),
        BinaryOperators::LessEqual => spec_less_equal(l, r),
        BinaryOperators::GreaterEqual => spec_less_equal(r, l),
        BinaryOperators::Plus => spec_plus(l, r),
        BinaryOperators::Minus => spec_minus(l, r),
        BinaryOperators::Times => spec_times(l, r),
        BinaryOperators::Divide => spec_divide(l, r),
        BinaryOperators::Mod => spec_modulo(l, r),
        BinaryOperators::Or => spec_or(l, r),
        BinaryOperators::And => spec_and(l, r),
        BinaryOperators::Implies => Err(Error::TypeMismatch),
    }
}

/// The result of a unary operator.
pub open spec fn spec_un_op(op: UnaryOperators, v: Val) -> Result<Val, Error> {
    match (op, v) {
        (UnaryOperators::Not, Val::Num(Some(x))) => Ok(Val::Num(Some(bool_num(x == 0)))),
        (UnaryOperators::Negative, Val::Num(Some(x))) => match (0i128).checked_sub(x) {
            Some(y) => Ok(Val::Num(Some(y))),
            None => Err(Error::ArithmeticOverflow),
        },
        (_, Val::Num(None)) => Ok(Val::Num(None)),
        _ => Err(Error::TypeMismatch),
    }
}

/// Whether two strings hold the same characters.
fn str_eq(a: &str, b: &str) -> (r: bool)
    ensures
        r == (a@ == b@),
{
    let x = a.to_owned();
    let y = b.to_owned();
    x == y
}

impl<'a> StreamValue<'a> {
    fn try_lift(self, rhs: Self, op: BinaryOperators) -> (r: Result<Self, Error>)
        requires
            op != BinaryOperators::Implies,
        ensures
            res_view(r) == spec_bin_op(op, self@, rhs@),
    {
        match (self, rhs) {
            (StreamValue::Number(Some(a)), StreamValue::Number(Some(b))) => {
                let c: Option<i128> = match op {
                    BinaryOperators::Equal => Some(if a == b { 1000 } else { 0 }),
                    BinaryOperators::NotEqual => Some(if a != b { 1000 } else { 0 }),
                    BinaryOperators::Less => Some(if a < b { 1000 } else { 0 }),
                    BinaryOperators::Greater => Some(if b < a { 1000 } else { 0 }),
                    BinaryOperators::LessEqual => Some(if a <= b { 1000 } else { 0 }),
                    BinaryOperators::GreaterEqual => Some(if b <= a { 1000 } else { 0 }),
                    BinaryOperators::Plus => a.checked_add(b),
                    BinaryOperators::Minus => a.checked_sub(b),
                    BinaryOperators::Times => Self::mul_num(a, b),
                    BinaryOperators::Divide => Self::div_num(a, b),
                    BinaryOperators::Mod => Self::mod_num(a, b),
                    BinaryOperators::Or => Some(if a != 0 || b != 0 { 1000 } else { 0 }),
                    _ => Some(if a != 0 && b != 0 { 1000 } else { 0 }),
                };
                match c {
                    Some(v) => Ok(StreamValue::Number(Some(v))),
                    None => Err(Error::ArithmeticOverflow),
                }
            },
            (StreamValue::Number(None), StreamValue::Number(Some(v)))
            | (StreamValue::Number(Some(v)), StreamValue::Number(None)) => match op {
                BinaryOperators::Or => Ok(StreamValue::Number(if v != 0 { Some(1000) } else { None })),
                BinaryOperators::And => Ok(StreamValue::Number(if v != 0 { None } else { Some(0) })),
                _ => Ok(StreamValue::Number(None)),
            },
            (StreamValue::Number(None), StreamValue::Number(None)) => Ok(StreamValue::Number(None)),
            (StreamValue::String(a), StreamValue::String(b)) => match op {
                BinaryOperators::Equal => Ok(StreamValue::Number(Some(if str_eq(a, b) { 1000 } else { 0 }))),
                BinaryOperators::NotEqual => Ok(StreamValue::Number(Some(if str_eq(a, b) { 0 } else { 1000 }))),
                _ => Err(Error::TypeMismatch),
            },
            _ => Err(Error::TypeMismatch),
        }
    }

    fn mul_num(m: i128, n: i128) -> (r: Option<i128>)
        ensures
            r == mul_fixed(m, n),
    {
        let m_int = match m.checked_div(1000) {
            Some(q) => q,
            None => 0,
        };
        let m_frac = match m.checked_rem(1000) {
            Some(q) => q,
            None => 0,
        };
        match (n.checked_mul(m_int), n.checked_mul(m_frac)) {
            (Some(whole), Some(p)) => {
                let frac = match p.checked_div(1000) {
                    Some(q) => q,
                    None => 0,
                };
                whole.checked_add(frac)
            },
            _ => None,
        }
    }

    fn div_num(a: i128, b: i128) -> (r: Option<i128>)
        ensures
            r == div_fixed(a, b),
    {
        let m_int = match b.checked_div(1000) {
            Some(q) => q,
            None => 0,
        };
        let m_frac = match b.checked_rem(1000) {
            Some(q) => q,
            None => 0,
        };
        let whole = match a.checked_div(m_int) {
            Some(q) => q,
            None => 0,
        };
        let frac = match a.checked_div(m_frac) {
            Some(q) => q,
            None => 0,
        };
        whole.checked_add(frac)
    }

    fn mod_num(a: i128, b: i128) -> (r: Option<i128>)
        ensures
            r == modulo_fixed(a, b),
    {
        let r1 = match a.checked_rem(b) {
            Some(q) => q,
            None => 0,
        };
        match r1.checked_add(b) {
            Some(s) => Some(
                match s.checked_rem(b) {
                    Some(q) => q,
                    None => 0,
                },
            ),
            None => None,
        }
    }
}

impl<'a> StreamValue<'a> {
    /// The truth value of a number: `Some(v != 0)`, `None` while undecided.
    pub fn get_verdict(&self) -> (r: Result<Option<bool>, Error>)
        ensures
            r == (match self@ {
                Val::Num(Some(v)) => Ok(Some(v != 0)),
                Val::Num(None) => Ok(None),
                Val::Str(_) => Err(Error::ValueStackVal),
            }),
    {
        match self {
            StreamValue::Number(v) => {
                if let Some(v) = v {
                    Ok(Some(*v != 0))
                } else {
                    Ok(None)
                }
            },
            _ => Err(Error::ValueStackVal),
        }
    }

    /// The number that the value holds.
    pub fn get_num(&self) -> (r: Result<Option<i128>, Error>)
        ensures
            r == (match self@ {
                Val::Num(v) => Ok(v),
                Val::Str(_) => Err(Error::ValueStackVal),
            }),
    {
        match self {
            StreamValue::Number(v) => Ok(*v),
            _ => Err(Error::ValueStackVal),
        }
    }

    /// Applies a binary operator.
    pub fn bin_op(self, rhs: Self, bin_op: &BinaryOperators) -> (r: Self)
        requires
            spec_bin_op(*bin_op, self@, rhs@) is Ok,
        ensures
            spec_bin_op(*bin_op, self@, rhs@) == Ok::<Val, Error>(r@),
    {
        match self.try_lift(rhs, *bin_op) {
            Ok(v) => v,
            Err(_) => StreamValue::Number(None),
        }
    }

    /// The remainder with the sign of the divisor.
    pub fn modulo(self, rhs: Self) -> (r: Self)
        requires
            spec_modulo(self@, rhs@) is Ok,
        ensures
            spec_modulo(self@, rhs@) == Ok::<Val, Error>(r@),
    {
        self.bin_op(rhs, &BinaryOperators::Mod)
    }

    pub fn equals(self, rhs: Self) -> (r: Self)
        requires
            spec_equals(self@, rhs@) is Ok,
        ensures
            spec_equals(self@, rhs@) == Ok::<Val, Error>(r@),
    {
        self.bin_op(rhs, &BinaryOperators::Equal)
    }

    pub fn not_equals(self, rhs: Self) -> (r: Self)
        requires
            spec_not_equals(self@, rhs@) is Ok,
        ensures
            spec_not_equals(self@, rhs@) == Ok::<Val, Error>(r@),
    {
        self.bin_op(rhs, &BinaryOperators::NotEqual)
    }

    pub fn and(&self, rhs: &Self) -> (r: Self)
        requires
            spec_and(self@, rhs@) is Ok,
        ensures
            spec_and(self@, rhs@) == Ok::<Val, Error>(r@),
    {
        (*self).bin_op(*rhs, &BinaryOperators::And)
    }

    pub fn or(&self, rhs: &Self) -> (r: Self)
        requires
            spec_or(self@, rhs@) is Ok,
        ensures
            spec_or(self@, rhs@) == Ok::<Val, Error>(r@),
    {
        (*self).bin_op(*rhs, &BinaryOperators::Or)
    }

    pub fn less_than(self, rhs: Self) -> (r: Self)
        requires
            spec_less_than(self@, rhs@) is Ok,
        ensures
            spec_less_than(self@, rhs@) == Ok::<Val, Error>(r@),
    {
        self.bin_op(rhs, &BinaryOperators::Less)
    }

    pub fn less_equal(self, rhs: Self) -> (r: Self)
        requires
            spec_less_equal(self@, rhs@) is Ok,
        ensures
            spec_less_equal(self@, rhs@) == Ok::<Val, Error>(r@),
    {
        self.bin_op(rhs, &BinaryOperators::LessEqual)
    }

    fn mul(self, rhs: Self) -> (r: Self)
        requires
            spec_times(self@, rhs@) is Ok,
        ensures
            spec_times(self@, rhs@) == Ok::<Val, Error>(r@),
    {
        self.bin_op(rhs, &BinaryOperators::Times)
    }

    fn div(self, rhs: Self) -> (r: Self)
        requires
            spec_divide(self@, rhs@) is Ok,
        ensures
            spec_divide(self@, rhs@) == Ok::<Val, Error>(r@),
    {
        self.bin_op(rhs, &BinaryOperators::Divide)
    }

    /// Applies a unary operator, reporting a string operand or an overflow.
    pub(crate) fn try_un_op(self, un_op: UnaryOperators) -> (r: Result<Self, Error>)
        ensures
            res_view(r) == spec_un_op(un_op, self@),
    {
        match (un_op, self) {
            (UnaryOperators::Not, StreamValue::Number(Some(v))) => Ok(
                StreamValue::Number(Some(if v == 0 { 1000 } else { 0 })),
            ),
            (UnaryOperators::Negative, StreamValue::Number(Some(v))) => match (0i128).checked_sub(v) {
                Some(w) => Ok(StreamValue::Number(Some(w))),
                None => Err(Error::ArithmeticOverflow),
            },
            (_, StreamValue::Number(None)) => Ok(StreamValue::Number(None)),
            _ => Err(Error::TypeMismatch),
        }
    }

    /// Applies a binary operator, reporting operands of the wrong kind and overflows.
    pub(crate) fn try_bin_op(self, rhs: Self, bin_op: BinaryOperators) -> (r: Result<Self, Error>)
        ensures
            res_view(r) == spec_bin_op(bin_op, self@, rhs@),
    {
        if bin_op == BinaryOperators::Implies {
            Err(Error::TypeMismatch)
        } else {
            self.try_lift(rhs, bin_op)
        }
    }

    /// Applies a unary operator.
    pub fn un_op(self, un_op: &UnaryOperators) -> (r: Self)
        requires
            spec_un_op(*un_op, self@) is Ok,
        ensures
            spec_un_op(*un_op, self@) == Ok::<Val, Error>(r@),
    {
        match self.try_un_op(*un_op) {
            Ok(v) => v,
            Err(_) => StreamValue::Number(None),
        }
    }
}

/// The stream value that stands for `v`, where `v` is a number.
pub open spec fn num_value<'a>(v: Result<Val, Error>) -> StreamValue<'a> {
    match v {
        Ok(Val::Num(x)) => StreamValue::Number(x),
        _ => StreamValue::Number(None),
    }
}

impl<'a> core::ops::Add for StreamValue<'a> {
    type Output = StreamValue<'a>;

    /// The sum of two numbers.
    fn add(self, rhs: Self) -> (r: Self)
        ensures
            spec_plus(self@, rhs@) == Ok::<Val, Error>(r@),
    {
        self.bin_op(rhs, &BinaryOperators::Plus)
    }
}

impl<'a> vstd::std_specs::ops::AddSpecImpl for StreamValue<'a> {
    open spec fn obeys_add_spec() -> bool {
        true
    }

    open spec fn add_req(self, rhs: Self) -> bool {
        spec_plus(self@, rhs@) is Ok
    }

    open spec fn add_spec(self, rhs: Self) -> Self {
        num_value(spec_plus(self@, rhs@))
    }
}

impl<'a> core::ops::Sub for StreamValue<'a> {
    type Output = StreamValue<'a>;

    /// The difference of two numbers.
    fn sub(self, rhs: Self) -> (r: Self)
        ensures
            spec_minus(self@, rhs@) == Ok::<Val, Error>(r@),
    {
        self.bin_op(rhs, &BinaryOperators::Minus)
    }
}

impl<'a> vstd::std_specs::ops::SubSpecImpl for StreamValue<'a> {
    open spec fn obeys_sub_spec() -> bool {
        true
    }

    open spec fn sub_req(self, rhs: Self) -> bool {
        spec_minus(self@, rhs@) is Ok
    }

    open spec fn sub_spec(self, rhs: Self) -> Self {
        num_value(spec_minus(self@, rhs@))
    }
}

impl<'a> From<i128> for StreamValue<'a> {
    fn from(value: i128) -> (r: Self)
        ensures
            r == StreamValue::<'a>::Number(Some(value)),
    {
        StreamValue::Number(Some(value))
    }
}

impl<'a> vstd::std_specs::convert::FromSpecImpl<i128> for StreamValue<'a> {
    open spec fn obeys_from_spec() -> bool {
        true
    }

    open spec fn from_spec(v: i128) -> Self {
        StreamValue::Number(Some(v))
    }
}

impl<'a> From<&'a String> for StreamValue<'a> {
    fn from(value: &'a String) -> (r: Self)
        ensures
            r@ == Val::Str(value@),
    {
        StreamValue::String(value.as_str())
    }
}

impl<'a> vstd::std_specs::convert::FromSpecImpl<&'a String> for StreamValue<'a> {
    open spec fn obeys_from_spec() -> bool {
        false
    }

    closed spec fn from_spec(v: &'a String) -> Self {
        arbitrary()
    }
}

/// The phase of an operation on the evaluation work list.
#[derive(PartialEq, Eq, Debug, Clone, Copy, Structural)]
pub enum StepType {
    Deepen,
    Reduce,
    ReducePartial,
}

/// An element of an evaluation stack, or the marker between two layers.
#[derive(Debug)]
pub enum StackElement<T> {
    Element(T),
    LayerShift,
}

impl<'a> From<&'a IoTDevice> for StackElement<&'a IoTDevice> {
    fn from(value: &'a IoTDevice) -> (r: Self)
        ensures
            r == StackElement::Element(value),
    {
        StackElement::Element(value)
    }
}

impl<'a> vstd::std_specs::convert::FromSpecImpl<&'a IoTDevice> for StackElement<&'a IoTDevice> {
    open spec fn obeys_from_spec() -> bool {
        true
    }

    open spec fn from_spec(v: &'a IoTDevice) -> Self {
        StackElement::Element(v)
    }
}

impl<T> StackElement<T> {
    /// The element, or an error for a layer marker.
    pub fn unpack_element(&self) -> (r: Result<&T, Error>)
        ensures
            r == (match self {
                StackElement::Element(v) => Ok(v),
                StackElement::LayerShift => Err(Error::WrongEnumType),
            }),
    {
        match self {
            StackElement::Element(v) => Ok(v),
            StackElement::LayerShift => Err(Error::WrongEnumType),
        }
    }
}

/// Conjunction, disjunction, equality and disequality do not depend on the
/// order of their operands.
pub proof fn lemma_symmetric_operators(l: Val, r: Val)
    ensures
        spec_and(l, r) == spec_and(r, l),
        spec_or(l, r) == spec_or(r, l),
        spec_equals(l, r) == spec_equals(r, l),
        spec_not_equals(l, r) == spec_not_equals(r, l),
{
}

/// A decided operand decides the three-valued logic where it can: a true
/// operand makes a disjunction true and a false operand makes a conjunction
/// false, whatever the other operand, undecided included.
pub proof fn lemma_three_valued_logic(v: i128, other: Option<i128>)
    ensures
        v != 0 ==> spec_or(Val::Num(Some(v)), Val::Num(other)) == Ok::<Val, Error>(Val::Num(Some(1000))),
        v == 0 ==> spec_and(Val::Num(Some(v)), Val::Num(other)) == Ok::<Val, Error>(Val::Num(Some(0))),
        spec_or(Val::Num(None), Val::Num(None)) == Ok::<Val, Error>(Val::Num(None)),
        spec_and(Val::Num(None), Val::Num(None)) == Ok::<Val, Error>(Val::Num(None)),
{
}

/// Whether a value is a decided truth value (`0` or `1_000`) or undecided.
pub open spec fn is_truth_value(v: Val) -> bool {
    match v {
        Val::Num(Some(x)) => x == 0 || x == 1000,
        Val::Num(None) => true,
        Val::Str(_) => false,
    }
}

/// Comparisons and the logical operators give truth values.
pub proof fn lemma_logical_results(op: BinaryOperators, l: Val, r: Val)
    requires
        op == BinaryOperators::Equal || op == BinaryOperators::NotEqual || op == BinaryOperators::Less
            || op == BinaryOperators::Greater || op == BinaryOperators::LessEqual || op
            == BinaryOperators::GreaterEqual || op == BinaryOperators::And || op == BinaryOperators::Or,
        spec_bin_op(op, l, r) is Ok,
    ensures
        is_truth_value(spec_bin_op(op, l, r)->Ok_0),
{
}

/// `Mod` by a positive divisor is the mathematical remainder, which is
/// never negative, wherever it does not overflow.
pub proof fn lemma_modulo_is_euclidean(a: i128, b: i128)
    requires
        b > 0,
        modulo_fixed(a, b) is Some,
    ensures
        modulo_fixed(a, b) == Some((a % b) as i128),
        0 <= modulo_fixed(a, b)->Some_0 < b,
{
    let x = a as int;
    let d = b as int;
    if a >= 0 {
        if a == 0 {
            vstd::arithmetic::div_mod::lemma_small_mod(0, d as nat);
        }
        assert(a.checked_rem(b) == Some((x % d) as i128));
        let r1 = x % d;
        assert(0 <= r1 < d) by (nonlinear_arith)
            requires
                d > 0,
                r1 == x % d,
        ;
        let s = r1 + d;
        assert(s % d == r1) by {
            vstd::arithmetic::div_mod::lemma_mod_add_multiples_vanish(r1, d);
            vstd::arithmetic::div_mod::lemma_small_mod(r1 as nat, d as nat);
        }
    } else {
        let na = -x;
        let r0 = na % d;
        assert(0 <= r0 < d) by (nonlinear_arith)
            requires
                d > 0,
                r0 == na % d,
        ;
        let r1 = -r0;
        let s = r1 + d;
        assert(x % d == (if r0 == 0 { 0 } else { d - r0 })) by {
            vstd::arithmetic::div_mod::lemma_fundamental_div_mod(na, d);
            vstd::arithmetic::div_mod::lemma_fundamental_div_mod(x, d);
            let q = na / d;
            if r0 == 0 {
                assert(x == d * (-q)) by (nonlinear_arith)
                    requires
                        na == d * q + r0,
                        r0 == 0,
                        x == -na,
                ;
                vstd::arithmetic::div_mod::lemma_mod_multiples_basic(-q, d);
                assert((-q) * d == d * (-q)) by (nonlinear_arith);
            } else {
                assert(x == d * (-q - 1) + (d - r0)) by (nonlinear_arith)
                    requires
                        na == d * q + r0,
                        x == -na,
                ;
                vstd::arithmetic::div_mod::lemma_mod_add_multiples_vanish(d - r0, d);
                vstd::arithmetic::div_mod::lemma_mod_multiples_vanish(-q - 1, d - r0, d);
                vstd::arithmetic::div_mod::lemma_small_mod((d - r0) as nat, d as nat);
            }
        }
        if r0 == 0 {
            assert(s % d == 0) by {
                vstd::arithmetic::div_mod::lemma_mod_self_0(d);
            }
        } else {
            assert(s % d == s) by {
                vstd::arithmetic::div_mod::lemma_small_mod(s as nat, d as nat);
            }
        }
    }
}


/// On decided numbers the comparisons give truth (`1_000`) exactly when
/// the relation holds between the two numbers and falsity (`0`) otherwise;
/// `and`, `or` and `not` treat every non-zero number as true; `+` and `-`
/// are exact wherever the result fits.
pub proof fn lemma_decided_operators(a: i128, b: i128)
    ensures
        spec_bin_op(BinaryOperators::Less, Val::Num(Some(a)), Val::Num(Some(b))) == Ok::<Val, Error>(
            Val::Num(Some(if a < b { 1000i128 } else { 0i128 })),
        ),
        spec_bin_op(BinaryOperators::Greater, Val::Num(Some(a)), Val::Num(Some(b))) == Ok::<Val, Error>(
            Val::Num(Some(if a > b { 1000i128 } else { 0i128 })),
        ),
        spec_bin_op(BinaryOperators::LessEqual, Val::Num(Some(a)), Val::Num(Some(b))) == Ok::<Val, Error>(
            Val::Num(Some(if a <= b { 1000i128 } else { 0i128 })),
        ),
        spec_bin_op(BinaryOperators::GreaterEqual, Val::Num(Some(a)), Val::Num(Some(b))) == Ok::<Val, Error>(
            Val::Num(Some(if a >= b { 1000i128 } else { 0i128 })),
        ),
        spec_bin_op(BinaryOperators::Equal, Val::Num(Some(a)), Val::Num(Some(b))) == Ok::<Val, Error>(
            Val::Num(Some(if a == b { 1000i128 } else { 0i128 })),
        ),
        spec_bin_op(BinaryOperators::NotEqual, Val::Num(Some(a)), Val::Num(Some(b))) == Ok::<Val, Error>(
            Val::Num(Some(if a != b { 1000i128 } else { 0i128 })),
        ),
        spec_bin_op(BinaryOperators::And, Val::Num(Some(a)), Val::Num(Some(b))) == Ok::<Val, Error>(
            Val::Num(Some(if a != 0 && b != 0 { 1000i128 } else { 0i128 })),
        ),
        spec_bin_op(BinaryOperators::Or, Val::Num(Some(a)), Val::Num(Some(b))) == Ok::<Val, Error>(
            Val::Num(Some(if a != 0 || b != 0 { 1000i128 } else { 0i128 })),
        ),
        spec_un_op(UnaryOperators::Not, Val::Num(Some(a))) == Ok::<Val, Error>(
            Val::Num(Some(if a == 0 { 1000i128 } else { 0i128 })),
        ),
        a != i128::MIN ==> spec_un_op(UnaryOperators::Negative, Val::Num(Some(a))) == Ok::<Val, Error>(
            Val::Num(Some((-a) as i128)),
        ),
        i128::MIN <= a + b <= i128::MAX ==> spec_bin_op(BinaryOperators::Plus, Val::Num(Some(a)), Val::Num(Some(b)))
            == Ok::<Val, Error>(Val::Num(Some((a + b) as i128))),
        i128::MIN <= a - b <= i128::MAX ==> spec_bin_op(BinaryOperators::Minus, Val::Num(Some(a)), Val::Num(Some(b)))
            == Ok::<Val, Error>(Val::Num(Some((a - b) as i128))),
{
}

/// Strings compare equal exactly when they hold the same characters.
pub proof fn lemma_string_equality(s: Seq<char>, t: Seq<char>)
    ensures
        spec_bin_op(BinaryOperators::Equal, Val::Str(s), Val::Str(t)) == Ok::<Val, Error>(
            Val::Num(Some(if s == t { 1000i128 } else { 0i128 })),
        ),
        spec_bin_op(BinaryOperators::NotEqual, Val::Str(s), Val::Str(t)) == Ok::<Val, Error>(
            Val::Num(Some(if s != t { 1000i128 } else { 0i128 })),
        ),
{
}

/// Division of `x` by a positive `d`, rounded toward zero.
pub open spec fn trunc_div(x: int, d: int) -> int {
    if x >= 0 {
        x / d
    } else {
        -((-x) / d)
    }
}

proof fn lemma_trunc_div_split(k: int, r: int)
    requires
        (k >= 0 && r >= 0) || (k <= 0 && r <= 0),
    ensures
        trunc_div(1000 * k + r, 1000) == k + trunc_div(r, 1000),
{
    if k >= 0 && r >= 0 {
        vstd::arithmetic::div_mod::lemma_fundamental_div_mod(r, 1000);
        let q = r / 1000;
        let m = r % 1000;
        vstd::arithmetic::div_mod::lemma_fundamental_div_mod_converse(1000 * k + r, 1000, k + q, m);
    } else {
        let nr = -r;
        vstd::arithmetic::div_mod::lemma_fundamental_div_mod(nr, 1000);
        let q = nr / 1000;
        let m = nr % 1000;
        vstd::arithmetic::div_mod::lemma_fundamental_div_mod_converse(-(1000 * k + r), 1000, -k + q, m);
        if r == 0 {
            if k == 0 {
            }
        }
    }
}

/// The fixed-point product is the exact product scaled back by `1_000`,
/// rounded toward zero, wherever the exact product fits in an `i128`; in
/// particular it is symmetric in the sign of each operand.
#[verifier::spinoff_prover]
pub proof fn lemma_times_rounds_toward_zero(a: i128, b: i128)
    requires
        i128::MIN <= a * b <= i128::MAX,
    ensures
        spec_bin_op(BinaryOperators::Times, Val::Num(Some(a)), Val::Num(Some(b))) == Ok::<Val, Error>(
            Val::Num(Some(trunc_div(a * b, 1000) as i128)),
        ),
{
    let m = a as int;
    let n = b as int;
    let (q, r) = if m >= 0 {
        (m / 1000, m % 1000)
    } else {
        (-((-m) / 1000), -((-m) % 1000))
    };
    if m >= 0 {
        vstd::arithmetic::div_mod::lemma_fundamental_div_mod(m, 1000);
    } else {
        vstd::arithmetic::div_mod::lemma_fundamental_div_mod(-m, 1000);
    }
    assert(m == 1000 * q + r);
    assert(-1000 < r < 1000);
    assert((q >= 0 && r >= 0) || (q <= 0 && r <= 0));
    assert(a.checked_div(1000) == Some(q as i128));
    assert(a.checked_rem(1000) == Some(r as i128));
    assert(n * m == 1000 * (n * q) + n * r) by (nonlinear_arith)
        requires
            m == 1000 * q + r,
    ;
    assert((0 <= q <= m) || (m <= q <= 0));
    assert((0 <= r <= m) || (m <= r <= 0));
    lemma_part_between(n, q, m);
    lemma_part_between(n, r, m);
    assert(a * b == n * m) by (nonlinear_arith)
        requires
            m == a,
            n == b,
    ;
    assert(b.checked_mul(q as i128) == Some((n * q) as i128));
    assert(b.checked_mul(r as i128) == Some((n * r) as i128));
    let p = n * r;
    let frac = trunc_div(p, 1000);
    assert((n * q >= 0 && p >= 0) || (n * q <= 0 && p <= 0)) by (nonlinear_arith)
        requires
            (q >= 0 && r >= 0) || (q <= 0 && r <= 0),
            p == n * r,
    ;
    lemma_trunc_div_split(n * q, p);
    assert((p as i128).checked_div(1000) == Some(frac as i128)) by {
        if p >= 0 {
            assert(0 <= p / 1000 <= p) by {
                vstd::arithmetic::div_mod::lemma_div_pos_is_pos(p, 1000);
                vstd::arithmetic::div_mod::lemma_div_is_ordered_by_denominator(p, 1, 1000);
            }
        } else {
            assert(0 <= (-p) / 1000 <= -p) by {
                vstd::arithmetic::div_mod::lemma_div_pos_is_pos(-p, 1000);
                vstd::arithmetic::div_mod::lemma_div_is_ordered_by_denominator(-p, 1, 1000);
            }
        }
    }
    assert(trunc_div(n * m, 1000) == n * q + frac);
    assert(b * a == a * b) by (nonlinear_arith);
    assert(mul_fixed(a, b) == Some(trunc_div(a * b, 1000) as i128));
}

proof fn lemma_part_between(n: int, s: int, m: int)
    by (nonlinear_arith)
    requires
        (0 <= s <= m) || (m <= s <= 0),
    ensures
        (0 <= n * s <= n * m) || (n * m <= n * s <= 0),
{
}


/// `|x|`.
pub open spec fn abs_int(x: int) -> int {
    if x >= 0 {
        x
    } else {
        -x
    }
}

/// `x` divided by a non-zero `y`, rounded toward zero.
pub open spec fn trunc_quot(x: int, y: int) -> int {
    if (x >= 0) == (y > 0) || x == 0 {
        abs_int(x) / abs_int(y)
    } else {
        -(abs_int(x) / abs_int(y))
    }
}

/// Dividing by a whole fixed-point number (`1_000 * k`) divides the
/// dividend by `k`, rounded toward zero, so the quotient is again in fixed
/// point; dividing by `0` gives `0`.
pub proof fn lemma_divide_by_whole(a: i128, k: int)
    requires
        k != 0,
        i128::MIN <= 1000 * k <= i128::MAX,
        !(a == i128::MIN && k == -1),
    ensures
        spec_bin_op(BinaryOperators::Divide, Val::Num(Some(a)), Val::Num(Some((1000 * k) as i128))) == Ok::<
            Val,
            Error,
        >(Val::Num(Some(trunc_quot(a as int, k) as i128))),
        spec_bin_op(BinaryOperators::Divide, Val::Num(Some(a)), Val::Num(Some(0))) == Ok::<Val, Error>(
            Val::Num(Some(0)),
        ),
{
    let b = 1000 * k;
    if b > 0 {
        vstd::arithmetic::div_mod::lemma_fundamental_div_mod_converse(b, 1000, k, 0);
    } else {
        vstd::arithmetic::div_mod::lemma_fundamental_div_mod_converse(-b, 1000, -k, 0);
    }
    assert((b as i128).checked_div(1000) == Some(k as i128));
    assert((b as i128).checked_rem(1000) == Some(0i128));
    let x = a as int;
    let q = trunc_quot(x, k);
    assert(abs_int(x) / abs_int(k) <= abs_int(x)) by {
        vstd::arithmetic::div_mod::lemma_div_is_ordered_by_denominator(abs_int(x), 1, abs_int(k));
    }
    assert(0 <= abs_int(x) / abs_int(k)) by {
        vstd::arithmetic::div_mod::lemma_div_pos_is_pos(abs_int(x), abs_int(k));
    }
    if x == i128::MIN {
        assert(abs_int(k) >= 2 || k == 1);
        if abs_int(k) >= 2 {
            assert(abs_int(x) / abs_int(k) <= abs_int(x) / 2) by {
                vstd::arithmetic::div_mod::lemma_div_is_ordered_by_denominator(abs_int(x), 2, abs_int(k));
            }
        }
    }
    assert(a.checked_div(k as i128) == Some(q as i128));
}

/// `mod` by a zero divisor gives `0`.
pub proof fn lemma_modulo_by_zero(a: i128)
    ensures
        spec_bin_op(BinaryOperators::Mod, Val::Num(Some(a)), Val::Num(Some(0))) == Ok::<Val, Error>(
            Val::Num(Some(0)),
        ),
{
}

} // verus!

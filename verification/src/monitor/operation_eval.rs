use vstd::prelude::*;

use crate::errors::Error;
use crate::monitor::streams::{devs_view, IoTDevice, IoTStream, OutputStream};
use crate::monitor::types::{
    res_view, spec_bin_op, spec_plus, spec_un_op, StreamValue, Val, Verdict,
};
use crate::monitor_setup::operation_types::{DerivedStream, MIITLType};
use crate::program::member_types::MemberType;
use crate::program::operations::{BinaryOperators, UnaryOperators};

verus! {

/// The state of a device: its name and its power.
pub type Dev = (Seq<char>, i128);

/// What an evaluation step works on: the compiled property, the recorded
/// device states, the time point at which the verdict is asked for and the
/// current time.
pub struct Ctx {
    pub ops: Seq<DerivedStream>,
    pub devs: Seq<Seq<Dev>>,
    pub t_spawn: i128,
    pub t_cur: i128,
}

/// What an evaluation step gives: the value, and the device that member
/// accesses see afterwards.
pub type Out = (Result<Val, Error>, Option<Dev>);

/// The devices recorded for time point `t`: the record is a ring over its
/// length.
pub open spec fn devices_at(c: Ctx, t: i128) -> Option<Seq<Dev>> {
    if c.devs.len() == 0 {
        None
    } else {
        Some(c.devs[t as int % c.devs.len() as int])
    }
}

pub open spec fn ptr_view(p: Option<&IoTDevice>) -> Option<Dev> {
    match p {
        Some(d) => Some(d@),
        None => None,
    }
}

/// The verdict of a bounded temporal operator from what its time points
/// gave: `always` is false once one point is false and true once all are
/// true; `eventually` is true once one point is true and false once all are
/// false; otherwise it is undecided.
pub open spec fn miitl_verdict(ty: MIITLType, seen_true: bool, seen_false: bool, seen_undecided: bool) -> Val {
    match ty {
        MIITLType::Always => if seen_false {
            Val::Num(Some(0))
        } else if seen_undecided {
            Val::Num(None)
        } else {
            Val::Num(Some(1000))
        },
        MIITLType::Eventually => if seen_true {
            Val::Num(Some(1000))
        } else if seen_undecided {
            Val::Num(None)
        } else {
            Val::Num(Some(0))
        },
    }
}

/// The value of operation `i` of a compiled property, with the time offset
/// `t_off` and the current device `ptr`. `fuel` bounds the depth of the
/// evaluation; a well-formed property never exhausts `ops.len()`.
pub open spec fn eval_node(c: Ctx, i: int, t_off: i128, ptr: Option<Dev>, fuel: nat) -> Out
    decreases fuel, 0nat,
{
    if fuel == 0 || !(0 <= i < c.ops.len()) {
        (Err(Error::MalformedProgram), ptr)
    } else {
        match c.ops[i] {
            DerivedStream::Number(v) => (Ok(Val::Num(Some(v))), ptr),
            DerivedStream::String(s) => (Ok(Val::Str(s@)), ptr),
            DerivedStream::Member(m) => match ptr {
                None => (Err(Error::DevicePointer), ptr),
                Some(d) => match m {
                    MemberType::Power => (Ok(Val::Num(Some(d.1))), ptr),
                    MemberType::Name => (Ok(Val::Str(d.0)), ptr),
                },
            },
            DerivedStream::SpawnTime => match t_off.checked_mul(1000) {
                Some(x) => (Ok(Val::Num(Some(x))), ptr),
                None => (Err(Error::ArithmeticOverflow), ptr),
            },
            DerivedStream::Size => match devices_at(c, c.t_spawn) {
                Some(ds) => (Ok(Val::Num(Some(ds.len() as i128))), ptr),
                None => (Err(Error::OutOfBoundsIoTStream), ptr),
            },
            DerivedStream::Sum { idx } => match devices_at(c, t_off) {
                Some(ds) => sum_rest(c, idx as int, t_off, ds, ds.len(), Val::Num(Some(0)), ptr, (fuel - 1) as nat),
                None => (Err(Error::OutOfBoundsIoTStream), ptr),
            },
            DerivedStream::Foreach { idx } => match devices_at(c, t_off) {
                Some(ds) => foreach_rest(c, idx as int, t_off, ds, ds.len(), Val::Num(Some(1)), ptr, (fuel - 1) as nat),
                None => (Err(Error::OutOfBoundsIoTStream), ptr),
            },
            DerivedStream::Sumtime { interval_len, idx } => match t_off.checked_add(interval_len) {
                Some(end) => if c.t_cur < end {
                    (Ok(Val::Num(None)), ptr)
                } else {
                    sumtime_rest(c, idx as int, t_off as int, end as int, Val::Num(Some(0)), ptr, (fuel - 1) as nat)
                },
                None => (Err(Error::ArithmeticOverflow), ptr),
            },
            DerivedStream::Miitl { miitl_type, bound, idx } => match (t_off.checked_add(bound.0), t_off.checked_add(bound.1)) {
                (Some(lo), Some(hi)) => miitl_rest(c, idx as int, miitl_type, lo as int, hi as int, false, false, false, ptr, (fuel - 1) as nat),
                _ => (Err(Error::ArithmeticOverflow), ptr),
            },
            DerivedStream::Binary { bin_op, idx_lhs, idx_rhs } => {
                let (r1, p1) = eval_node(c, idx_lhs as int, t_off, ptr, (fuel - 1) as nat);
                match r1 {
                    Err(e) => (Err(e), p1),
                    Ok(v1) => {
                        let (r2, p2) = eval_node(c, idx_rhs as int, t_off, p1, (fuel - 1) as nat);
                        match r2 {
                            Err(e) => (Err(e), p2),
                            Ok(v2) => (spec_bin_op(bin_op, v1, v2), p2),
                        }
                    },
                }
            },
            DerivedStream::Unary { un_op, idx } => {
                let (r1, p1) = eval_node(c, idx as int, t_off, ptr, (fuel - 1) as nat);
                match r1 {
                    Err(e) => (Err(e), p1),
                    Ok(v) => (spec_un_op(un_op, v), p1),
                }
            },
        }
    }
}

/// Sums operation `child` over the devices `ds[k - 1]`, ..., `ds[0]` (in
/// that order), each in turn the current device, onto `acc`.
pub open spec fn sum_rest(c: Ctx, child: int, t_off: i128, ds: Seq<Dev>, k: nat, acc: Val, ptr: Option<Dev>, fuel: nat) -> Out
    decreases fuel, k,
{
    if k == 0 {
        (Ok(acc), None)
    } else {
        let (r, p) = eval_node(c, child, t_off, Some(ds[k - 1]), fuel);
        match r {
            Err(e) => (Err(e), p),
            Ok(v) => match spec_plus(v, acc) {
                Err(e) => (Err(e), p),
                Ok(a) => sum_rest(c, child, t_off, ds, (k - 1) as nat, a, p, fuel),
            },
        }
    }
}

/// Checks operation `child` over the devices `ds[k - 1]`, ..., `ds[0]` while
/// the last value is a decided, non-zero number; gives the last value.
pub open spec fn foreach_rest(c: Ctx, child: int, t_off: i128, ds: Seq<Dev>, k: nat, last: Val, ptr: Option<Dev>, fuel: nat) -> Out
    decreases fuel, k,
{
    let go = k > 0 && match last {
        Val::Num(Some(v)) => v != 0,
        _ => false,
    };
    if !go {
        (Ok(last), ptr)
    } else {
        let (r, p) = eval_node(c, child, t_off, Some(ds[k - 1]), fuel);
        match r {
            Err(e) => (Err(e), p),
            Ok(v) => foreach_rest(c, child, t_off, ds, (k - 1) as nat, v, p, fuel),
        }
    }
}

/// Sums operation `child` over the time offsets `p`, `p - 1`, ..., `lo`
/// onto `acc`.
pub open spec fn sumtime_rest(c: Ctx, child: int, lo: int, p: int, acc: Val, ptr: Option<Dev>, fuel: nat) -> Out
    decreases fuel, (p - lo + 1) as nat,
{
    if p < lo {
        (Ok(acc), ptr)
    } else {
        let (r, q) = eval_node(c, child, p as i128, ptr, fuel);
        match r {
            Err(e) => (Err(e), q),
            Ok(v) => match spec_plus(v, acc) {
                Err(e) => (Err(e), q),
                Ok(a) => sumtime_rest(c, child, lo, p - 1, a, q, fuel),
            },
        }
    }
}

/// Evaluates operation `child` at the time offsets `p`, `p + 1`, ..., `hi`
/// that are not later than the current time, and gives the verdict of the
/// bounded operator; later offsets count as undecided.
pub open spec fn miitl_rest(
    c: Ctx,
    child: int,
    ty: MIITLType,
    p: int,
    hi: int,
    seen_true: bool,
    seen_false: bool,
    seen_undecided: bool,
    ptr: Option<Dev>,
    fuel: nat,
) -> Out
    decreases fuel, (hi - p + 1) as nat,
{
    if p > hi {
        (Ok(miitl_verdict(ty, seen_true, seen_false, seen_undecided)), ptr)
    } else if p > c.t_cur {
        (Ok(miitl_verdict(ty, seen_true, seen_false, true)), ptr)
    } else {
        let (r, q) = eval_node(c, child, p as i128, ptr, fuel);
        match r {
            Err(e) => (Err(e), q),
            Ok(Val::Num(Some(v))) => miitl_rest(c, child, ty, p + 1, hi, seen_true || v != 0, seen_false || v == 0, seen_undecided, q, fuel),
            Ok(Val::Num(None)) => miitl_rest(c, child, ty, p + 1, hi, seen_true, seen_false, true, q, fuel),
            Ok(Val::Str(_)) => (Err(Error::TypeMismatch), q),
        }
    }
}

/// The verdict that evaluation gives a property at `t_spawn`, asked at
/// time `t_cur`: a decided number, `None` while undecided, or an error.
pub open spec fn eval_result(ops: Seq<DerivedStream>, devs: Seq<Seq<Dev>>, t_spawn: i128, t_cur: i128) -> Result<Option<i128>, Error> {
    let c = Ctx { ops, devs, t_spawn, t_cur };
    match eval_node(c, 0, t_spawn, None, ops.len()).0 {
        Ok(Val::Num(v)) => Ok(v),
        Ok(Val::Str(_)) => Err(Error::ValueStackVal),
        Err(e) => Err(e),
    }
}

/// The result of an evaluation step, seen through the views of its parts.
pub open spec fn out_view<'a>(r: (Result<StreamValue<'a>, Error>, Option<&'a IoTDevice>)) -> Out {
    (res_view(r.0), ptr_view(r.1))
}

/// The fixed inputs of one evaluation.
pub struct EvalEnv<'a> {
    pub ops: &'a [DerivedStream],
    pub devices: &'a IoTStream,
    pub t_spawn: i128,
    pub t_cur: i128,
}

impl<'a> EvalEnv<'a> {
    pub open spec fn ctx(&self) -> Ctx {
        Ctx { ops: self.ops@, devs: self.devices@, t_spawn: self.t_spawn, t_cur: self.t_cur }
    }
}

fn devices_at_exec<'a>(devices: &'a IoTStream, t: i128) -> (r: Option<&'a Vec<IoTDevice>>)
    ensures
        match r {
            None => devices@.len() == 0,
            Some(v) => devices@.len() > 0 && devs_view(v@) == devices@[t as int % devices@.len() as int],
        },
{
    let n = devices.len();
    if n == 0 {
        return None;
    }
    let m: i128 = n as i128;
    match t.checked_rem_euclid(m) {
        Some(k) => Some(devices.get_devices(k as usize)),
        None => None,
    }
}

fn miitl_verdict_exec<'a>(ty: MIITLType, seen_true: bool, seen_false: bool, seen_undecided: bool) -> (r: StreamValue<'a>)
    ensures
        r@ == miitl_verdict(ty, seen_true, seen_false, seen_undecided),
{
    match ty {
        MIITLType::Always => if seen_false {
            StreamValue::Number(Some(0))
        } else if seen_undecided {
            StreamValue::Number(None)
        } else {
            StreamValue::Number(Some(1000))
        },
        MIITLType::Eventually => if seen_true {
            StreamValue::Number(Some(1000))
        } else if seen_undecided {
            StreamValue::Number(None)
        } else {
            StreamValue::Number(Some(0))
        },
    }
}

fn is_decided_true(v: &StreamValue) -> (r: bool)
    ensures
        r == (match v@ {
            Val::Num(Some(x)) => x != 0,
            _ => false,
        }),
{
    match v {
        StreamValue::Number(Some(x)) => *x != 0,
        _ => false,
    }
}

/// Evaluates operation `i`.
fn eval_at<'a>(env: &EvalEnv<'a>, i: usize, t_off: i128, ptr: Option<&'a IoTDevice>, fuel: usize) -> (r: (
    Result<StreamValue<'a>, Error>,
    Option<&'a IoTDevice>,
))
    ensures
        out_view(r) == eval_node(env.ctx(), i as int, t_off, ptr_view(ptr), fuel as nat),
    decreases fuel, 0nat,
{
    let ops: &'a [DerivedStream] = env.ops;
    if fuel == 0 || i >= ops.len() {
        return (Err(Error::MalformedProgram), ptr);
    }
    match &ops[i] {
        DerivedStream::Number(v) => (Ok(StreamValue::Number(Some(*v))), ptr),
        DerivedStream::String(s) => (Ok(StreamValue::String(s.as_str())), ptr),
        DerivedStream::Member(m) => match ptr {
            None => (Err(Error::DevicePointer), ptr),
            Some(d) => match m {
                MemberType::Power => (Ok(StreamValue::Number(Some(d.power))), ptr),
                MemberType::Name => (Ok(StreamValue::String(d.name.as_str())), ptr),
            },
        },
        DerivedStream::SpawnTime => match t_off.checked_mul(1000) {
            Some(x) => (Ok(StreamValue::Number(Some(x))), ptr),
            None => (Err(Error::ArithmeticOverflow), ptr),
        },
        DerivedStream::Size => match devices_at_exec(env.devices, env.t_spawn) {
            Some(ds) => (Ok(StreamValue::Number(Some(ds.len() as i128))), ptr),
            None => (Err(Error::OutOfBoundsIoTStream), ptr),
        },
        DerivedStream::Sum { idx } => match devices_at_exec(env.devices, t_off) {
            Some(ds) => eval_sum(env, *idx, t_off, ds, ptr, fuel - 1),
            None => (Err(Error::OutOfBoundsIoTStream), ptr),
        },
        DerivedStream::Foreach { idx } => match devices_at_exec(env.devices, t_off) {
            Some(ds) => eval_foreach(env, *idx, t_off, ds, ptr, fuel - 1),
            None => (Err(Error::OutOfBoundsIoTStream), ptr),
        },
        DerivedStream::Sumtime { interval_len, idx } => match t_off.checked_add(*interval_len) {
            Some(end) => if env.t_cur < end {
                (Ok(StreamValue::Number(None)), ptr)
            } else {
                eval_sumtime(env, *idx, t_off, end, ptr, fuel - 1)
            },
            None => (Err(Error::ArithmeticOverflow), ptr),
        },
        DerivedStream::Miitl { miitl_type, bound, idx } => match (t_off.checked_add(bound.0), t_off.checked_add(bound.1)) {
            (Some(lo), Some(hi)) => eval_miitl(env, *idx, *miitl_type, lo, hi, ptr, fuel - 1),
            _ => (Err(Error::ArithmeticOverflow), ptr),
        },
        DerivedStream::Binary { bin_op, idx_lhs, idx_rhs } => {
            let (r1, p1) = eval_at(env, *idx_lhs, t_off, ptr, fuel - 1);
            match r1 {
                Err(e) => (Err(e), p1),
                Ok(v1) => {
                    let (r2, p2) = eval_at(env, *idx_rhs, t_off, p1, fuel - 1);
                    match r2 {
                        Err(e) => (Err(e), p2),
                        Ok(v2) => (v1.try_bin_op(v2, *bin_op), p2),
                    }
                },
            }
        },
        DerivedStream::Unary { un_op, idx } => {
            let (r1, p1) = eval_at(env, *idx, t_off, ptr, fuel - 1);
            match r1 {
                Err(e) => (Err(e), p1),
                Ok(v) => (v.try_un_op(*un_op), p1),
            }
        },
    }
}

/// Sums operation `child` over the devices of one time point.
fn eval_sum<'a>(
    env: &EvalEnv<'a>,
    child: usize,
    t_off: i128,
    ds: &'a Vec<IoTDevice>,
    ptr: Option<&'a IoTDevice>,
    fuel: usize,
) -> (r: (Result<StreamValue<'a>, Error>, Option<&'a IoTDevice>))
    ensures
        out_view(r) == sum_rest(env.ctx(), child as int, t_off, devs_view(ds@), ds@.len(), Val::Num(Some(0)), ptr_view(ptr), fuel as nat),
    decreases fuel, 1nat,
{
    let ghost dsv = devs_view(ds@);
    let ghost target = sum_rest(env.ctx(), child as int, t_off, dsv, ds@.len(), Val::Num(Some(0)), ptr_view(ptr), fuel as nat);
    let mut k = ds.len();
    let mut acc: StreamValue<'a> = StreamValue::Number(Some(0));
    let mut p = ptr;
    while k > 0
        invariant
            k <= ds@.len(),
            dsv == devs_view(ds@),
            target == sum_rest(env.ctx(), child as int, t_off, dsv, ds@.len(), Val::Num(Some(0)), ptr_view(ptr), fuel as nat),
            target == sum_rest(env.ctx(), child as int, t_off, dsv, k as nat, acc@, ptr_view(p), fuel as nat),
        decreases k,
    {
        let d: &'a IoTDevice = &ds[k - 1];
        assert(dsv[k - 1] == d@);
        let (r, q) = eval_at(env, child, t_off, Some(d), fuel);
        match r {
            Err(e) => {
                return (Err(e), q);
            },
            Ok(v) => match v.try_bin_op(acc, BinaryOperators::Plus) {
                Err(e) => {
                    return (Err(e), q);
                },
                Ok(a) => {
                    acc = a;
                    p = q;
                },
            },
        }
        k = k - 1;
    }
    (Ok(acc), None)
}

/// Checks operation `child` over the devices of one time point while it
/// holds.
fn eval_foreach<'a>(
    env: &EvalEnv<'a>,
    child: usize,
    t_off: i128,
    ds: &'a Vec<IoTDevice>,
    ptr: Option<&'a IoTDevice>,
    fuel: usize,
) -> (r: (Result<StreamValue<'a>, Error>, Option<&'a IoTDevice>))
    ensures
        out_view(r) == foreach_rest(env.ctx(), child as int, t_off, devs_view(ds@), ds@.len(), Val::Num(Some(1)), ptr_view(ptr), fuel as nat),
    decreases fuel, 1nat,
{
    let ghost dsv = devs_view(ds@);
    let ghost target = foreach_rest(env.ctx(), child as int, t_off, dsv, ds@.len(), Val::Num(Some(1)), ptr_view(ptr), fuel as nat);
    let mut k = ds.len();
    let mut last: StreamValue<'a> = StreamValue::Number(Some(1));
    let mut p = ptr;
    while k > 0 && is_decided_true(&last)
        invariant
            k <= ds@.len(),
            dsv == devs_view(ds@),
            target == foreach_rest(env.ctx(), child as int, t_off, dsv, ds@.len(), Val::Num(Some(1)), ptr_view(ptr), fuel as nat),
            target == foreach_rest(env.ctx(), child as int, t_off, dsv, k as nat, last@, ptr_view(p), fuel as nat),
        decreases k,
    {
        let d: &'a IoTDevice = &ds[k - 1];
        assert(dsv[k - 1] == d@);
        let (r, q) = eval_at(env, child, t_off, Some(d), fuel);
        match r {
            Err(e) => {
                return (Err(e), q);
            },
            Ok(v) => {
                last = v;
                p = q;
            },
        }
        k = k - 1;
    }
    (Ok(last), p)
}

/// Sums operation `child` over the time offsets `end`, `end - 1`, ..., `lo`.
fn eval_sumtime<'a>(
    env: &EvalEnv<'a>,
    child: usize,
    lo: i128,
    end: i128,
    ptr: Option<&'a IoTDevice>,
    fuel: usize,
) -> (r: (Result<StreamValue<'a>, Error>, Option<&'a IoTDevice>))
    ensures
        out_view(r) == sumtime_rest(env.ctx(), child as int, lo as int, end as int, Val::Num(Some(0)), ptr_view(ptr), fuel as nat),
    decreases fuel, 1nat,
{
    let ghost target = sumtime_rest(env.ctx(), child as int, lo as int, end as int, Val::Num(Some(0)), ptr_view(ptr), fuel as nat);
    let mut acc: StreamValue<'a> = StreamValue::Number(Some(0));
    if end < lo {
        return (Ok(acc), ptr);
    }
    let mut t: i128 = end;
    let mut p = ptr;
    loop
        invariant
            lo <= t,
            target == sumtime_rest(env.ctx(), child as int, lo as int, end as int, Val::Num(Some(0)), ptr_view(ptr), fuel as nat),
            target == sumtime_rest(env.ctx(), child as int, lo as int, t as int, acc@, ptr_view(p), fuel as nat),
        decreases t - lo,
    {
        let (r, q) = eval_at(env, child, t, p, fuel);
        match r {
            Err(e) => {
                return (Err(e), q);
            },
            Ok(v) => match v.try_bin_op(acc, BinaryOperators::Plus) {
                Err(e) => {
                    return (Err(e), q);
                },
                Ok(a) => {
                    acc = a;
                    p = q;
                },
            },
        }
        if t == lo {
            assert(sumtime_rest(env.ctx(), child as int, lo as int, t - 1, acc@, ptr_view(p), fuel as nat) == (
            Ok::<Val, Error>(acc@), ptr_view(p)));
            return (Ok(acc), p);
        }
        t = t - 1;
    }
}

/// Evaluates a bounded temporal operator over the offsets `lo` to `hi`.
fn eval_miitl<'a>(
    env: &EvalEnv<'a>,
    child: usize,
    ty: MIITLType,
    lo: i128,
    hi: i128,
    ptr: Option<&'a IoTDevice>,
    fuel: usize,
) -> (r: (Result<StreamValue<'a>, Error>, Option<&'a IoTDevice>))
    ensures
        out_view(r) == miitl_rest(env.ctx(), child as int, ty, lo as int, hi as int, false, false, false, ptr_view(ptr), fuel as nat),
    decreases fuel, 1nat,
{
    let ghost target = miitl_rest(env.ctx(), child as int, ty, lo as int, hi as int, false, false, false, ptr_view(ptr), fuel as nat);
    let mut seen_true = false;
    let mut seen_false = false;
    let mut seen_undecided = false;
    if lo > hi {
        return (Ok(miitl_verdict_exec(ty, seen_true, seen_false, seen_undecided)), ptr);
    }
    let mut t: i128 = lo;
    let mut p = ptr;
    loop
        invariant
            lo <= t <= hi,
            target == miitl_rest(env.ctx(), child as int, ty, lo as int, hi as int, false, false, false, ptr_view(ptr), fuel as nat),
            target == miitl_rest(env.ctx(), child as int, ty, t as int, hi as int, seen_true, seen_false, seen_undecided, ptr_view(p), fuel as nat),
        decreases hi - t,
    {
        if t > env.t_cur {
            return (Ok(miitl_verdict_exec(ty, seen_true, seen_false, true)), p);
        }
        let (r, q) = eval_at(env, child, t, p, fuel);
        match r {
            Err(e) => {
                return (Err(e), q);
            },
            Ok(StreamValue::Number(Some(v))) => {
                seen_true = seen_true || v != 0;
                seen_false = seen_false || v == 0;
            },
            Ok(StreamValue::Number(None)) => {
                seen_undecided = true;
            },
            Ok(StreamValue::String(_)) => {
                return (Err(Error::TypeMismatch), q);
            },
        }
        p = q;
        if t == hi {
            assert(miitl_rest(env.ctx(), child as int, ty, t + 1, hi as int, seen_true, seen_false, seen_undecided, ptr_view(p), fuel as nat) == (
            Ok::<Val, Error>(miitl_verdict(ty, seen_true, seen_false, seen_undecided)), ptr_view(p)));
            return (Ok(miitl_verdict_exec(ty, seen_true, seen_false, seen_undecided)), p);
        }
        t = t + 1;
    }
}

/// Evaluates a compiled property for the time point `t_spawn` at the
/// current time `t_current`: the decided number, `None` while undecided.
pub fn eval_operations(
    operations: &[DerivedStream],
    devices: &IoTStream,
    t_spawn: &i128,
    t_current: &i128,
) -> (r: Result<Option<i128>, Error>)
    ensures
        r == eval_result(operations@, devices@, *t_spawn, *t_current),
{
    let env = EvalEnv { ops: operations, devices, t_spawn: *t_spawn, t_cur: *t_current };
    let (r, _) = eval_at(&env, 0, *t_spawn, None, operations.len());
    match r {
        Ok(v) => v.get_num(),
        Err(e) => Err(e),
    }
}

/// The verdict that a decided or undecided number stands for.
pub open spec fn verdict_of(v: Option<i128>) -> Verdict {
    match v {
        Some(0) => Verdict::False,
        Some(_) => Verdict::True,
        None => Verdict::Undecided,
    }
}

/// Gives the time points from index `i` on the verdict of the property at
/// time `t_cur`; stops at the first error, leaving the later ones as they
/// were.
pub open spec fn update_from(
    tps: Seq<(i128, Verdict)>,
    i: nat,
    ops: Seq<DerivedStream>,
    devs: Seq<Seq<Dev>>,
    t_cur: i128,
) -> (Seq<(i128, Verdict)>, Result<(), Error>)
    decreases tps.len() - i,
{
    if i >= tps.len() {
        (tps, Ok(()))
    } else {
        match eval_result(ops, devs, tps[i as int].0, t_cur) {
            Err(e) => (tps, Err(e)),
            Ok(v) => update_from(tps.update(i as int, (tps[i as int].0, verdict_of(v))), i + 1, ops, devs, t_cur),
        }
    }
}

impl OutputStream {
    /// Gives every open time point the verdict of the property at time
    /// `t_current`.
    pub fn update(&mut self, t_current: i128, devices: &IoTStream) -> (r: Result<(), Error>)
        ensures
            (final(self).unresolved_timepoints@, r) == update_from(
                old(self).unresolved_timepoints@,
                0,
                old(self).derived_streams@,
                devices@,
                t_current,
            ),
            final(self).derived_streams == old(self).derived_streams,
    {
        let ghost ops = self.derived_streams@;
        let ghost target = update_from(self.unresolved_timepoints@, 0, ops, devices@, t_current);
        let mut i: usize = 0;
        while i < self.unresolved_timepoints.len()
            invariant
                ops == self.derived_streams@,
                self.derived_streams == old(self).derived_streams,
                ops == old(self).derived_streams@,
                target == update_from(old(self).unresolved_timepoints@, 0, ops, devices@, t_current),
                i <= self.unresolved_timepoints@.len(),
                target == update_from(self.unresolved_timepoints@, i as nat, ops, devices@, t_current),
            decreases self.unresolved_timepoints@.len() - i,
        {
            let t_spawn = self.unresolved_timepoints[i].0;
            let v = eval_operations(self.derived_streams.as_slice(), devices, &t_spawn, &t_current);
            match v {
                Err(e) => {
                    return Err(e);
                },
                Ok(v) => {
                    let verdict = match v {
                        Some(0) => Verdict::False,
                        Some(_) => Verdict::True,
                        None => Verdict::Undecided,
                    };
                    self.unresolved_timepoints.set(i, (t_spawn, verdict));
                },
            }
            i = i + 1;
        }
        Ok(())
    }
}

/// A time function stays undecided until its window has closed: before the
/// current time reaches the end of the window, its value is undecided and
/// the device history is not read.
pub proof fn lemma_sumtime_undecided_until_window_closes(c: Ctx, i: int, t_off: i128, ptr: Option<Dev>, fuel: nat)
    requires
        fuel > 0,
        0 <= i < c.ops.len(),
        c.ops[i] matches DerivedStream::Sumtime { interval_len, .. } && t_off + interval_len <= i128::MAX
            && c.t_cur < t_off + interval_len,
    ensures
        eval_node(c, i, t_off, ptr, fuel) == (Ok::<Val, Error>(Val::Num(None)), ptr),
{
}

/// A bounded temporal operator whose interval lies wholly after the current
/// time is undecided.
pub proof fn lemma_miitl_undecided_before_interval(c: Ctx, i: int, t_off: i128, ptr: Option<Dev>, fuel: nat)
    requires
        fuel > 0,
        0 <= i < c.ops.len(),
        c.ops[i] matches DerivedStream::Miitl { bound, .. } && bound.0 <= bound.1 && i128::MIN <= t_off + bound.0
            && t_off + bound.1 <= i128::MAX && c.t_cur < t_off + bound.0,
    ensures
        eval_node(c, i, t_off, ptr, fuel) == (Ok::<Val, Error>(Val::Num(None)), ptr),
{
    if let DerivedStream::Miitl { miitl_type, bound, idx } = c.ops[i] {
        let lo = (t_off + bound.0) as int;
        let hi = (t_off + bound.1) as int;
        assert(miitl_rest(c, idx as int, miitl_type, lo, hi, false, false, false, ptr, (fuel - 1) as nat) == (
        Ok::<Val, Error>(miitl_verdict(miitl_type, false, false, true)), ptr));
    }
}

/// How far after its time offset operation `i` looks: the windows of time
/// functions and the upper bounds of temporal operators (where positive)
/// add up along a path, and the longest path counts.
pub open spec fn horizon(ops: Seq<DerivedStream>, i: int, fuel: nat) -> nat
    decreases fuel,
{
    if fuel == 0 || !(0 <= i < ops.len()) {
        0
    } else {
        match ops[i] {
            DerivedStream::Sum { idx } | DerivedStream::Foreach { idx } | DerivedStream::Unary { idx, .. } => horizon(
                ops,
                idx as int,
                (fuel - 1) as nat,
            ),
            DerivedStream::Sumtime { idx, interval_len } => (if interval_len > 0 {
                interval_len as nat
            } else {
                0nat
            }) + horizon(ops, idx as int, (fuel - 1) as nat),
            DerivedStream::Miitl { idx, bound, .. } => (if bound.1 > 0 {
                bound.1 as nat
            } else {
                0nat
            }) + horizon(ops, idx as int, (fuel - 1) as nat),
            DerivedStream::Binary { idx_lhs, idx_rhs, .. } => {
                let l = horizon(ops, idx_lhs as int, (fuel - 1) as nat);
                let r = horizon(ops, idx_rhs as int, (fuel - 1) as nat);
                if l >= r {
                    l
                } else {
                    r
                }
            },
            _ => 0,
        }
    }
}

/// The same evaluation asked at current time `t`.
pub open spec fn at_time(c: Ctx, t: i128) -> Ctx {
    Ctx { ops: c.ops, devs: c.devs, t_spawn: c.t_spawn, t_cur: t }
}

proof fn lemma_settled_node(c: Ctx, t2: i128, i: int, t_off: i128, ptr: Option<Dev>, fuel: nat)
    requires
        t2 >= c.t_cur,
        c.t_cur >= t_off + horizon(c.ops, i, fuel),
    ensures
        eval_node(at_time(c, t2), i, t_off, ptr, fuel) == eval_node(c, i, t_off, ptr, fuel),
    decreases fuel, 0nat,
{
    let c2 = at_time(c, t2);
    if fuel == 0 || !(0 <= i < c.ops.len()) {
    } else {
        let f = (fuel - 1) as nat;
        match c.ops[i] {
            DerivedStream::Sum { idx } => {
                if let Some(ds) = devices_at(c, t_off) {
                    lemma_settled_sum(c, t2, idx as int, t_off, ds, ds.len(), Val::Num(Some(0)), ptr, f);
                }
            },
            DerivedStream::Foreach { idx } => {
                if let Some(ds) = devices_at(c, t_off) {
                    lemma_settled_foreach(c, t2, idx as int, t_off, ds, ds.len(), Val::Num(Some(1)), ptr, f);
                }
            },
            DerivedStream::Sumtime { interval_len, idx } => {
                if let Some(end) = t_off.checked_add(interval_len) {
                    lemma_settled_sumtime(c, t2, idx as int, t_off as int, end as int, Val::Num(Some(0)), ptr, f);
                }
            },
            DerivedStream::Miitl { miitl_type, bound, idx } => {
                if let (Some(lo), Some(hi)) = (t_off.checked_add(bound.0), t_off.checked_add(bound.1)) {
                    lemma_settled_miitl(c, t2, idx as int, miitl_type, lo as int, hi as int, false, false, false, ptr, f);
                }
            },
            DerivedStream::Binary { bin_op, idx_lhs, idx_rhs } => {
                lemma_settled_node(c, t2, idx_lhs as int, t_off, ptr, f);
                let (r1, p1) = eval_node(c, idx_lhs as int, t_off, ptr, f);
                lemma_settled_node(c, t2, idx_rhs as int, t_off, p1, f);
            },
            DerivedStream::Unary { un_op, idx } => {
                lemma_settled_node(c, t2, idx as int, t_off, ptr, f);
            },
            _ => {},
        }
    }
}

proof fn lemma_settled_sum(
    c: Ctx,
    t2: i128,
    child: int,
    t_off: i128,
    ds: Seq<Dev>,
    k: nat,
    acc: Val,
    ptr: Option<Dev>,
    fuel: nat,
)
    requires
        t2 >= c.t_cur,
        c.t_cur >= t_off + horizon(c.ops, child, fuel),
    ensures
        sum_rest(at_time(c, t2), child, t_off, ds, k, acc, ptr, fuel) == sum_rest(c, child, t_off, ds, k, acc, ptr, fuel),
    decreases fuel, k,
{
    if k > 0 {
        lemma_settled_node(c, t2, child, t_off, Some(ds[k - 1]), fuel);
        let (r, p) = eval_node(c, child, t_off, Some(ds[k - 1]), fuel);
        if let Ok(v) = r {
            if let Ok(a) = spec_plus(v, acc) {
                lemma_settled_sum(c, t2, child, t_off, ds, (k - 1) as nat, a, p, fuel);
            }
        }
    }
}

proof fn lemma_settled_foreach(
    c: Ctx,
    t2: i128,
    child: int,
    t_off: i128,
    ds: Seq<Dev>,
    k: nat,
    last: Val,
    ptr: Option<Dev>,
    fuel: nat,
)
    requires
        t2 >= c.t_cur,
        c.t_cur >= t_off + horizon(c.ops, child, fuel),
    ensures
        foreach_rest(at_time(c, t2), child, t_off, ds, k, last, ptr, fuel) == foreach_rest(
            c,
            child,
            t_off,
            ds,
            k,
            last,
            ptr,
            fuel,
        ),
    decreases fuel, k,
{
    if k > 0 {
        lemma_settled_node(c, t2, child, t_off, Some(ds[k - 1]), fuel);
        let (r, p) = eval_node(c, child, t_off, Some(ds[k - 1]), fuel);
        if let Ok(v) = r {
            lemma_settled_foreach(c, t2, child, t_off, ds, (k - 1) as nat, v, p, fuel);
        }
    }
}

proof fn lemma_settled_sumtime(c: Ctx, t2: i128, child: int, lo: int, p: int, acc: Val, ptr: Option<Dev>, fuel: nat)
    requires
        t2 >= c.t_cur,
        i128::MIN <= lo,
        p <= i128::MAX,
        c.t_cur >= p + horizon(c.ops, child, fuel),
    ensures
        sumtime_rest(at_time(c, t2), child, lo, p, acc, ptr, fuel) == sumtime_rest(c, child, lo, p, acc, ptr, fuel),
    decreases fuel, (p - lo + 1) as nat,
{
    if p >= lo {
        lemma_settled_node(c, t2, child, p as i128, ptr, fuel);
        let (r, q) = eval_node(c, child, p as i128, ptr, fuel);
        if let Ok(v) = r {
            if let Ok(a) = spec_plus(v, acc) {
                lemma_settled_sumtime(c, t2, child, lo, p - 1, a, q, fuel);
            }
        }
    }
}

proof fn lemma_settled_miitl(
    c: Ctx,
    t2: i128,
    child: int,
    ty: MIITLType,
    p: int,
    hi: int,
    seen_true: bool,
    seen_false: bool,
    seen_undecided: bool,
    ptr: Option<Dev>,
    fuel: nat,
)
    requires
        t2 >= c.t_cur,
        i128::MIN <= p,
        hi <= i128::MAX,
        c.t_cur >= hi + horizon(c.ops, child, fuel),
    ensures
        miitl_rest(at_time(c, t2), child, ty, p, hi, seen_true, seen_false, seen_undecided, ptr, fuel) == miitl_rest(
            c,
            child,
            ty,
            p,
            hi,
            seen_true,
            seen_false,
            seen_undecided,
            ptr,
            fuel,
        ),
    decreases fuel, (hi - p + 1) as nat,
{
    if p <= hi {
        lemma_settled_node(c, t2, child, p as i128, ptr, fuel);
        let (r, q) = eval_node(c, child, p as i128, ptr, fuel);
        match r {
            Ok(Val::Num(Some(v))) => lemma_settled_miitl(
                c,
                t2,
                child,
                ty,
                p + 1,
                hi,
                seen_true || v != 0,
                seen_false || v == 0,
                seen_undecided,
                q,
                fuel,
            ),
            Ok(Val::Num(None)) => lemma_settled_miitl(c, t2, child, ty, p + 1, hi, seen_true, seen_false, true, q, fuel),
            _ => {},
        }
    }
}

/// Once the current time has passed the horizon of a property evaluated at
/// time point `t_spawn`, asking again later gives the same verdict.
pub proof fn lemma_verdict_settles(
    ops: Seq<DerivedStream>,
    devs: Seq<Seq<Dev>>,
    t_spawn: i128,
    t_cur: i128,
    t_later: i128,
)
    requires
        t_cur >= t_spawn + horizon(ops, 0, ops.len()),
        t_later >= t_cur,
    ensures
        eval_result(ops, devs, t_spawn, t_later) == eval_result(ops, devs, t_spawn, t_cur),
{
    let c = Ctx { ops, devs, t_spawn, t_cur };
    lemma_settled_node(c, t_later, 0, t_spawn, None, ops.len());
    assert(at_time(c, t_later) == Ctx { ops, devs, t_spawn, t_cur: t_later });
}

/// Whether `r` is a decided number.
pub open spec fn decided(r: Result<Val, Error>) -> bool {
    r matches Ok(Val::Num(Some(_)))
}

/// The number that a decided result holds.
pub open spec fn value_of(r: Result<Val, Error>) -> int {
    match r {
        Ok(Val::Num(Some(v))) => v as int,
        _ => 0,
    }
}

/// Whether an integer fits in an `i128`.
pub open spec fn fits(x: int) -> bool {
    i128::MIN <= x <= i128::MAX
}

/// What operation `child` gives at offset `t_off` with `d` as the current
/// device.
pub open spec fn device_value(c: Ctx, child: int, t_off: i128, d: Dev, fuel: nat) -> Result<Val, Error> {
    eval_node(c, child, t_off, Some(d), fuel).0
}

/// Operation `child` is decided for each of the devices `ds`.
pub open spec fn all_decided(c: Ctx, child: int, t_off: i128, ds: Seq<Dev>, fuel: nat) -> bool {
    forall|j: int| 0 <= j < ds.len() ==> decided(#[trigger] device_value(c, child, t_off, ds[j], fuel))
}

/// Operation `child` is decided false (`0`) for one of the devices `ds`.
pub open spec fn some_false(c: Ctx, child: int, t_off: i128, ds: Seq<Dev>, fuel: nat) -> bool {
    exists|j: int|
        0 <= j < ds.len() && #[trigger] device_value(c, child, t_off, ds[j], fuel) == Ok::<Val, Error>(
            Val::Num(Some(0)),
        )
}

/// Operation `child` gives the decided number `vals(j)` for each device
/// `ds[j]`.
pub open spec fn device_values_are(
    c: Ctx,
    child: int,
    t_off: i128,
    ds: Seq<Dev>,
    fuel: nat,
    vals: spec_fn(int) -> i128,
) -> bool {
    forall|j: int|
        0 <= j < ds.len() ==> #[trigger] device_value(c, child, t_off, ds[j], fuel) == Ok::<Val, Error>(
            Val::Num(Some(vals(j))),
        )
}

/// The sum of `vals(j)` over the indices `j` below `k`.
pub open spec fn prefix_sum(vals: spec_fn(int) -> i128, k: int) -> int
    decreases k,
{
    if k <= 0 {
        0
    } else {
        prefix_sum(vals, k - 1) + vals(k - 1)
    }
}

/// Every partial sum of `vals(0)`, ..., `vals(n - 1)`, taken from either
/// end, fits in an `i128`.
pub open spec fn prefix_sums_fit(vals: spec_fn(int) -> i128, n: int) -> bool {
    forall|j: int|
        0 <= j <= n ==> fits(#[trigger] prefix_sum(vals, j)) && fits(prefix_sum(vals, n) - prefix_sum(vals, j))
}

/// What operation `child` gives at time offset `q` with `pt` as the current
/// device.
pub open spec fn offset_value(c: Ctx, child: int, q: int, pt: Option<Dev>, fuel: nat) -> Result<Val, Error> {
    eval_node(c, child, q as i128, pt, fuel).0
}

/// At each time offset from `lo` to `hi`, operation `child` gives the
/// decided number `vals(q)`, whatever the current device.
pub open spec fn offset_values_are(
    c: Ctx,
    child: int,
    lo: int,
    hi: int,
    fuel: nat,
    vals: spec_fn(int) -> i128,
) -> bool {
    forall|q: int, pt: Option<Dev>|
        lo <= q <= hi ==> #[trigger] offset_value(c, child, q, pt, fuel) == Ok::<Val, Error>(Val::Num(Some(vals(q))))
}

/// The sum of `vals(q)` over the integers `q` from `lo` to `hi`.
pub open spec fn window_sum(vals: spec_fn(int) -> i128, lo: int, hi: int) -> int
    decreases hi - lo + 1,
{
    if lo > hi {
        0
    } else {
        vals(lo) + window_sum(vals, lo + 1, hi)
    }
}

/// Every partial sum `vals(q) + ... + vals(hi)` fits in an `i128`.
pub open spec fn window_sums_fit(vals: spec_fn(int) -> i128, lo: int, hi: int) -> bool {
    forall|q: int| lo <= q <= hi + 1 ==> fits(#[trigger] window_sum(vals, q, hi))
}

/// Some `vals(q)` with `lo <= q <= hi` is `0`.
pub open spec fn some_zero(vals: spec_fn(int) -> i128, lo: int, hi: int) -> bool {
    exists|q: int| lo <= q <= hi && #[trigger] vals(q) == 0
}

/// Some `vals(q)` with `lo <= q <= hi` is not `0`.
pub open spec fn some_nonzero(vals: spec_fn(int) -> i128, lo: int, hi: int) -> bool {
    exists|q: int| lo <= q <= hi && #[trigger] vals(q) != 0
}

proof fn lemma_foreach_rest_all(
    c: Ctx,
    child: int,
    t_off: i128,
    ds: Seq<Dev>,
    k: nat,
    l: i128,
    ptr: Option<Dev>,
    fuel: nat,
)
    requires
        k <= ds.len(),
        l != 0,
        all_decided(c, child, t_off, ds, fuel),
    ensures
        decided(foreach_rest(c, child, t_off, ds, k, Val::Num(Some(l)), ptr, fuel).0),
        (value_of(foreach_rest(c, child, t_off, ds, k, Val::Num(Some(l)), ptr, fuel).0) == 0) == some_false(
            c,
            child,
            t_off,
            ds.take(k as int),
            fuel,
        ),
    decreases k,
{
    let sk = ds.take(k as int);
    if k == 0 {
        assert(!some_false(c, child, t_off, sk, fuel));
    } else {
        let j0 = k - 1;
        assert(decided(device_value(c, child, t_off, ds[j0], fuel)));
        let (r, p) = eval_node(c, child, t_off, Some(ds[j0]), fuel);
        let v = r->Ok_0->Num_0->Some_0;
        assert(r == Ok::<Val, Error>(Val::Num(Some(v))));
        let sp = ds.take(k - 1);
        assert(sk[j0] == ds[j0]);
        if v == 0 {
            assert(foreach_rest(c, child, t_off, ds, (k - 1) as nat, Val::Num(Some(0)), p, fuel) == (
            Ok::<Val, Error>(Val::Num(Some(0))), p));
            assert(device_value(c, child, t_off, sk[j0], fuel) == Ok::<Val, Error>(Val::Num(Some(0))));
        } else {
            lemma_foreach_rest_all(c, child, t_off, ds, (k - 1) as nat, v, p, fuel);
            if some_false(c, child, t_off, sk, fuel) {
                let j = choose|j: int|
                    0 <= j < sk.len() && #[trigger] device_value(c, child, t_off, sk[j], fuel) == Ok::<Val, Error>(
                        Val::Num(Some(0)),
                    );
                assert(j != j0);
                assert(sp[j] == sk[j]);
                assert(device_value(c, child, t_off, sp[j], fuel) == Ok::<Val, Error>(Val::Num(Some(0))));
            }
            if some_false(c, child, t_off, sp, fuel) {
                let j = choose|j: int|
                    0 <= j < sp.len() && #[trigger] device_value(c, child, t_off, sp[j], fuel) == Ok::<Val, Error>(
                        Val::Num(Some(0)),
                    );
                assert(sp[j] == sk[j]);
                assert(device_value(c, child, t_off, sk[j], fuel) == Ok::<Val, Error>(Val::Num(Some(0))));
            }
        }
    }
}

/// A `foreach` whose operand is decided for every device of the time point
/// is decided, and it is false (`0`) exactly when the operand is false for
/// some device; over no devices it is true.
pub proof fn lemma_foreach_all_devices(
    c: Ctx,
    i: int,
    child: usize,
    t_off: i128,
    ds: Seq<Dev>,
    ptr: Option<Dev>,
    fuel: nat,
)
    requires
        fuel > 0,
        0 <= i < c.ops.len(),
        c.ops[i] == (DerivedStream::Foreach { idx: child }),
        devices_at(c, t_off) == Some(ds),
        all_decided(c, child as int, t_off, ds, (fuel - 1) as nat),
    ensures
        decided(eval_node(c, i, t_off, ptr, fuel).0),
        (value_of(eval_node(c, i, t_off, ptr, fuel).0) == 0) == some_false(c, child as int, t_off, ds, (fuel - 1) as nat),
{
    lemma_foreach_rest_all(c, child as int, t_off, ds, ds.len(), 1, ptr, (fuel - 1) as nat);
    assert(ds.take(ds.len() as int) =~= ds);
}

proof fn lemma_sum_rest_total(
    c: Ctx,
    child: int,
    t_off: i128,
    ds: Seq<Dev>,
    k: nat,
    vals: spec_fn(int) -> i128,
    ptr: Option<Dev>,
    fuel: nat,
)
    requires
        k <= ds.len(),
        device_values_are(c, child, t_off, ds, fuel, vals),
        prefix_sums_fit(vals, ds.len() as int),
    ensures
        sum_rest(
            c,
            child,
            t_off,
            ds,
            k,
            Val::Num(Some((prefix_sum(vals, ds.len() as int) - prefix_sum(vals, k as int)) as i128)),
            ptr,
            fuel,
        ).0 == Ok::<Val, Error>(Val::Num(Some(prefix_sum(vals, ds.len() as int) as i128))),
    decreases k,
{
    if k > 0 {
        let total = prefix_sum(vals, ds.len() as int);
        let acc = total - prefix_sum(vals, k as int);
        assert(device_value(c, child, t_off, ds[k - 1], fuel) == Ok::<Val, Error>(Val::Num(Some(vals(k - 1)))));
        let (r, p) = eval_node(c, child, t_off, Some(ds[k - 1]), fuel);
        assert(r == Ok::<Val, Error>(Val::Num(Some(vals(k - 1)))));
        assert(prefix_sum(vals, k as int) == prefix_sum(vals, k - 1) + vals(k - 1));
        assert(fits(prefix_sum(vals, k as int)));
        assert(fits(total - prefix_sum(vals, k as int)));
        assert(fits(prefix_sum(vals, k - 1)));
        assert(fits(total - prefix_sum(vals, k - 1)));
        assert(spec_plus(Val::Num(Some(vals(k - 1))), Val::Num(Some(acc as i128))) == Ok::<Val, Error>(
            Val::Num(Some((total - prefix_sum(vals, k - 1)) as i128)),
        ));
        lemma_sum_rest_total(c, child, t_off, ds, (k - 1) as nat, vals, p, fuel);
    }
}

/// A `sum` over the devices of a time point adds up the values of its
/// operand for every device, wherever the partial sums fit.
pub proof fn lemma_sum_adds_devices(
    c: Ctx,
    i: int,
    child: usize,
    t_off: i128,
    ds: Seq<Dev>,
    vals: spec_fn(int) -> i128,
    ptr: Option<Dev>,
    fuel: nat,
)
    requires
        fuel > 0,
        0 <= i < c.ops.len(),
        c.ops[i] == (DerivedStream::Sum { idx: child }),
        devices_at(c, t_off) == Some(ds),
        device_values_are(c, child as int, t_off, ds, (fuel - 1) as nat, vals),
        prefix_sums_fit(vals, ds.len() as int),
    ensures
        eval_node(c, i, t_off, ptr, fuel).0 == Ok::<Val, Error>(Val::Num(Some(prefix_sum(vals, ds.len() as int) as i128))),
{
    let total = prefix_sum(vals, ds.len() as int);
    assert(total - prefix_sum(vals, ds.len() as int) == 0);
    lemma_sum_rest_total(c, child as int, t_off, ds, ds.len(), vals, ptr, (fuel - 1) as nat);
}

proof fn lemma_sumtime_rest_sum(
    c: Ctx,
    child: int,
    lo: int,
    p: int,
    hi: int,
    vals: spec_fn(int) -> i128,
    ptr: Option<Dev>,
    fuel: nat,
)
    requires
        lo - 1 <= p <= hi,
        i128::MIN <= lo,
        hi <= i128::MAX,
        offset_values_are(c, child, lo, hi, fuel, vals),
        window_sums_fit(vals, lo, hi),
    ensures
        sumtime_rest(c, child, lo, p, Val::Num(Some(window_sum(vals, p + 1, hi) as i128)), ptr, fuel).0
            == Ok::<Val, Error>(Val::Num(Some(window_sum(vals, lo, hi) as i128))),
    decreases p - lo + 1,
{
    if p >= lo {
        assert(offset_value(c, child, p, ptr, fuel) == Ok::<Val, Error>(Val::Num(Some(vals(p)))));
        let (r, q) = eval_node(c, child, p as i128, ptr, fuel);
        assert(r == Ok::<Val, Error>(Val::Num(Some(vals(p)))));
        assert(window_sum(vals, p, hi) == vals(p) + window_sum(vals, p + 1, hi));
        assert(fits(window_sum(vals, p, hi)));
        assert(fits(window_sum(vals, p + 1, hi)));
        lemma_sumtime_rest_sum(c, child, lo, p - 1, hi, vals, q, fuel);
    } else {
        assert(fits(window_sum(vals, lo, hi)));
    }
}

/// Once its window has closed, a time function at offset `t_off` with
/// window `len` adds up its operand evaluated at each time offset `t_off`,
/// `t_off + 1`, ..., `t_off + len` (each reading the devices recorded for
/// that point), wherever the partial sums fit; `vals(q)` is the operand's
/// value at offset `q`, which here does not depend on the current device.
pub proof fn lemma_sumtime_sums_window(
    c: Ctx,
    i: int,
    len: i128,
    child: usize,
    t_off: i128,
    vals: spec_fn(int) -> i128,
    ptr: Option<Dev>,
    fuel: nat,
)
    requires
        fuel > 0,
        0 <= i < c.ops.len(),
        c.ops[i] == (DerivedStream::Sumtime { interval_len: len, idx: child }),
        0 <= len,
        t_off + len <= i128::MAX,
        c.t_cur >= t_off + len,
        offset_values_are(c, child as int, t_off as int, t_off + len, (fuel - 1) as nat, vals),
        window_sums_fit(vals, t_off as int, t_off + len),
    ensures
        eval_node(c, i, t_off, ptr, fuel).0 == Ok::<Val, Error>(Val::Num(Some(window_sum(vals, t_off as int, t_off + len) as i128))),
{
    let hi = t_off + len;
    assert(window_sum(vals, hi + 1, hi) == 0);
    lemma_sumtime_rest_sum(c, child as int, t_off as int, hi, hi, vals, ptr, (fuel - 1) as nat);
}

proof fn lemma_miitl_rest_all(
    c: Ctx,
    child: int,
    ty: MIITLType,
    lo: int,
    p: int,
    hi: int,
    vals: spec_fn(int) -> i128,
    ptr: Option<Dev>,
    fuel: nat,
)
    requires
        lo <= p <= hi + 1,
        i128::MIN <= lo,
        hi <= i128::MAX,
        hi <= c.t_cur,
        offset_values_are(c, child, lo, hi, fuel, vals),
    ensures
        miitl_rest(c, child, ty, p, hi, some_nonzero(vals, lo, p - 1), some_zero(vals, lo, p - 1), false, ptr, fuel).0
            == Ok::<Val, Error>(miitl_verdict(ty, some_nonzero(vals, lo, hi), some_zero(vals, lo, hi), false)),
    decreases hi - p + 1,
{
    let st = some_nonzero(vals, lo, p - 1);
    let sf = some_zero(vals, lo, p - 1);
    if p <= hi {
        assert(offset_value(c, child, p, ptr, fuel) == Ok::<Val, Error>(Val::Num(Some(vals(p)))));
        let (r, q) = eval_node(c, child, p as i128, ptr, fuel);
        assert(r == Ok::<Val, Error>(Val::Num(Some(vals(p)))));
        let v = vals(p);
        assert((st || v != 0) == some_nonzero(vals, lo, p)) by {
            if some_nonzero(vals, lo, p) && !(v != 0) {
                let w = choose|q: int| lo <= q <= p && #[trigger] vals(q) != 0;
                assert(lo <= w <= p - 1 && vals(w) != 0);
            }
        }
        assert((sf || v == 0) == some_zero(vals, lo, p)) by {
            if some_zero(vals, lo, p) && !(v == 0) {
                let w = choose|q: int| lo <= q <= p && #[trigger] vals(q) == 0;
                assert(lo <= w <= p - 1 && vals(w) == 0);
            }
        }
        lemma_miitl_rest_all(c, child, ty, lo, p + 1, hi, vals, q, fuel);
    }
}

/// Once its interval has passed, a bounded `always` is false (`0`) exactly
/// when its operand is false at some time offset of the interval, and true
/// (`1_000`) otherwise; a bounded `eventually` is true exactly when its
/// operand is true at some offset, and false otherwise. `vals(q)` is the
/// operand's decided value at offset `q`, which here does not depend on the
/// current device.
pub proof fn lemma_bounded_operators(
    c: Ctx,
    i: int,
    ty: MIITLType,
    bound: (i128, i128),
    child: usize,
    t_off: i128,
    vals: spec_fn(int) -> i128,
    ptr: Option<Dev>,
    fuel: nat,
)
    requires
        fuel > 0,
        0 <= i < c.ops.len(),
        c.ops[i] == (DerivedStream::Miitl { miitl_type: ty, bound, idx: child }),
        fits(t_off + bound.0),
        fits(t_off + bound.1),
        t_off + bound.1 <= c.t_cur,
        offset_values_are(c, child as int, t_off + bound.0, t_off + bound.1, (fuel - 1) as nat, vals),
    ensures
        ty == MIITLType::Always ==> value_of(eval_node(c, i, t_off, ptr, fuel).0) == (if some_zero(
            vals,
            t_off + bound.0,
            t_off + bound.1,
        ) {
            0int
        } else {
            1000int
        }),
        ty == MIITLType::Eventually ==> value_of(eval_node(c, i, t_off, ptr, fuel).0) == (if some_nonzero(
            vals,
            t_off + bound.0,
            t_off + bound.1,
        ) {
            1000int
        } else {
            0int
        }),
        decided(eval_node(c, i, t_off, ptr, fuel).0),
{
    let lo = t_off + bound.0;
    let hi = t_off + bound.1;
    assert(!some_nonzero(vals, lo, lo - 1));
    assert(!some_zero(vals, lo, lo - 1));
    if lo <= hi + 1 {
        lemma_miitl_rest_all(c, child as int, ty, lo, lo, hi, vals, ptr, (fuel - 1) as nat);
    } else {
        assert(!some_nonzero(vals, lo, hi));
        assert(!some_zero(vals, lo, hi));
    }
    let st = some_nonzero(vals, lo, hi);
    let sf = some_zero(vals, lo, hi);
    assert(t_off.checked_add(bound.0) == Some(lo as i128));
    assert(t_off.checked_add(bound.1) == Some(hi as i128));
    assert(eval_node(c, i, t_off, ptr, fuel) == miitl_rest(
        c,
        child as int,
        ty,
        lo,
        hi,
        false,
        false,
        false,
        ptr,
        (fuel - 1) as nat,
    ));
    assert(eval_node(c, i, t_off, ptr, fuel).0 == Ok::<Val, Error>(miitl_verdict(ty, st, sf, false)));
}

/// The operations without operands: a constant gives itself, the spawn
/// time gives the time offset in fixed point (`t_off * 1_000`), the size
/// gives the number of devices recorded for the spawn time point, and a
/// member gives the power or the name of the current device, or fails
/// where there is none.
pub proof fn lemma_leaf_values(c: Ctx, i: int, t_off: i128, ptr: Option<Dev>, fuel: nat)
    requires
        fuel > 0,
        0 <= i < c.ops.len(),
    ensures
        c.ops[i] matches DerivedStream::Number(v) ==> eval_node(c, i, t_off, ptr, fuel) == (
            Ok::<Val, Error>(Val::Num(Some(v))),
            ptr,
        ),
        c.ops[i] matches DerivedStream::String(st) ==> eval_node(c, i, t_off, ptr, fuel) == (
            Ok::<Val, Error>(Val::Str(st@)),
            ptr,
        ),
        (c.ops[i] is SpawnTime && fits(t_off * 1000)) ==> eval_node(c, i, t_off, ptr, fuel).0 == Ok::<Val, Error>(
            Val::Num(Some((t_off * 1000) as i128)),
        ),
        (c.ops[i] is Size && c.devs.len() > 0) ==> eval_node(c, i, t_off, ptr, fuel).0 == Ok::<Val, Error>(
            Val::Num(Some(c.devs[c.t_spawn as int % c.devs.len() as int].len() as i128)),
        ),
        (c.ops[i] == DerivedStream::Member(MemberType::Power) && ptr is Some) ==> eval_node(c, i, t_off, ptr, fuel).0
            == Ok::<Val, Error>(Val::Num(Some(ptr->Some_0.1))),
        (c.ops[i] == DerivedStream::Member(MemberType::Name) && ptr is Some) ==> eval_node(c, i, t_off, ptr, fuel).0
            == Ok::<Val, Error>(Val::Str(ptr->Some_0.0)),
        (c.ops[i] is Member && ptr is None) ==> eval_node(c, i, t_off, ptr, fuel).0 == Err::<Val, Error>(
            Error::DevicePointer,
        ),
{
}

/// A binary operation applies its operator to the values of its left and
/// then its right operand (the right one evaluated with the device that
/// the left one leaves current); a unary operation applies its operator to
/// the value of its operand.
pub proof fn lemma_operations_combine(c: Ctx, i: int, t_off: i128, ptr: Option<Dev>, fuel: nat)
    requires
        fuel > 0,
        0 <= i < c.ops.len(),
    ensures
        c.ops[i] matches DerivedStream::Binary { bin_op, idx_lhs, idx_rhs } ==> {
            let (r1, p1) = eval_node(c, idx_lhs as int, t_off, ptr, (fuel - 1) as nat);
            let (r2, p2) = eval_node(c, idx_rhs as int, t_off, p1, (fuel - 1) as nat);
            (r1 is Ok && r2 is Ok) ==> eval_node(c, i, t_off, ptr, fuel) == (
                spec_bin_op(bin_op, r1->Ok_0, r2->Ok_0),
                p2,
            )
        },
        c.ops[i] matches DerivedStream::Unary { un_op, idx } ==> {
            let (r1, p1) = eval_node(c, idx as int, t_off, ptr, (fuel - 1) as nat);
            r1 is Ok ==> eval_node(c, i, t_off, ptr, fuel) == (spec_un_op(un_op, r1->Ok_0), p1)
        },
{
}

/// A decided false verdict is `0`, any other decided number is a true
/// verdict, and an undecided value leaves the verdict undecided.
pub proof fn lemma_verdict_of_numbers(x: i128)
    ensures
        verdict_of(Some(0)) == Verdict::False,
        x != 0 ==> verdict_of(Some(x)) == Verdict::True,
        verdict_of(None) == Verdict::Undecided,
{
}

/// Updating verdicts keeps every time point, in order, and gives each
/// updated one the verdict of the property.
pub proof fn lemma_update_keeps_times(
    tps: Seq<(i128, Verdict)>,
    i: nat,
    ops: Seq<DerivedStream>,
    devs: Seq<Seq<Dev>>,
    t_cur: i128,
)
    ensures
        update_from(tps, i, ops, devs, t_cur).0.len() == tps.len(),
        forall|k: int| 0 <= k < tps.len() ==> (#[trigger] update_from(tps, i, ops, devs, t_cur).0[k]).0 == tps[k].0,
    decreases tps.len() - i,
{
    if i < tps.len() {
        if let Ok(v) = eval_result(ops, devs, tps[i as int].0, t_cur) {
            let next = tps.update(i as int, (tps[i as int].0, verdict_of(v)));
            lemma_update_keeps_times(next, i + 1, ops, devs, t_cur);
            assert forall|k: int| 0 <= k < tps.len() implies (#[trigger] update_from(tps, i, ops, devs, t_cur).0[k]).0
                == tps[k].0 by {
                assert(next[k].0 == tps[k].0);
            }
        }
    }
}

} // verus!

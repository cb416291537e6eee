use vstd::prelude::*;

use crate::errors::Error;
use crate::monitor::operation_eval::Dev;
use crate::monitor::streams::{devs_view, lowercase, IoTDevice, IoTStream, OutputStream};
use crate::monitor::types::Verdict;
use crate::monitor::{monitor_outputs, stream_step, stream_view, StreamView};
use crate::monitor_setup::operation_types::DerivedStream;
use crate::program::expressions::Expr;
use crate::program::function_types::FunctionType;
use crate::program::member_types::MemberType;
use crate::program::operations::{BinaryOperators, UnaryOperators};
use crate::program::units::Unit;
use crate::program::Program;

verus! {

/// The devices of the default mock: a robot vacuum, a light and a fridge.
pub open spec fn default_devices() -> Seq<Dev> {
    seq![(lowercase("Roomba"@), 5000i128), (lowercase("Light"@), 1000i128), (lowercase("Fridge"@), 3000i128)]
}

fn copy_devices(devices: &Vec<IoTDevice>) -> (r: Vec<IoTDevice>)
    ensures
        r@ == devices@,
{
    let mut r: Vec<IoTDevice> = Vec::new();
    let mut i: usize = 0;
    while i < devices.len()
        invariant
            i <= devices@.len(),
            r@ == devices@.take(i as int),
        decreases devices@.len() - i,
    {
        r.push(devices[i].clone());
        assert(devices@.take(i + 1) =~= devices@.take(i as int).push(devices@[i as int]));
        i = i + 1;
    }
    assert(devices@.take(devices@.len() as int) =~= devices@);
    r
}

/// The same devices at each of `repeats` time points.
pub fn mock_device_stream(devices: Vec<IoTDevice>, repeats: usize) -> (r: IoTStream)
    ensures
        r@ == Seq::new(repeats as nat, |i: int| devs_view(devices@)),
{
    let mut rows: Vec<Vec<IoTDevice>> = Vec::new();
    let mut i: usize = 0;
    while i < repeats
        invariant
            i <= repeats,
            rows@.len() == i,
            forall|j: int| 0 <= j < i ==> (#[trigger] rows@[j])@ == devices@,
        decreases repeats - i,
    {
        rows.push(copy_devices(&devices));
        i = i + 1;
    }
    let r = IoTStream::from(rows);
    assert(r@ =~= Seq::new(repeats as nat, |i: int| devs_view(devices@)));
    r
}

/// The default devices at each of `repeats` time points.
pub fn mock_default_device_stream(repeats: usize) -> (r: IoTStream)
    ensures
        r@ == Seq::new(repeats as nat, |i: int| default_devices()),
{
    let mut devices: Vec<IoTDevice> = Vec::new();
    devices.push(IoTDevice::from(("Roomba".to_owned(), 5_000)));
    devices.push(IoTDevice::from(("Light".to_owned(), 1_000)));
    devices.push(IoTDevice::from(("Fridge".to_owned(), 3_000)));
    assert(devs_view(devices@) =~= default_devices());
    mock_device_stream(devices, repeats)
}

/// `amt` robot vacuums at each of `repeats` time points.
pub fn mock_specific_device_amount_stream(amt: usize, repeats: usize) -> (r: IoTStream)
    ensures
        r@ == Seq::new(repeats as nat, |i: int| Seq::new(amt as nat, |j: int| (lowercase("Roomba"@), 5000i128))),
{
    let mut devices: Vec<IoTDevice> = Vec::new();
    let mut i: usize = 0;
    while i < amt
        invariant
            i <= amt,
            devs_view(devices@) =~= Seq::new(i as nat, |j: int| (lowercase("Roomba"@), 5000i128)),
        decreases amt - i,
    {
        let ghost before = devs_view(devices@);
        let d = IoTDevice::from(("Roomba".to_owned(), 5_000));
        devices.push(d);
        assert(devs_view(devices@) =~= before.push(d@));
        i = i + 1;
    }
    mock_device_stream(devices, repeats)
}

/// The time points of both streams, one after the other, repeated up to
/// `repeats` time points.
pub fn combine_device_streams(stream1: IoTStream, stream2: IoTStream, repeats: usize) -> (r: IoTStream)
    ensures
        (stream1@ + stream2@).len() == 0 ==> r@.len() == 0,
        (stream1@ + stream2@).len() > 0 ==> r@ == Seq::new(
            repeats as nat,
            |i: int| (stream1@ + stream2@)[i % (stream1@ + stream2@).len() as int],
        ),
{
    let ghost all = stream1@ + stream2@;
    let mut rows = stream1.get_all_own();
    let mut rest = stream2.get_all_own();
    let ghost rows_v = rows@;
    let ghost rest_v = rest@;
    rows.append(&mut rest);
    assert(rows@.map_values(|v: Vec<IoTDevice>| devs_view(v@)) =~= all);
    let n = rows.len();
    let mut out: Vec<Vec<IoTDevice>> = Vec::new();
    if n == 0 {
        let r = IoTStream::from(out);
        assert(r@ =~= Seq::<Seq<Dev>>::empty());
        return r;
    }
    let mut i: usize = 0;
    while i < repeats
        invariant
            n == rows@.len(),
            n > 0,
            all == rows@.map_values(|v: Vec<IoTDevice>| devs_view(v@)),
            i <= repeats,
            out@.len() == i,
            forall|j: int| 0 <= j < i ==> devs_view((#[trigger] out@[j])@) == all[j % n as int],
        decreases repeats - i,
    {
        let row = copy_devices(&rows[i % n]);
        out.push(row);
        i = i + 1;
    }
    let r = IoTStream::from(out);
    assert(r@ =~= Seq::new(repeats as nat, |i: int| all[i % all.len() as int]));
    r
}

/// The streams after one monitoring step at time `t`.
pub open spec fn step_env(env: Seq<StreamView>, t: i128, devs: Seq<Seq<Dev>>) -> Seq<StreamView> {
    env.map_values(|s: StreamView| (stream_step(s.0, s.1, devs, t).0, s.1))
}

/// The first failed evaluation that a monitoring step reports.
pub open spec fn first_error(outs: Seq<Result<(usize, bool), Error>>) -> Option<Error>
    decreases outs.len(),
{
    if outs.len() == 0 {
        None
    } else {
        match outs[0] {
            Err(e) => Some(e),
            Ok(_) => first_error(outs.drop_first()),
        }
    }
}

/// What a monitoring step reports, as one flag per violated property.
pub open spec fn violation_flags(outs: Seq<Result<(usize, bool), Error>>) -> Seq<bool> {
    outs.map_values(|o: Result<(usize, bool), Error>| match o {
        Ok(p) => p.1,
        Err(_) => false,
    })
}

/// The flags of the monitoring steps at times `t` to `n - 1` after `acc`,
/// or the first failed evaluation.
pub open spec fn run_steps(env: Seq<StreamView>, t: i128, n: i128, devs: Seq<Seq<Dev>>, acc: Seq<Seq<bool>>) -> Result<
    Seq<Seq<bool>>,
    Error,
>
    decreases n - t,
{
    if t >= n {
        Ok(acc)
    } else {
        let outs = monitor_outputs(env, env.len(), t, devs);
        match first_error(outs) {
            Some(e) => Err(e),
            None => run_steps(step_env(env, t, devs), (t + 1) as i128, n, devs, acc.push(violation_flags(outs))),
        }
    }
}

/// Runs the monitor at the times `0` to `step_amount - 1`; gives, per step,
/// one `true` per violated property, or the first failed evaluation.
pub fn run_monitor_x_steps(env: &mut Vec<OutputStream>, device_stream: &IoTStream, step_amount: i128) -> (r: Result<
    Vec<Vec<bool>>,
    Error,
>)
    ensures
        match run_steps(old(env)@.map_values(|s: OutputStream| stream_view(s)), 0, step_amount, device_stream@, Seq::empty()) {
            Ok(v) => r is Ok && r->Ok_0@.map_values(|x: Vec<bool>| x@) == v,
            Err(e) => r == Err::<Vec<Vec<bool>>, Error>(e),
        },
{
    let ghost target = run_steps(env@.map_values(|s: OutputStream| stream_view(s)), 0, step_amount, device_stream@, Seq::empty());
    let mut acc: Vec<Vec<bool>> = Vec::new();
    let mut t: i128 = 0;
    if step_amount <= 0 {
        assert(acc@.map_values(|x: Vec<bool>| x@) =~= Seq::<Seq<bool>>::empty());
        return Ok(acc);
    }
    assert(acc@.map_values(|x: Vec<bool>| x@) =~= Seq::<Seq<bool>>::empty());
    while t < step_amount
        invariant
            0 <= t <= step_amount,
            target == run_steps(old(env)@.map_values(|s: OutputStream| stream_view(s)), 0, step_amount, device_stream@, Seq::empty()),
            target == run_steps(
                env@.map_values(|s: OutputStream| stream_view(s)),
                t,
                step_amount,
                device_stream@,
                acc@.map_values(|x: Vec<bool>| x@),
            ),
        decreases step_amount - t,
    {
        let ghost before = env@.map_values(|s: OutputStream| stream_view(s));
        let ghost env_before = env@;
        let outs = Program::monitor_logic(env, &t, device_stream);
        assert(env_before.map_values(|s: OutputStream| stream_view(s)) == before);
        let mut flags: Vec<bool> = Vec::new();
        let mut j: usize = 0;
        assert(outs@.skip(0) =~= outs@);
        while j < outs.len()
            invariant
                j <= outs@.len(),
                t < step_amount,
                target == run_steps(old(env)@.map_values(|s: OutputStream| stream_view(s)), 0, step_amount, device_stream@, Seq::empty()),
                target == run_steps(before, t, step_amount, device_stream@, acc@.map_values(|x: Vec<bool>| x@)),
                outs@ == monitor_outputs(before, before.len(), t, device_stream@),
                flags@ =~= violation_flags(outs@.take(j as int)),
                first_error(outs@) == first_error(outs@.skip(j as int)),
            decreases outs@.len() - j,
        {
            assert(outs@.skip(j as int).drop_first() =~= outs@.skip(j + 1));
            match outs[j] {
                Ok(p) => {
                    flags.push(p.1);
                },
                Err(e) => {
                    assert(outs@.skip(j as int)[0] == outs@[j as int]);
                    assert(first_error(outs@) == Some(e));
                    return Err(e);
                },
            }
            assert(outs@.take(j + 1) =~= outs@.take(j as int).push(outs@[j as int]));
            j = j + 1;
        }
        assert(outs@.take(outs@.len() as int) =~= outs@);
        assert(outs@.skip(outs@.len() as int) =~= Seq::<Result<(usize, bool), Error>>::empty());
        assert(env@.map_values(|s: OutputStream| stream_view(s)) =~= step_env(before, t, device_stream@));
        let ghost acc_before = acc@.map_values(|x: Vec<bool>| x@);
        acc.push(flags);
        assert(acc@.map_values(|x: Vec<bool>| x@) =~= acc_before.push(violation_flags(outs@)));
        t = t + 1;
    }
    Ok(acc)
}

/// The pairs of each listed time point with each property number below
/// `n`, in order.
pub open spec fn error_pairs(steps: Seq<usize>, n: usize) -> Seq<(usize, usize)>
    decreases steps.len(),
{
    if steps.len() == 0 {
        Seq::empty()
    } else {
        error_pairs(steps.drop_last(), n) + Seq::new(n as nat, |b: int| (steps.last(), b as usize))
    }
}

/// A pair is expected exactly when its time point is listed and its
/// property number is below `n`.
pub proof fn lemma_error_pairs_contains(steps: Seq<usize>, n: usize, p: (usize, usize))
    ensures
        error_pairs(steps, n).contains(p) <==> (steps.contains(p.0) && p.1 < n),
    decreases steps.len(),
{
    if steps.len() > 0 {
        let prev = steps.drop_last();
        lemma_error_pairs_contains(prev, n, p);
        let block = Seq::new(n as nat, |b: int| (steps.last(), b as usize));
        let all = error_pairs(steps, n);
        assert(all == error_pairs(prev, n) + block);
        if all.contains(p) {
            let k = choose|k: int| 0 <= k < all.len() && all[k] == p;
            if k < error_pairs(prev, n).len() {
                assert(error_pairs(prev, n)[k] == p);
                let m = choose|m: int| 0 <= m < prev.len() && prev[m] == p.0;
                assert(steps[m] == p.0);
            } else {
                assert(block[k - error_pairs(prev, n).len()] == p);
                assert(steps[steps.len() - 1] == p.0);
            }
        }
        if steps.contains(p.0) && p.1 < n {
            let m = choose|m: int| 0 <= m < steps.len() && steps[m] == p.0;
            if m < steps.len() - 1 {
                assert(prev[m] == p.0);
                let k = choose|k: int| 0 <= k < error_pairs(prev, n).len() && error_pairs(prev, n)[k] == p;
                assert(all[k] == p);
            } else {
                assert(all[error_pairs(prev, n).len() + p.1 as int] == p);
            }
        }
    }
}

/// The expected violations: every listed time point paired with every
/// property number below `props_amt`.
pub fn create_error_set(steps: Vec<usize>, props_amt: usize) -> (r: Vec<(usize, usize)>)
    ensures
        r@ == error_pairs(steps@, props_amt),
{
    let mut r: Vec<(usize, usize)> = Vec::new();
    let mut i: usize = 0;
    while i < steps.len()
        invariant
            i <= steps@.len(),
            r@ == error_pairs(steps@.take(i as int), props_amt),
        decreases steps@.len() - i,
    {
        let ghost before = r@;
        let mut j: usize = 0;
        while j < props_amt
            invariant
                i < steps@.len(),
                j <= props_amt,
                r@ == before + Seq::new(j as nat, |b: int| (steps@[i as int], b as usize)),
            decreases props_amt - j,
        {
            r.push((steps[i], j));
            assert(r@ =~= before + Seq::new((j + 1) as nat, |b: int| (steps@[i as int], b as usize)));
            j = j + 1;
        }
        assert(steps@.take(i + 1).drop_last() =~= steps@.take(i as int));
        assert(steps@.take(i + 1).last() == steps@[i as int]);
        i = i + 1;
    }
    assert(steps@.take(steps@.len() as int) =~= steps@);
    r
}

/// Whether exactly the expected violations occurred in the reported flags:
/// flag `j` of step `i` is set exactly where `(i, j)` is expected.
pub fn validate_run(to_be_validated: Vec<Vec<bool>>, violation_timepoints: Vec<(usize, usize)>) -> (r: bool)
    ensures
        r == forall|i: int, j: int|
            0 <= i < to_be_validated@.len() && 0 <= j < to_be_validated@[i]@.len() ==> (
            #[trigger] to_be_validated@[i]@[j] == violation_timepoints@.contains((i as usize, j as usize))),
{
    let mut i: usize = 0;
    while i < to_be_validated.len()
        invariant
            i <= to_be_validated@.len(),
            forall|a: int, b: int|
                0 <= a < i && 0 <= b < to_be_validated@[a]@.len() ==> (#[trigger] to_be_validated@[a]@[b]
                    == violation_timepoints@.contains((a as usize, b as usize))),
        decreases to_be_validated@.len() - i,
    {
        let row = &to_be_validated[i];
        let mut j: usize = 0;
        while j < row.len()
            invariant
                i < to_be_validated@.len(),
                row == to_be_validated@[i as int],
                j <= row@.len(),
                forall|a: int, b: int|
                    0 <= a < i && 0 <= b < to_be_validated@[a]@.len() ==> (#[trigger] to_be_validated@[a]@[b]
                        == violation_timepoints@.contains((a as usize, b as usize))),
                forall|b: int|
                    0 <= b < j ==> (#[trigger] row@[b] == violation_timepoints@.contains((i, b as usize))),
            decreases row@.len() - j,
        {
            let expected = contains_pair(&violation_timepoints, i, j);
            if row[j] != expected {
                return false;
            }
            j = j + 1;
        }
        i = i + 1;
    }
    true
}

fn contains_pair(v: &Vec<(usize, usize)>, a: usize, b: usize) -> (r: bool)
    ensures
        r == v@.contains((a, b)),
{
    let mut k: usize = 0;
    while k < v.len()
        invariant
            k <= v@.len(),
            forall|m: int| 0 <= m < k ==> v@[m] != (a, b),
        decreases v@.len() - k,
    {
        if v[k].0 == a && v[k].1 == b {
            assert(v@[k as int] == (a, b));
            return true;
        }
        k = k + 1;
    }
    false
}

pub fn binary_expr(lhs: Expr, rhs: Expr, operator: BinaryOperators) -> (r: Expr)
    ensures
        r == (Expr::BinaryOperations { lhs: Box::new(lhs), rhs: Box::new(rhs), operator }),
{
    Expr::BinaryOperations { lhs: Box::new(lhs), rhs: Box::new(rhs), operator }
}

pub fn unary_expr(operand: Expr, operator: UnaryOperators) -> (r: Expr)
    ensures
        r == (Expr::UnaryOperations { operand: Box::new(operand), operator }),
{
    Expr::UnaryOperations { operand: Box::new(operand), operator }
}

pub fn number_expr() -> (r: Expr)
    ensures
        r == Expr::Number(5000),
{
    Expr::Number(5000)
}

pub fn custom_number_expr(n: i128) -> (r: Expr)
    ensures
        r == Expr::Number(n),
{
    Expr::Number(n)
}

pub fn string_expr() -> (r: Expr)
    ensures
        r matches Expr::String(s) && s@ == "christian"@,
{
    Expr::String("christian".to_owned())
}

pub fn current_time() -> (r: Expr)
    ensures
        r == Expr::CurrentTime,
{
    Expr::CurrentTime
}

pub fn unit_expr(unit: Unit) -> (r: Expr)
    ensures
        r == (Expr::Unit { number: Box::new(Expr::Number(5000)), unit }),
{
    Expr::Unit { number: Box::new(number_expr()), unit }
}

pub fn custom_unit_expr(number: i128, unit: Unit) -> (r: Expr)
    ensures
        r == (Expr::Unit { number: Box::new(Expr::Number(number)), unit }),
{
    Expr::Unit { number: Box::new(custom_number_expr(number)), unit }
}

pub fn member_expr(access_type: MemberType) -> (r: Expr)
    ensures
        r == (Expr::Member { access_type }),
{
    Expr::Member { access_type }
}

pub fn function_expr(aggregate_type: FunctionType, expr: Expr, bound: Option<Expr>) -> (r: Expr)
    ensures
        r == (Expr::Function {
            aggregate_type,
            expr: Box::new(expr),
            bound: match bound {
                Some(b) => Some(Box::new(b)),
                None => None,
            },
        }),
{
    let bound = match bound {
        Some(b) => Some(Box::new(b)),
        None => None,
    };
    Expr::Function { aggregate_type, expr: Box::new(expr), bound }
}

pub fn interval_expr(unit1: Expr, unit2: Expr) -> (r: Expr)
    ensures
        r == (Expr::Interval { start: Box::new(unit1), end: Box::new(unit2) }),
{
    Expr::Interval { start: Box::new(unit1), end: Box::new(unit2) }
}

pub fn always_expr(expr: Expr) -> (r: Expr)
    ensures
        r == (Expr::Always { interval: None, not: false, expr: Box::new(expr) }),
{
    Expr::Always { interval: None, not: false, expr: Box::new(expr) }
}

pub fn always_negated_expr(expr: Expr) -> (r: Expr)
    ensures
        r == (Expr::Always { interval: None, not: true, expr: Box::new(expr) }),
{
    Expr::Always { interval: None, not: true, expr: Box::new(expr) }
}

pub fn always_interval_expr(interval: Expr, expr: Expr) -> (r: Expr)
    ensures
        r == (Expr::Always { interval: Some(Box::new(interval)), not: false, expr: Box::new(expr) }),
{
    Expr::Always { interval: Some(Box::new(interval)), not: false, expr: Box::new(expr) }
}

pub fn eventually_expr(expr: Expr) -> (r: Expr)
    ensures
        r == (Expr::Eventually { interval: None, not: false, expr: Box::new(expr) }),
{
    Expr::Eventually { interval: None, not: false, expr: Box::new(expr) }
}

pub fn eventually_negated_expr(expr: Expr) -> (r: Expr)
    ensures
        r == (Expr::Eventually { interval: None, not: true, expr: Box::new(expr) }),
{
    Expr::Eventually { interval: None, not: true, expr: Box::new(expr) }
}

pub fn eventually_interval_expr(interval: Expr, expr: Expr) -> (r: Expr)
    ensures
        r == (Expr::Eventually { interval: Some(Box::new(interval)), not: false, expr: Box::new(expr) }),
{
    Expr::Eventually { interval: Some(Box::new(interval)), not: false, expr: Box::new(expr) }
}

/// A program with one property, given compiled, and no open time points.
pub fn always_prop_helper(derived_streams: Vec<DerivedStream>) -> (r: Program)
    ensures
        r.expressions@.len() == 0,
        r.iotstream_len is None,
        r.environment is Some,
        r.environment->Some_0@.len() == 1,
        r.environment->Some_0@[0].derived_streams == derived_streams,
        r.environment->Some_0@[0].unresolved_timepoints@ == Seq::<(i128, Verdict)>::empty(),
{
    let mut env: Vec<OutputStream> = Vec::new();
    env.push(OutputStream::from(derived_streams));
    Program { expressions: Vec::new(), environment: Some(env), iotstream_len: None }
}

} // verus!

//! Evaluation of compiled properties against device states.
use vstd::prelude::*;

pub mod operation_eval;
pub mod streams;
pub mod types;

use crate::errors::Error;
use crate::monitor::operation_eval::{update_from, Dev};
use crate::monitor::streams::{
    devs_view, has_false, lemma_clean_up_keeps_undecided, undecided_only, IoTDevice, IoTStream, OutputStream,
};
use crate::monitor::types::Verdict;
use crate::monitor_setup::operation_types::DerivedStream;
use crate::program::Program;

verus! {

/// One monitoring step of one property at time `t`: a verdict is opened for
/// `t`, every open verdict is evaluated, and the decided ones are dropped.
/// Gives the new open time points and whether a verdict was false; where an
/// evaluation fails, the time points stay as far as they were updated.
pub open spec fn stream_step(tps: Seq<(i128, Verdict)>, ops: Seq<DerivedStream>, devs: Seq<Seq<Dev>>, t: i128) -> (
    Seq<(i128, Verdict)>,
    Result<bool, Error>,
) {
    let (updated, r) = update_from(tps.push((t, Verdict::Undecided)), 0, ops, devs, t);
    match r {
        Err(e) => (updated, Err(e)),
        Ok(()) => (undecided_only(updated), Ok(has_false(updated))),
    }
}

/// The open time points and the compiled property of an output stream.
pub type StreamView = (Seq<(i128, Verdict)>, Seq<DerivedStream>);

pub open spec fn stream_view(s: OutputStream) -> StreamView {
    (s.unresolved_timepoints@, s.derived_streams@)
}

/// What a monitoring step reports for the first `k` properties: each
/// violated property by its number, and each failed evaluation.
pub open spec fn monitor_outputs(env: Seq<StreamView>, k: nat, t: i128, devs: Seq<Seq<Dev>>) -> Seq<Result<(usize, bool), Error>>
    decreases k,
{
    if k == 0 || k > env.len() {
        Seq::empty()
    } else {
        let prev = monitor_outputs(env, (k - 1) as nat, t, devs);
        let s = env[k - 1];
        match stream_step(s.0, s.1, devs, t).1 {
            Err(e) => prev.push(Err(e)),
            Ok(true) => prev.push(Ok(((k - 1) as usize, true))),
            Ok(false) => prev,
        }
    }
}

impl Program {
    /// One monitoring step at time `t` over all properties: reports, in the
    /// order of the properties, each property with a violation and each
    /// evaluation that failed.
    pub fn monitor_logic(env: &mut Vec<OutputStream>, t: &i128, device_stream: &IoTStream) -> (r: Vec<
        Result<(usize, bool), Error>,
    >)
        ensures
            final(env)@.len() == old(env)@.len(),
            forall|i: int|
                0 <= i < old(env)@.len() ==> {
                    &&& (#[trigger] final(env)@[i]).derived_streams == old(env)@[i].derived_streams
                    &&& final(env)@[i].unresolved_timepoints@ == stream_step(
                        old(env)@[i].unresolved_timepoints@,
                        old(env)@[i].derived_streams@,
                        device_stream@,
                        *t,
                    ).0
                },
            r@ == monitor_outputs(old(env)@.map_values(|s: OutputStream| stream_view(s)), old(env)@.len(), *t, device_stream@),
    {
        let ghost env0 = env@;
        let mut out: Vec<Result<(usize, bool), Error>> = Vec::new();
        let mut i: usize = 0;
        while i < env.len()
            invariant
                env@.len() == env0.len(),
                env0 == old(env)@,
                i <= env0.len(),
                forall|j: int| i <= j < env0.len() ==> #[trigger] env@[j] == env0[j],
                forall|j: int|
                    0 <= j < i ==> {
                        &&& (#[trigger] env@[j]).derived_streams == env0[j].derived_streams
                        &&& env@[j].unresolved_timepoints@ == stream_step(
                            env0[j].unresolved_timepoints@,
                            env0[j].derived_streams@,
                            device_stream@,
                            *t,
                        ).0
                    },
                out@ == monitor_outputs(env0.map_values(|s: OutputStream| stream_view(s)), i as nat, *t, device_stream@),
            decreases env0.len() - i,
        {
            let ghost s0 = env0[i as int];
            env[i].insert(*t);
            let res = env[i].update(*t, device_stream);
            match res {
                Err(e) => {
                    out.push(Err(e));
                },
                Ok(()) => {
                    let violated = env[i].get_violated_verdict_single();
                    env[i].clean_up();
                    if violated {
                        out.push(Ok((i, true)));
                    }
                },
            }
            i = i + 1;
        }
        out
    }
}

/// After a monitoring step that did not fail, only undecided time points
/// stay open, the time point of the step among them if its verdict is still
/// undecided.
pub proof fn lemma_step_leaves_undecided(tps: Seq<(i128, Verdict)>, ops: Seq<DerivedStream>, devs: Seq<Seq<Dev>>, t: i128)
    ensures
        stream_step(tps, ops, devs, t).1 is Ok ==> forall|k: int|
            0 <= k < stream_step(tps, ops, devs, t).0.len() ==> (#[trigger] stream_step(tps, ops, devs, t).0[k]).1
                == Verdict::Undecided,
{
    let (updated, r) = update_from(tps.push((t, Verdict::Undecided)), 0, ops, devs, t);
    lemma_clean_up_keeps_undecided(updated, (t, Verdict::Undecided));
}

impl Program {
    /// One tick of the monitoring loop at time `t`: records `states` at slot
    /// `cur_idx` of the device history, runs one monitoring step and gives
    /// the next slot (the history is a ring of `iotstream_len` slots) with
    /// what the step reports (see `monitor_logic`). Fails where the program
    /// was not prepared (no compiled properties or no history length) or
    /// where the slot does not exist.
    pub fn monitor_step(&mut self, devices: &mut IoTStream, cur_idx: usize, t: i128, states: Vec<IoTDevice>) -> (r: Result<
        (usize, Vec<Result<(usize, bool), Error>>),
        Error,
    >)
        ensures
            old(self).environment is None || old(self).iotstream_len is None || old(self).iotstream_len == Some(
                0usize,
            ) ==> r == Err::<(usize, Vec<Result<(usize, bool), Error>>), Error>(Error::FieldNotPresent) && *final(self) == *old(self)
                && final(devices)@ == old(devices)@,
            (old(self).environment is Some && old(self).iotstream_len is Some && old(self).iotstream_len->Some_0 > 0)
                ==> {
                let size = old(self).iotstream_len->Some_0;
                let env0 = old(self).environment->Some_0@;
                let ring = old(devices)@.update(cur_idx as int, devs_view(states@));
                let outs = monitor_outputs(env0.map_values(|s: OutputStream| stream_view(s)), env0.len(), t, ring);
                &&& cur_idx >= old(devices)@.len() ==> r == Err::<
                    (usize, Vec<Result<(usize, bool), Error>>),
                    Error,
                >(Error::OutOfBoundsIoTStream) && *final(self) == *old(self) && final(devices)@ == old(devices)@
                &&& cur_idx < old(devices)@.len() ==> {
                    &&& final(devices)@ == ring
                    &&& final(self).expressions == old(self).expressions
                    &&& final(self).iotstream_len == old(self).iotstream_len
                    &&& final(self).environment is Some
                    &&& final(self).environment->Some_0@.len() == env0.len()
                    &&& forall|i: int|
                        0 <= i < env0.len() ==> stream_view(#[trigger] final(self).environment->Some_0@[i]) == (
                        stream_step(env0[i].unresolved_timepoints@, env0[i].derived_streams@, ring, t).0,
                        env0[i].derived_streams@,
                    )
                    &&& r matches Ok((next, reports)) && next == (cur_idx + 1) % (size as int) && reports@
                        == outs
                }
            },
    {
        let size = match self.iotstream_len {
            Some(size) => size,
            None => {
                return Err(Error::FieldNotPresent);
            },
        };
        if size == 0 || self.environment.is_none() {
            return Err(Error::FieldNotPresent);
        }
        let ghost states_view = devs_view(states@);
        match devices.push_at(states, cur_idx) {
            Ok(()) => {},
            Err(e) => {
                return Err(e);
            },
        }
        let slot = cur_idx % size;
        let next = if slot == size - 1 {
            0
        } else {
            slot + 1
        };
        proof {
            lemma_next_slot(cur_idx as int, size as int);
        }
        let env = match &mut self.environment {
            Some(env) => env,
            None => {
                return Err(Error::FieldNotPresent);
            },
        };
        let ghost env0 = env@;
        let outs = Program::monitor_logic(env, &t, devices);
        assert forall|i: int| 0 <= i < env0.len() implies stream_view(#[trigger] env@[i]) == (
            stream_step(env0[i].unresolved_timepoints@, env0[i].derived_streams@, devices@, t).0,
            env0[i].derived_streams@,
        ) by {}
        Ok((next, outs))
    }
}

/// The slot after `c` in a ring of `d` slots.
proof fn lemma_next_slot(c: int, d: int)
    requires
        0 <= c,
        0 < d,
    ensures
        (c + 1) % d == (if c % d == d - 1 {
            0
        } else {
            c % d + 1
        }),
{
    vstd::arithmetic::div_mod::lemma_add_mod_noop(c, 1, d);
    vstd::arithmetic::div_mod::lemma_mod_bound(c, d);
    if d == 1 {
        vstd::arithmetic::div_mod::lemma_mod_self_0(1);
        assert(c % d == 0) by {
            vstd::arithmetic::div_mod::lemma_mod_bound(c, d);
        }
        assert((c + 1) % d == 0) by {
            vstd::arithmetic::div_mod::lemma_mod_bound(c + 1, d);
        }
    } else {
        vstd::arithmetic::div_mod::lemma_small_mod(1, d as nat);
        if c % d == d - 1 {
            vstd::arithmetic::div_mod::lemma_mod_self_0(d);
        } else {
            vstd::arithmetic::div_mod::lemma_small_mod((c % d + 1) as nat, d as nat);
        }
    }
}

} // verus!

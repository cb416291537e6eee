//! Compilation of properties into derived streams.
use vstd::prelude::*;

pub mod operation_types;
pub mod rules;

use crate::errors::Error;
use crate::monitor::streams::OutputStream;
use crate::monitor::types::Verdict;
use crate::monitor_setup::operation_types::DerivedStream;
use crate::monitor_setup::rules::{lemma_compiled_program_shape, program_shape, spec_compile, stream_bound};
use crate::program::expressions::Expr;
use crate::program::{Program, SpanExpr};

verus! {

/// The compiled form of a property: only an un-negated `always` or
/// `eventually` at the top is monitored, and its body is compiled.
pub open spec fn compile_property(e: Expr) -> Result<Seq<DerivedStream>, Error> {
    match e {
        Expr::Always { expr, not: false, .. } | Expr::Eventually { expr, not: false, .. } => match spec_compile(*expr, 0) {
            Ok((s, _)) => Ok(s),
            Err(x) => Err(x),
        },
        _ => Err(Error::InvalidCompileExpr),
    }
}

/// The compiled forms of all properties, or the first error.
pub open spec fn compile_all(exprs: Seq<SpanExpr>) -> Result<Seq<Seq<DerivedStream>>, Error>
    decreases exprs.len(),
{
    if exprs.len() == 0 {
        Ok(Seq::empty())
    } else {
        match compile_all(exprs.drop_last()) {
            Err(e) => Err(e),
            Ok(prev) => match compile_property(exprs.last().expr) {
                Err(e) => Err(e),
                Ok(s) => Ok(prev.push(s)),
            },
        }
    }
}

/// The largest history that the streams need, `None` for no streams, or the
/// first error.
pub open spec fn max_bound(streams: Seq<OutputStream>) -> Result<Option<usize>, Error>
    decreases streams.len(),
{
    if streams.len() == 0 {
        Ok(None)
    } else {
        match max_bound(streams.drop_last()) {
            Err(e) => Err(e),
            Ok(m) => match stream_bound(streams.last().derived_streams@) {
                Err(e) => Err(e),
                Ok(b) => Ok(
                    Some(
                        match m {
                            Some(x) => if x >= b {
                                x
                            } else {
                                b
                            },
                            None => b,
                        },
                    ),
                ),
            },
        }
    }
}

/// Once a prefix of the properties fails to compile, every longer prefix
/// fails with the same error.
proof fn lemma_compile_all_stops(s: Seq<SpanExpr>, i: int, k: int)
    requires
        0 <= i < k <= s.len(),
        compile_all(s.take(i + 1)) is Err,
    ensures
        compile_all(s.take(k)) == compile_all(s.take(i + 1)),
    decreases k - i,
{
    if k > i + 1 {
        lemma_compile_all_stops(s, i, k - 1);
        assert(s.take(k).drop_last() =~= s.take(k - 1));
    }
}

/// Once the bound of a prefix of the streams fails, every longer prefix
/// fails with the same error.
proof fn lemma_max_bound_stops(s: Seq<OutputStream>, i: int, k: int)
    requires
        0 <= i < k <= s.len(),
        max_bound(s.take(i + 1)) is Err,
    ensures
        max_bound(s.take(k)) == max_bound(s.take(i + 1)),
    decreases k - i,
{
    if k > i + 1 {
        lemma_max_bound_stops(s, i, k - 1);
        assert(s.take(k).drop_last() =~= s.take(k - 1));
    }
}

impl Program {
    /// Compiles every property into an output stream with no open time
    /// points; on an error the program is left as it was.
    pub fn compile_properties(&mut self) -> (r: Result<(), Error>)
        ensures
            match compile_all(old(self).expressions@) {
                Ok(ss) => {
                    &&& r is Ok
                    &&& final(self).expressions == old(self).expressions
                    &&& final(self).iotstream_len == old(self).iotstream_len
                    &&& final(self).environment is Some
                    &&& final(self).environment->Some_0@.len() == ss.len()
                    &&& forall|i: int|
                        0 <= i < ss.len() ==> {
                            &&& (#[trigger] final(self).environment->Some_0@[i]).derived_streams@ == ss[i]
                            &&& final(self).environment->Some_0@[i].unresolved_timepoints@ == Seq::<(i128, Verdict)>::empty()
                        }
                },
                Err(e) => r == Err::<(), Error>(e) && *final(self) == *old(self),
            },
    {
        let ghost exprs = self.expressions@;
        let mut streams: Vec<OutputStream> = Vec::new();
        let ghost mut compiled: Seq<Seq<DerivedStream>> = Seq::empty();
        let mut i: usize = 0;
        while i < self.expressions.len()
            invariant
                exprs == self.expressions@,
                *self == *old(self),
                i <= exprs.len(),
                compile_all(exprs.take(i as int)) == Ok::<Seq<Seq<DerivedStream>>, Error>(compiled),
                streams@.len() == i,
                compiled.len() == i,
                forall|j: int|
                    0 <= j < i ==> {
                        &&& (#[trigger] streams@[j]).derived_streams@ == compiled[j]
                        &&& streams@[j].unresolved_timepoints@ == Seq::<(i128, Verdict)>::empty()
                    },
            decreases exprs.len() - i,
        {
            assert(exprs.take(i + 1).drop_last() =~= exprs.take(i as int));
            let body = match &self.expressions[i].expr {
                Expr::Always { expr, not: false, .. } | Expr::Eventually { expr, not: false, .. } => expr,
                _ => {
                    proof {
                        lemma_compile_all_stops(exprs, i as int, exprs.len() as int);
                        assert(exprs.take(exprs.len() as int) =~= exprs);
                    }
                    return Err(Error::InvalidCompileExpr);
                },
            };
            let ops = match body.compile_expression() {
                Ok(ops) => ops,
                Err(e) => {
                    proof {
                        lemma_compile_all_stops(exprs, i as int, exprs.len() as int);
                        assert(exprs.take(exprs.len() as int) =~= exprs);
                    }
                    return Err(e);
                },
            };
            proof {
                assert(exprs.take(i + 1).last() == exprs[i as int]);
                assert(compile_property(exprs[i as int].expr) == Ok::<Seq<DerivedStream>, Error>(ops@));
                compiled = compiled.push(ops@);
            }
            streams.push(OutputStream::from(ops));
            i = i + 1;
        }
        assert(exprs.take(exprs.len() as int) =~= exprs);
        self.environment = Some(streams);
        Ok(())
    }

    /// Records the device history that monitoring needs: the largest need of
    /// the compiled properties, at least one time point; `None` when there
    /// are no properties. On an error the program is left as it was.
    pub fn compute_iotstream_len(&mut self) -> (r: Result<(), Error>)
        requires
            old(self).environment matches Some(streams) ==> forall|i: int|
                0 <= i < streams@.len() ==> program_shape(#[trigger] streams@[i].derived_streams@),
        ensures
            match old(self).environment {
                None => r is Ok && *final(self) == *old(self),
                Some(streams) => match max_bound(streams@) {
                    Err(e) => r == Err::<(), Error>(e) && *final(self) == *old(self),
                    Ok(m) => {
                        &&& r is Ok
                        &&& final(self).expressions == old(self).expressions
                        &&& final(self).environment == old(self).environment
                        &&& final(self).iotstream_len == match m {
                            Some(v) => Some(if v >= 1 { v } else { 1usize }),
                            None => None,
                        }
                    },
                },
            },
    {
        let streams = match &self.environment {
            None => {
                return Ok(());
            },
            Some(s) => s,
        };
        let ghost sv = streams@;
        let mut m: Option<usize> = None;
        let mut i: usize = 0;
        while i < streams.len()
            invariant
                sv == streams@,
                *self == *old(self),
                self.environment == Some(*streams),
                i <= sv.len(),
                forall|j: int| 0 <= j < sv.len() ==> program_shape(#[trigger] sv[j].derived_streams@),
                max_bound(sv.take(i as int)) == Ok::<Option<usize>, Error>(m),
            decreases sv.len() - i,
        {
            assert(sv.take(i + 1).drop_last() =~= sv.take(i as int));
            let b = match Expr::stream_max_bound(&streams[i]) {
                Ok(b) => b,
                Err(e) => {
                    proof {
                        lemma_max_bound_stops(sv, i as int, sv.len() as int);
                        assert(sv.take(sv.len() as int) =~= sv);
                    }
                    return Err(e);
                },
            };
            m = Some(
                match m {
                    Some(x) => if x >= b {
                        x
                    } else {
                        b
                    },
                    None => b,
                },
            );
            i = i + 1;
        }
        assert(sv.take(sv.len() as int) =~= sv);
        self.iotstream_len = match m {
            Some(v) => Some(if v >= 1 { v } else { 1 }),
            None => None,
        };
        Ok(())
    }
}

/// Every property that compiles gives a well-shaped program, so the streams
/// that `compile_properties` sets up meet what `compute_iotstream_len`
/// requires.
pub proof fn lemma_compiled_properties_shape(exprs: Seq<SpanExpr>)
    ensures
        compile_all(exprs) matches Ok(ss) ==> forall|i: int| 0 <= i < ss.len() ==> program_shape(#[trigger] ss[i]),
    decreases exprs.len(),
{
    if exprs.len() > 0 {
        lemma_compiled_properties_shape(exprs.drop_last());
        match exprs.last().expr {
            Expr::Always { expr, .. } | Expr::Eventually { expr, .. } => lemma_compiled_program_shape(*expr),
            _ => {},
        }
    }
}

} // verus!

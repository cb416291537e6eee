use vstd::prelude::*;

use crate::errors::Error;
use crate::monitor::streams::OutputStream;
use crate::monitor_setup::operation_types::{DerivedStream, MIITLType};
use crate::program::expressions::{spec_bound, spec_time_units, Expr};
use crate::program::function_types::FunctionType;
use crate::program::operations::BinaryOperators;

verus! {

/// A single operation at index `key`, followed by the next free index.
pub open spec fn leaf(d: DerivedStream, key: usize) -> Result<(Seq<DerivedStream>, usize), Error> {
    match key.checked_add(1) {
        Some(k1) => Ok((seq![d], k1)),
        None => Err(Error::ArithmeticOverflow),
    }
}

/// The operations that expression `e` compiles into when its root takes
/// index `key`, and the next free index. The root comes first, and every
/// operand follows the operation that uses it.
pub open spec fn spec_compile(e: Expr, key: usize) -> Result<(Seq<DerivedStream>, usize), Error>
    decreases e,
{
    match e {
        Expr::Number(c) => leaf(DerivedStream::Number(c), key),
        Expr::String(s) => leaf(DerivedStream::String(s), key),
        Expr::CurrentTime => leaf(DerivedStream::SpawnTime, key),
        Expr::Member { access_type } => leaf(DerivedStream::Member(access_type), key),
        Expr::Always { interval: Some(iv), expr, .. } => match key.checked_add(1) {
            None => Err(Error::ArithmeticOverflow),
            Some(k1) => miitl_wrap(MIITLType::Always, *iv, spec_compile(*expr, k1), k1),
        },
        Expr::Eventually { interval: Some(iv), expr, .. } => match key.checked_add(1) {
            None => Err(Error::ArithmeticOverflow),
            Some(k1) => miitl_wrap(MIITLType::Eventually, *iv, spec_compile(*expr, k1), k1),
        },
        Expr::BinaryOperations { lhs, rhs, operator } => match key.checked_add(1) {
            None => Err(Error::ArithmeticOverflow),
            Some(k1) => match spec_compile(*lhs, k1) {
                Err(x) => Err(x),
                Ok((s1, n1)) => match spec_compile(*rhs, n1) {
                    Err(x) => Err(x),
                    Ok((s2, n2)) => if operator == BinaryOperators::And || operator == BinaryOperators::Implies {
                        Err(Error::InvalidCompileExpr)
                    } else {
                        Ok((seq![DerivedStream::Binary { bin_op: operator, idx_lhs: k1, idx_rhs: n1 }] + s1 + s2, n2))
                    },
                },
            },
        },
        Expr::UnaryOperations { operand, operator } => match key.checked_add(1) {
            None => Err(Error::ArithmeticOverflow),
            Some(k1) => match spec_compile(*operand, k1) {
                Err(x) => Err(x),
                Ok((s, n)) => Ok((seq![DerivedStream::Unary { un_op: operator, idx: k1 }] + s, n)),
            },
        },
        Expr::Function { aggregate_type, expr, bound } => match aggregate_type {
            FunctionType::Foreach => match key.checked_add(1) {
                None => Err(Error::ArithmeticOverflow),
                Some(k1) => match spec_compile(*expr, k1) {
                    Err(x) => Err(x),
                    Ok((s, n)) => Ok((seq![DerivedStream::Foreach { idx: k1 }] + s, n)),
                },
            },
            FunctionType::Sum => match key.checked_add(1) {
                None => Err(Error::ArithmeticOverflow),
                Some(k1) => match spec_compile(*expr, k1) {
                    Err(x) => Err(x),
                    Ok((s, n)) => Ok((seq![DerivedStream::Sum { idx: k1 }] + s, n)),
                },
            },
            FunctionType::Avg => match (key.checked_add(1), key.checked_add(2)) {
                (Some(k1), Some(k2)) => match spec_compile(*expr, k2) {
                    Err(x) => Err(x),
                    Ok((s, n)) => match n.checked_add(1) {
                        None => Err(Error::ArithmeticOverflow),
                        Some(n1) => Ok((
                            seq![
                                DerivedStream::Binary { bin_op: BinaryOperators::Divide, idx_lhs: k1, idx_rhs: n },
                                DerivedStream::Sum { idx: k2 },
                            ] + s + seq![DerivedStream::Size],
                            n1,
                        )),
                    },
                },
                _ => Err(Error::ArithmeticOverflow),
            },
            FunctionType::Sumtime => match (key.checked_add(1), key.checked_add(2)) {
                (Some(k1), Some(k2)) => match spec_compile(*expr, k2) {
                    Err(x) => Err(x),
                    Ok((s, n)) => match bound {
                        None => Err(Error::InvalidFunctionIntervalExpr),
                        Some(b) => match spec_time_units(*b) {
                            Err(x) => Err(x),
                            Ok(len) => Ok((
                                seq![
                                    DerivedStream::Sumtime { interval_len: len, idx: k1 },
                                    DerivedStream::Sum { idx: k2 },
                                ] + s,
                                n,
                            )),
                        },
                    },
                },
                _ => Err(Error::ArithmeticOverflow),
            },
            FunctionType::Avgtime => match (key.checked_add(1), key.checked_add(2), key.checked_add(3)) {
                (Some(k1), Some(k2), Some(k3)) => match spec_compile(*expr, k3) {
                    Err(x) => Err(x),
                    Ok((s, n)) => match bound {
                        None => Err(Error::InvalidFunctionIntervalExpr),
                        Some(b) => match spec_time_units(*b) {
                            Err(x) => Err(x),
                            Ok(len) => match (len.checked_add(1), n.checked_add(1)) {
                                (Some(count), Some(n1)) => Ok((
                                    seq![
                                        DerivedStream::Binary { bin_op: BinaryOperators::Divide, idx_lhs: k1, idx_rhs: n },
                                        DerivedStream::Sumtime { interval_len: len, idx: k2 },
                                        DerivedStream::Sum { idx: k3 },
                                    ] + s + seq![DerivedStream::Number(count)],
                                    n1,
                                )),
                                _ => Err(Error::ArithmeticOverflow),
                            },
                        },
                    },
                },
                _ => Err(Error::ArithmeticOverflow),
            },
            _ => Err(Error::InvalidCompileExpr),
        },
        _ => Err(Error::InvalidCompileExpr),
    }
}

/// A bounded temporal operator over interval `iv` at index `k1 - 1`, in
/// front of its compiled body.
pub open spec fn miitl_wrap(
    ty: MIITLType,
    iv: Expr,
    body: Result<(Seq<DerivedStream>, usize), Error>,
    k1: usize,
) -> Result<(Seq<DerivedStream>, usize), Error> {
    match body {
        Err(x) => Err(x),
        Ok((s, n)) => match spec_bound(iv) {
            Err(x) => Err(x),
            Ok(b) => Ok((seq![DerivedStream::Miitl { miitl_type: ty, bound: b, idx: k1 }] + s, n)),
        },
    }
}

/// The result of compiling, seen through the view of the operations.
pub open spec fn compiled_view(r: Result<(Vec<DerivedStream>, usize), Error>) -> Result<(Seq<DerivedStream>, usize), Error> {
    match r {
        Ok((v, n)) => Ok((v@, n)),
        Err(e) => Err(e),
    }
}

fn next_key(key: usize, by: usize) -> (r: Result<usize, Error>)
    ensures
        r == (match key.checked_add(by) {
            Some(k) => Ok(k),
            None => Err::<usize, Error>(Error::ArithmeticOverflow),
        }),
{
    match key.checked_add(by) {
        Some(k) => Ok(k),
        None => Err(Error::ArithmeticOverflow),
    }
}

fn single(d: DerivedStream) -> (r: Vec<DerivedStream>)
    ensures
        r@ == seq![d],
{
    let mut v: Vec<DerivedStream> = Vec::new();
    v.push(d);
    v
}

impl Expr {
    /// Compiles the expression into derived streams, the root first. What
    /// it gives is a tree laid out in pre-order (see `lemma_compile_tree`).
    pub fn compile_expression(&self) -> (r: Result<Vec<DerivedStream>, Error>)
        ensures
            match spec_compile(*self, 0) {
                Ok((s, _)) => r is Ok && r->Ok_0@ == s,
                Err(e) => r == Err::<Vec<DerivedStream>, Error>(e),
            },
            r matches Ok(v) ==> {
                &&& v@.len() > 0
                &&& forward_within(v@, 0, v@.len() as int)
                &&& used_once(v@, 0, v@.len() as int)
            },
    {
        proof {
            lemma_compile_tree(*self, 0);
        }
        match self.compile_expression_helper(0) {
            Ok((v, _)) => Ok(v),
            Err(e) => Err(e),
        }
    }

    /// Compiles the expression with its root at index `key`; gives the
    /// operations and the next free index.
    fn compile_expression_helper(&self, key: usize) -> (r: Result<(Vec<DerivedStream>, usize), Error>)
        ensures
            compiled_view(r) == spec_compile(*self, key),
        decreases self, 1nat,
    {
        match self {
            Expr::Number(c) => self.compile_leaf(DerivedStream::Number(*c), key),
            Expr::String(st) => self.compile_leaf(DerivedStream::String(st.clone()), key),
            Expr::CurrentTime => self.compile_leaf(DerivedStream::SpawnTime, key),
            Expr::Member { access_type } => self.compile_leaf(DerivedStream::Member(*access_type), key),
            Expr::Always { interval: Some(_), .. } | Expr::Eventually { interval: Some(_), .. } => self.compile_miitl(key),
            Expr::BinaryOperations { .. } => self.compile_binary(key),
            Expr::UnaryOperations { .. } => self.compile_unary(key),
            Expr::Function { aggregate_type: FunctionType::Foreach, .. }
            | Expr::Function { aggregate_type: FunctionType::Sum, .. } => self.compile_aggregate(key),
            Expr::Function { aggregate_type: FunctionType::Avg, .. } => self.compile_avg(key),
            Expr::Function { aggregate_type: FunctionType::Sumtime, .. } => self.compile_sumtime(key),
            Expr::Function { aggregate_type: FunctionType::Avgtime, .. } => self.compile_avgtime(key),
            _ => Err(Error::InvalidCompileExpr),
        }
    }

    /// Compiles a constant, the spawn time or a member access into the
    /// single operation `d`.
    fn compile_leaf(&self, d: DerivedStream, key: usize) -> (r: Result<(Vec<DerivedStream>, usize), Error>)
        requires
            spec_compile(*self, key) == leaf(d, key),
        ensures
            compiled_view(r) == spec_compile(*self, key),
    {
        match next_key(key, 1) {
            Ok(k1) => Ok((single(d), k1)),
            Err(e) => Err(e),
        }
    }

    /// Compiles `always` and `eventually` over an interval.
    #[verifier::spinoff_prover]
    fn compile_miitl(&self, key: usize) -> (r: Result<(Vec<DerivedStream>, usize), Error>)
        requires
            self matches Expr::Always { interval: Some(_), .. } || self matches Expr::Eventually {
                interval: Some(_),
                ..
            },
        ensures
            compiled_view(r) == spec_compile(*self, key),
        decreases self, 0nat,
    {
        let (ty, iv, expr) = match self {
            Expr::Always { interval: Some(iv), expr, .. } => (MIITLType::Always, iv, expr),
            Expr::Eventually { interval: Some(iv), expr, .. } => (MIITLType::Eventually, iv, expr),
            _ => {
                return Err(Error::InvalidCompileExpr);
            },
        };
        let k1 = match next_key(key, 1) {
            Ok(x) => x,
            Err(e) => {
                return Err(e);
            },
        };
        let (mut body, n) = match expr.compile_expression_helper(k1) {
            Ok(x) => x,
            Err(e) => {
                return Err(e);
            },
        };
        let ghost old_body = body@;
        let b = match iv.get_bound() {
            Ok(x) => x,
            Err(e) => {
                return Err(e);
            },
        };
        let mut v = single(DerivedStream::Miitl { miitl_type: ty, bound: b, idx: k1 });
        v.append(&mut body);
        assert(v@ =~= seq![DerivedStream::Miitl { miitl_type: ty, bound: b, idx: k1 }] + old_body);
        Ok((v, n))
    }

    /// Compiles a binary operation; conjunction and implication have no
    /// compiled form.
    #[verifier::spinoff_prover]
    fn compile_binary(&self, key: usize) -> (r: Result<(Vec<DerivedStream>, usize), Error>)
        requires
            self is BinaryOperations,
        ensures
            compiled_view(r) == spec_compile(*self, key),
        decreases self, 0nat,
    {
        let (lhs, rhs, operator) = match self {
            Expr::BinaryOperations { lhs, rhs, operator } => (lhs, rhs, *operator),
            _ => {
                return Err(Error::InvalidCompileExpr);
            },
        };
        let k1 = match next_key(key, 1) {
            Ok(x) => x,
            Err(e) => {
                return Err(e);
            },
        };
        let (mut s1, n1) = match lhs.compile_expression_helper(k1) {
            Ok(x) => x,
            Err(e) => {
                return Err(e);
            },
        };
        let ghost old_s1 = s1@;
        let (mut s2, n2) = match rhs.compile_expression_helper(n1) {
            Ok(x) => x,
            Err(e) => {
                return Err(e);
            },
        };
        let ghost old_s2 = s2@;
        if operator == BinaryOperators::And || operator == BinaryOperators::Implies {
            return Err(Error::InvalidCompileExpr);
        }
        let mut v = single(DerivedStream::Binary { bin_op: operator, idx_lhs: k1, idx_rhs: n1 });
        v.append(&mut s1);
        v.append(&mut s2);
        assert(v@ =~= seq![DerivedStream::Binary { bin_op: operator, idx_lhs: k1, idx_rhs: n1 }] + old_s1 + old_s2);
        Ok((v, n2))
    }

    /// Compiles a unary operation.
    #[verifier::spinoff_prover]
    fn compile_unary(&self, key: usize) -> (r: Result<(Vec<DerivedStream>, usize), Error>)
        requires
            self is UnaryOperations,
        ensures
            compiled_view(r) == spec_compile(*self, key),
        decreases self, 0nat,
    {
        let (operand, operator) = match self {
            Expr::UnaryOperations { operand, operator } => (operand, *operator),
            _ => {
                return Err(Error::InvalidCompileExpr);
            },
        };
        let k1 = match next_key(key, 1) {
            Ok(x) => x,
            Err(e) => {
                return Err(e);
            },
        };
        let (mut s, n) = match operand.compile_expression_helper(k1) {
            Ok(x) => x,
            Err(e) => {
                return Err(e);
            },
        };
        let ghost old_s = s@;
        let mut v = single(DerivedStream::Unary { un_op: operator, idx: k1 });
        v.append(&mut s);
        assert(v@ =~= seq![DerivedStream::Unary { un_op: operator, idx: k1 }] + old_s);
        Ok((v, n))
    }

    /// Compiles `foreach` and `sum`.
    #[verifier::spinoff_prover]
    fn compile_aggregate(&self, key: usize) -> (r: Result<(Vec<DerivedStream>, usize), Error>)
        requires
            self matches Expr::Function { aggregate_type, .. } && (aggregate_type == FunctionType::Foreach
                || aggregate_type == FunctionType::Sum),
        ensures
            compiled_view(r) == spec_compile(*self, key),
        decreases self, 0nat,
    {
        let (is_sum, expr) = match self {
            Expr::Function { aggregate_type, expr, .. } => (*aggregate_type == FunctionType::Sum, expr),
            _ => {
                return Err(Error::InvalidCompileExpr);
            },
        };
        let k1 = match next_key(key, 1) {
            Ok(x) => x,
            Err(e) => {
                return Err(e);
            },
        };
        let (mut s, n) = match expr.compile_expression_helper(k1) {
            Ok(x) => x,
            Err(e) => {
                return Err(e);
            },
        };
        let ghost old_s = s@;
        let head = if is_sum {
            DerivedStream::Sum { idx: k1 }
        } else {
            DerivedStream::Foreach { idx: k1 }
        };
        let mut v = single(head);
        v.append(&mut s);
        assert(v@ =~= seq![head] + old_s);
        Ok((v, n))
    }

    /// Compiles `avg`: the sum divided by the number of devices.
    #[verifier::spinoff_prover]
    fn compile_avg(&self, key: usize) -> (r: Result<(Vec<DerivedStream>, usize), Error>)
        requires
            self matches Expr::Function { aggregate_type: FunctionType::Avg, .. },
        ensures
            compiled_view(r) == spec_compile(*self, key),
        decreases self, 0nat,
    {
        let expr = match self {
            Expr::Function { expr, .. } => expr,
            _ => {
                return Err(Error::InvalidCompileExpr);
            },
        };
        let k1 = match next_key(key, 1) {
            Ok(x) => x,
            Err(e) => {
                return Err(e);
            },
        };
        let k2 = match next_key(key, 2) {
            Ok(x) => x,
            Err(e) => {
                return Err(e);
            },
        };
        let (mut s, n) = match expr.compile_expression_helper(k2) {
            Ok(x) => x,
            Err(e) => {
                return Err(e);
            },
        };
        let ghost old_s = s@;
        let n1 = match next_key(n, 1) {
            Ok(x) => x,
            Err(e) => {
                return Err(e);
            },
        };
        let mut v = single(DerivedStream::Binary { bin_op: BinaryOperators::Divide, idx_lhs: k1, idx_rhs: n });
        v.push(DerivedStream::Sum { idx: k2 });
        v.append(&mut s);
        v.push(DerivedStream::Size);
        assert(v@ =~= seq![
            DerivedStream::Binary { bin_op: BinaryOperators::Divide, idx_lhs: k1, idx_rhs: n },
            DerivedStream::Sum { idx: k2 },
        ] + old_s + seq![DerivedStream::Size]);
        Ok((v, n1))
    }

    /// Compiles `sumtime`: a sum over a time window of the sum over devices.
    #[verifier::spinoff_prover]
    fn compile_sumtime(&self, key: usize) -> (r: Result<(Vec<DerivedStream>, usize), Error>)
        requires
            self matches Expr::Function { aggregate_type: FunctionType::Sumtime, .. },
        ensures
            compiled_view(r) == spec_compile(*self, key),
        decreases self, 0nat,
    {
        let (expr, bound) = match self {
            Expr::Function { expr, bound, .. } => (expr, bound),
            _ => {
                return Err(Error::InvalidCompileExpr);
            },
        };
        let k1 = match next_key(key, 1) {
            Ok(x) => x,
            Err(e) => {
                return Err(e);
            },
        };
        let k2 = match next_key(key, 2) {
            Ok(x) => x,
            Err(e) => {
                return Err(e);
            },
        };
        let (mut s, n) = match expr.compile_expression_helper(k2) {
            Ok(x) => x,
            Err(e) => {
                return Err(e);
            },
        };
        let ghost old_s = s@;
        let len = match bound {
            None => {
                return Err(Error::InvalidFunctionIntervalExpr);
            },
            Some(b) => match b.get_bound_time_function() {
                Ok(x) => x,
                Err(e) => {
                    return Err(e);
                },
            },
        };
        let mut v = single(DerivedStream::Sumtime { interval_len: len, idx: k1 });
        v.push(DerivedStream::Sum { idx: k2 });
        v.append(&mut s);
        assert(v@ =~= seq![
            DerivedStream::Sumtime { interval_len: len, idx: k1 },
            DerivedStream::Sum { idx: k2 },
        ] + old_s);
        Ok((v, n))
    }

    /// Compiles `avgtime`: `sumtime` divided by the number of time points
    /// of its window.
    #[verifier::spinoff_prover]
    fn compile_avgtime(&self, key: usize) -> (r: Result<(Vec<DerivedStream>, usize), Error>)
        requires
            self matches Expr::Function { aggregate_type: FunctionType::Avgtime, .. },
        ensures
            compiled_view(r) == spec_compile(*self, key),
        decreases self, 0nat,
    {
        let (expr, bound) = match self {
            Expr::Function { expr, bound, .. } => (expr, bound),
            _ => {
                return Err(Error::InvalidCompileExpr);
            },
        };
        let k1 = match next_key(key, 1) {
            Ok(x) => x,
            Err(e) => {
                return Err(e);
            },
        };
        let k2 = match next_key(key, 2) {
            Ok(x) => x,
            Err(e) => {
                return Err(e);
            },
        };
        let k3 = match next_key(key, 3) {
            Ok(x) => x,
            Err(e) => {
                return Err(e);
            },
        };
        let (mut s, n) = match expr.compile_expression_helper(k3) {
            Ok(x) => x,
            Err(e) => {
                return Err(e);
            },
        };
        let ghost old_s = s@;
        let len = match bound {
            None => {
                return Err(Error::InvalidFunctionIntervalExpr);
            },
            Some(b) => match b.get_bound_time_function() {
                Ok(x) => x,
                Err(e) => {
                    return Err(e);
                },
            },
        };
        let count = match len.checked_add(1) {
            Some(c) => c,
            None => {
                return Err(Error::ArithmeticOverflow);
            },
        };
        let n1 = match next_key(n, 1) {
            Ok(x) => x,
            Err(e) => {
                return Err(e);
            },
        };
        let mut v = single(DerivedStream::Binary { bin_op: BinaryOperators::Divide, idx_lhs: k1, idx_rhs: n });
        v.push(DerivedStream::Sumtime { interval_len: len, idx: k2 });
        v.push(DerivedStream::Sum { idx: k3 });
        v.append(&mut s);
        v.push(DerivedStream::Number(count));
        assert(v@ =~= seq![
            DerivedStream::Binary { bin_op: BinaryOperators::Divide, idx_lhs: k1, idx_rhs: n },
            DerivedStream::Sumtime { interval_len: len, idx: k2 },
            DerivedStream::Sum { idx: k3 },
        ] + old_s + seq![DerivedStream::Number(count)]);
        Ok((v, n1))
    }
}

/// Operation `i` and all operations that it reaches exist and form no path
/// longer than `fuel`.
pub open spec fn node_shape(ops: Seq<DerivedStream>, i: int, fuel: nat) -> bool
    decreases fuel,
{
    if fuel == 0 || !(0 <= i < ops.len()) {
        false
    } else {
        match ops[i] {
            DerivedStream::Sum { idx }
            | DerivedStream::Foreach { idx }
            | DerivedStream::Sumtime { idx, .. }
            | DerivedStream::Unary { idx, .. }
            | DerivedStream::Miitl { idx, .. } => node_shape(ops, idx as int, (fuel - 1) as nat),
            DerivedStream::Binary { idx_lhs, idx_rhs, .. } => node_shape(ops, idx_lhs as int, (fuel - 1) as nat)
                && node_shape(ops, idx_rhs as int, (fuel - 1) as nat),
            _ => true,
        }
    }
}

/// From the root, every operation exists and no path revisits an
/// operation.
pub open spec fn program_shape(ops: Seq<DerivedStream>) -> bool {
    node_shape(ops, 0, ops.len())
}

/// How many time points before the current one operation `i` looks at: the
/// windows of time functions and the upper bounds of temporal operators add
/// up along a path, and the longest path counts.
pub open spec fn spec_stream_bound(ops: Seq<DerivedStream>, i: int, fuel: nat) -> Result<usize, Error>
    decreases fuel,
{
    if fuel == 0 || !(0 <= i < ops.len()) {
        Err(Error::MalformedProgram)
    } else {
        match ops[i] {
            DerivedStream::Sum { idx } | DerivedStream::Foreach { idx } | DerivedStream::Unary { idx, .. } => spec_stream_bound(
                ops,
                idx as int,
                (fuel - 1) as nat,
            ),
            DerivedStream::Sumtime { idx, interval_len } => match spec_stream_bound(ops, idx as int, (fuel - 1) as nat) {
                Err(e) => Err(e),
                Ok(b) => match b.checked_add(interval_len as usize) {
                    Some(x) => Ok(x),
                    None => Err(Error::ArithmeticOverflow),
                },
            },
            DerivedStream::Miitl { idx, bound, .. } => match spec_stream_bound(ops, idx as int, (fuel - 1) as nat) {
                Err(e) => Err(e),
                Ok(b) => match b.checked_add(bound.1 as usize) {
                    Some(x) => Ok(x),
                    None => Err(Error::ArithmeticOverflow),
                },
            },
            DerivedStream::Binary { idx_lhs, idx_rhs, .. } => match spec_stream_bound(ops, idx_lhs as int, (fuel - 1) as nat) {
                Err(e) => Err(e),
                Ok(l) => match spec_stream_bound(ops, idx_rhs as int, (fuel - 1) as nat) {
                    Err(e) => Err(e),
                    Ok(r) => Ok(if l >= r { l } else { r }),
                },
            },
            _ => Ok(0),
        }
    }
}

/// The history that a compiled property needs, in time points.
pub open spec fn stream_bound(ops: Seq<DerivedStream>) -> Result<usize, Error> {
    spec_stream_bound(ops, 0, ops.len())
}

impl Expr {
    /// The number of time points of device history that the property of
    /// `stream` looks back at.
    pub fn stream_max_bound(stream: &OutputStream) -> (r: Result<usize, Error>)
        requires
            program_shape(stream.derived_streams@),
        ensures
            r == stream_bound(stream.derived_streams@),
    {
        Expr::stream_bound_rec(stream, 0, stream.derived_streams.len())
    }

    fn stream_bound_rec(stream: &OutputStream, idx: usize, fuel: usize) -> (r: Result<usize, Error>)
        ensures
            r == spec_stream_bound(stream.derived_streams@, idx as int, fuel as nat),
        decreases fuel,
    {
        if fuel == 0 || idx >= stream.derived_streams.len() {
            return Err(Error::MalformedProgram);
        }
        match &stream.derived_streams[idx] {
            DerivedStream::Sum { idx } | DerivedStream::Foreach { idx } | DerivedStream::Unary { idx, .. } => Expr::stream_bound_rec(
                stream,
                *idx,
                fuel - 1,
            ),
            DerivedStream::Sumtime { idx, interval_len } => {
                let b = match Expr::stream_bound_rec(stream, *idx, fuel - 1) {
                    Ok(b) => b,
                    Err(e) => {
                        return Err(e);
                    },
                };
                match b.checked_add(*interval_len as usize) {
                    Some(x) => Ok(x),
                    None => Err(Error::ArithmeticOverflow),
                }
            },
            DerivedStream::Miitl { idx, bound, .. } => {
                let b = match Expr::stream_bound_rec(stream, *idx, fuel - 1) {
                    Ok(b) => b,
                    Err(e) => {
                        return Err(e);
                    },
                };
                match b.checked_add(bound.1 as usize) {
                    Some(x) => Ok(x),
                    None => Err(Error::ArithmeticOverflow),
                }
            },
            DerivedStream::Binary { idx_lhs, idx_rhs, .. } => {
                let l = match Expr::stream_bound_rec(stream, *idx_lhs, fuel - 1) {
                    Ok(b) => b,
                    Err(e) => {
                        return Err(e);
                    },
                };
                let r = match Expr::stream_bound_rec(stream, *idx_rhs, fuel - 1) {
                    Ok(b) => b,
                    Err(e) => {
                        return Err(e);
                    },
                };
                Ok(if l >= r { l } else { r })
            },
            _ => Ok(0),
        }
    }
}

/// The operand indices of an operation.
pub open spec fn operands(d: DerivedStream) -> Seq<usize> {
    match d {
        DerivedStream::Sum { idx }
        | DerivedStream::Foreach { idx }
        | DerivedStream::Sumtime { idx, .. }
        | DerivedStream::Unary { idx, .. }
        | DerivedStream::Miitl { idx, .. } => seq![idx],
        DerivedStream::Binary { idx_lhs, idx_rhs, .. } => seq![idx_lhs, idx_rhs],
        _ => Seq::empty(),
    }
}

/// With `s` placed at index `base`, every operand of an operation comes
/// after it and before `limit`.
pub open spec fn forward_within(s: Seq<DerivedStream>, base: int, limit: int) -> bool {
    forall|i: int, c: int|
        0 <= i < s.len() && 0 <= c < operands(s[i]).len() ==> base + i < #[trigger] operands(s[i])[c] < limit
}

proof fn lemma_forward_concat(a: Seq<DerivedStream>, b: Seq<DerivedStream>, base: int, la: int, limit: int)
    requires
        forward_within(a, base, la),
        la <= limit,
        forward_within(b, base + a.len(), limit),
    ensures
        forward_within(a + b, base, limit),
{
    let ab = a + b;
    assert forall|i: int, c: int| 0 <= i < ab.len() && 0 <= c < operands(ab[i]).len() implies base + i
        < #[trigger] operands(ab[i])[c] < limit by {
        if i < a.len() {
            assert(ab[i] == a[i]);
            assert(base + i < operands(a[i])[c] < la);
        } else {
            assert(ab[i] == b[i - a.len()]);
            assert(base + a.len() + (i - a.len()) < operands(b[i - a.len()])[c] < limit);
        }
    }
}

/// What the compiler gives is a block of operations that starts at `key`,
/// is not empty, ends before the next free index, and has every operand
/// after the operation that uses it and inside the block.
pub proof fn lemma_compile_forward(e: Expr, key: usize)
    ensures
        spec_compile(e, key) matches Ok((s, n)) ==> n == key + s.len() && s.len() > 0 && forward_within(
            s,
            key as int,
            n as int,
        ),
    decreases e, 1nat,
{
    match e {
        Expr::Always { interval: Some(_), .. } | Expr::Eventually { interval: Some(_), .. } => lemma_forward_miitl(e, key),
        Expr::BinaryOperations { .. } => lemma_forward_binary(e, key),
        Expr::UnaryOperations { .. } => lemma_forward_unary(e, key),
        Expr::Function { .. } => lemma_forward_function(e, key),
        _ => {},
    }
}

#[verifier::spinoff_prover]
proof fn lemma_forward_miitl(e: Expr, key: usize)
    requires
        e matches Expr::Always { interval: Some(_), .. } || e matches Expr::Eventually { interval: Some(_), .. },
    ensures
        spec_compile(e, key) matches Ok((s, n)) ==> n == key + s.len() && s.len() > 0 && forward_within(
            s,
            key as int,
            n as int,
        ),
    decreases e, 0nat,
{
    let expr = match e {
        Expr::Always { expr, .. } => expr,
        Expr::Eventually { expr, .. } => expr,
        _ => arbitrary(),
    };
        if key + 1 <= usize::MAX {
            lemma_compile_forward(*expr, (key + 1) as usize);
            if let Ok((s, n)) = spec_compile(e, key) {
                let (b, _) = spec_compile(*expr, (key + 1) as usize)->Ok_0;
                assert(forward_within(seq![s[0]], key as int, n as int));
                lemma_forward_concat(seq![s[0]], b, key as int, n as int, n as int);
                assert(s =~= seq![s[0]] + b);
            }
        }
}

#[verifier::spinoff_prover]
proof fn lemma_forward_binary(e: Expr, key: usize)
    requires
        e is BinaryOperations,
    ensures
        spec_compile(e, key) matches Ok((s, n)) ==> n == key + s.len() && s.len() > 0 && forward_within(
            s,
            key as int,
            n as int,
        ),
    decreases e, 0nat,
{
    let (lhs, rhs) = match e {
        Expr::BinaryOperations { lhs, rhs, .. } => (lhs, rhs),
        _ => (arbitrary(), arbitrary()),
    };
        if key + 1 <= usize::MAX {
            let k1 = (key + 1) as usize;
            lemma_compile_forward(*lhs, k1);
            if let Ok((s1, n1)) = spec_compile(*lhs, k1) {
                lemma_compile_forward(*rhs, n1);
                if let Ok((s, n)) = spec_compile(e, key) {
                    let (s2, _) = spec_compile(*rhs, n1)->Ok_0;
                    lemma_forward_concat(s1, s2, k1 as int, n1 as int, n as int);
                    assert(forward_within(seq![s[0]], key as int, n as int));
                    lemma_forward_concat(seq![s[0]], s1 + s2, key as int, n as int, n as int);
                    assert(s =~= seq![s[0]] + (s1 + s2));
                }
            }
        }
}

#[verifier::spinoff_prover]
proof fn lemma_forward_unary(e: Expr, key: usize)
    requires
        e is UnaryOperations,
    ensures
        spec_compile(e, key) matches Ok((s, n)) ==> n == key + s.len() && s.len() > 0 && forward_within(
            s,
            key as int,
            n as int,
        ),
    decreases e, 0nat,
{
    let operand = match e {
        Expr::UnaryOperations { operand, .. } => operand,
        _ => arbitrary(),
    };
        if key + 1 <= usize::MAX {
            lemma_compile_forward(*operand, (key + 1) as usize);
            if let Ok((s, n)) = spec_compile(e, key) {
                let (b, _) = spec_compile(*operand, (key + 1) as usize)->Ok_0;
                assert(forward_within(seq![s[0]], key as int, n as int));
                lemma_forward_concat(seq![s[0]], b, key as int, n as int, n as int);
                assert(s =~= seq![s[0]] + b);
            }
        }
}

#[verifier::spinoff_prover]
proof fn lemma_forward_function(e: Expr, key: usize)
    requires
        e is Function,
    ensures
        spec_compile(e, key) matches Ok((s, n)) ==> n == key + s.len() && s.len() > 0 && forward_within(
            s,
            key as int,
            n as int,
        ),
    decreases e, 0nat,
{
    let (aggregate_type, expr) = match e {
        Expr::Function { aggregate_type, expr, .. } => (aggregate_type, expr),
        _ => (FunctionType::Sum, arbitrary()),
    };
        if key + 3 <= usize::MAX {
            lemma_compile_forward(*expr, (key + 1) as usize);
            lemma_compile_forward(*expr, (key + 2) as usize);
            lemma_compile_forward(*expr, (key + 3) as usize);
        } else if key + 2 <= usize::MAX {
            lemma_compile_forward(*expr, (key + 1) as usize);
            lemma_compile_forward(*expr, (key + 2) as usize);
        } else if key + 1 <= usize::MAX {
            lemma_compile_forward(*expr, (key + 1) as usize);
        }
        if let Ok((s, n)) = spec_compile(e, key) {
            match aggregate_type {
                FunctionType::Foreach | FunctionType::Sum => {
                    let (b, _) = spec_compile(*expr, (key + 1) as usize)->Ok_0;
                    assert(forward_within(seq![s[0]], key as int, n as int));
                    lemma_forward_concat(seq![s[0]], b, key as int, n as int, n as int);
                    assert(s =~= seq![s[0]] + b);
                },
                FunctionType::Avg => {
                    let (b, m) = spec_compile(*expr, (key + 2) as usize)->Ok_0;
                    let last = seq![s[s.len() - 1]];
                    assert(forward_within(seq![s[1]], key + 1, m as int));
                    lemma_forward_concat(seq![s[1]], b, key + 1, m as int, m as int);
                    assert(forward_within(last, m as int, n as int));
                    lemma_forward_concat(seq![s[1]] + b, last, key + 1, m as int, n as int);
                    assert(forward_within(seq![s[0]], key as int, n as int));
                    lemma_forward_concat(seq![s[0]], seq![s[1]] + b + last, key as int, n as int, n as int);
                    assert(s =~= seq![s[0]] + (seq![s[1]] + b + last));
                },
                FunctionType::Sumtime => {
                    let (b, m) = spec_compile(*expr, (key + 2) as usize)->Ok_0;
                    assert(forward_within(seq![s[1]], key + 1, n as int));
                    lemma_forward_concat(seq![s[1]], b, key + 1, n as int, n as int);
                    assert(forward_within(seq![s[0]], key as int, n as int));
                    lemma_forward_concat(seq![s[0]], seq![s[1]] + b, key as int, n as int, n as int);
                    assert(s =~= seq![s[0]] + (seq![s[1]] + b));
                },
                FunctionType::Avgtime => {
                    let (b, m) = spec_compile(*expr, (key + 3) as usize)->Ok_0;
                    let last = seq![s[s.len() - 1]];
                    assert(forward_within(seq![s[2]], key + 2, m as int));
                    lemma_forward_concat(seq![s[2]], b, key + 2, m as int, m as int);
                    assert(forward_within(seq![s[1]], key + 1, m as int));
                    lemma_forward_concat(seq![s[1]], seq![s[2]] + b, key + 1, m as int, m as int);
                    assert(forward_within(last, m as int, n as int));
                    lemma_forward_concat(seq![s[1]] + (seq![s[2]] + b), last, key + 1, m as int, n as int);
                    assert(forward_within(seq![s[0]], key as int, n as int));
                    lemma_forward_concat(
                        seq![s[0]],
                        seq![s[1]] + (seq![s[2]] + b) + last,
                        key as int,
                        n as int,
                        n as int,
                    );
                    assert(s =~= seq![s[0]] + (seq![s[1]] + (seq![s[2]] + b) + last));
                },
                _ => {},
            }
        }
}

proof fn lemma_forward_shape(s: Seq<DerivedStream>, i: int, fuel: nat)
    requires
        forward_within(s, 0, s.len() as int),
        0 <= i < s.len(),
        fuel >= s.len() - i,
    ensures
        node_shape(s, i, fuel),
    decreases fuel,
{
    let ops = operands(s[i]);
    assert forall|c: int| 0 <= c < ops.len() implies node_shape(s, ops[c] as int, (fuel - 1) as nat) by {
        assert(i < operands(s[i])[c] < s.len());
        lemma_forward_shape(s, ops[c] as int, (fuel - 1) as nat);
    }
    match s[i] {
        DerivedStream::Binary { .. } => {
            assert(node_shape(s, ops[0] as int, (fuel - 1) as nat));
            assert(node_shape(s, ops[1] as int, (fuel - 1) as nat));
        },
        DerivedStream::Sum { .. }
        | DerivedStream::Foreach { .. }
        | DerivedStream::Sumtime { .. }
        | DerivedStream::Unary { .. }
        | DerivedStream::Miitl { .. } => {
            assert(node_shape(s, ops[0] as int, (fuel - 1) as nat));
        },
        _ => {},
    }
}

/// A compiled property is a well-shaped program: from the root, every
/// operation exists and no path revisits an operation.
pub proof fn lemma_compiled_program_shape(e: Expr)
    ensures
        spec_compile(e, 0) matches Ok((s, _)) ==> program_shape(s),
{
    lemma_compile_forward(e, 0);
    if let Ok((s, _)) = spec_compile(e, 0) {
        lemma_forward_shape(s, 0, s.len());
    }
}

/// How many operand slots of `d` hold index `c`.
pub open spec fn hits(d: DerivedStream, c: int) -> nat {
    match d {
        DerivedStream::Sum { idx }
        | DerivedStream::Foreach { idx }
        | DerivedStream::Sumtime { idx, .. }
        | DerivedStream::Unary { idx, .. }
        | DerivedStream::Miitl { idx, .. } => if idx == c {
            1nat
        } else {
            0nat
        },
        DerivedStream::Binary { idx_lhs, idx_rhs, .. } => (if idx_lhs == c {
            1nat
        } else {
            0nat
        }) + (if idx_rhs == c {
            1nat
        } else {
            0nat
        }),
        _ => 0nat,
    }
}

/// How many operand slots of the operations `s` hold index `c`.
pub open spec fn use_count(s: Seq<DerivedStream>, c: int) -> nat
    decreases s.len(),
{
    if s.len() == 0 {
        0
    } else {
        use_count(s.drop_last(), c) + hits(s.last(), c)
    }
}

/// Every index after `key` and before `n` is the operand of exactly one
/// operation of `s`.
pub open spec fn used_once(s: Seq<DerivedStream>, key: int, n: int) -> bool {
    forall|c: int| key < c < n ==> #[trigger] use_count(s, c) == 1
}

proof fn lemma_use_count_concat(a: Seq<DerivedStream>, b: Seq<DerivedStream>, c: int)
    ensures
        use_count(a + b, c) == use_count(a, c) + use_count(b, c),
    decreases b.len(),
{
    if b.len() == 0 {
        assert(a + b =~= a);
    } else {
        lemma_use_count_concat(a, b.drop_last(), c);
        assert((a + b).drop_last() =~= a + b.drop_last());
        assert((a + b).last() == b.last());
    }
}

proof fn lemma_use_count_single(x: DerivedStream, c: int)
    ensures
        use_count(seq![x], c) == hits(x, c),
{
    assert(seq![x].drop_last() =~= Seq::<DerivedStream>::empty());
    assert(use_count(Seq::<DerivedStream>::empty(), c) == 0);
    assert(seq![x].last() == x);
}

proof fn lemma_use_count_pair(x: DerivedStream, y: DerivedStream, c: int)
    ensures
        use_count(seq![x, y], c) == hits(x, c) + hits(y, c),
{
    lemma_use_count_single(x, c);
    lemma_use_count_single(y, c);
    lemma_use_count_concat(seq![x], seq![y], c);
    assert(seq![x] + seq![y] =~= seq![x, y]);
}

proof fn lemma_use_count_triple(x: DerivedStream, y: DerivedStream, z: DerivedStream, c: int)
    ensures
        use_count(seq![x, y, z], c) == hits(x, c) + hits(y, c) + hits(z, c),
{
    lemma_use_count_pair(x, y, c);
    lemma_use_count_single(z, c);
    lemma_use_count_concat(seq![x, y], seq![z], c);
    assert(seq![x, y] + seq![z] =~= seq![x, y, z]);
}

/// Operations whose operands lie after `base` and before `limit` use no
/// index outside that range.
proof fn lemma_use_count_outside(s: Seq<DerivedStream>, base: int, limit: int, c: int)
    requires
        forward_within(s, base, limit),
        c <= base || c >= limit,
    ensures
        use_count(s, c) == 0,
    decreases s.len(),
{
    if s.len() > 0 {
        let p = s.drop_last();
        assert forall|i: int, k: int| 0 <= i < p.len() && 0 <= k < operands(p[i]).len() implies base + i
            < #[trigger] operands(p[i])[k] < limit by {
            assert(p[i] == s[i]);
        }
        lemma_use_count_outside(p, base, limit, c);
        let i = s.len() - 1;
        if operands(s[i]).len() > 0 {
            assert(base + i < operands(s[i])[0] < limit);
        }
        if operands(s[i]).len() > 1 {
            assert(base + i < operands(s[i])[1] < limit);
        }
    }
}

/// A compiled block that starts at `kb` and ends before `m` uses each index
/// inside it once, after its root, and none outside.
proof fn lemma_block_count(b: Seq<DerivedStream>, kb: int, m: int, c: int)
    requires
        forward_within(b, kb, m),
        used_once(b, kb, m),
    ensures
        use_count(b, c) == (if kb < c < m {
            1nat
        } else {
            0nat
        }),
{
    if kb < c < m {
        assert(use_count(b, c) == 1);
    } else {
        lemma_use_count_outside(b, kb, m, c);
    }
}

/// What the compiler gives is a tree laid out in pre-order: a non-empty
/// block that starts with its root at `key` and ends before the next free
/// index, where every operand comes after the operation that uses it and
/// inside the block, and every index of the block but the root is the
/// operand of exactly one operation.
pub proof fn lemma_compile_tree(e: Expr, key: usize)
    ensures
        spec_compile(e, key) matches Ok((s, n)) ==> {
            &&& n == key + s.len()
            &&& s.len() > 0
            &&& forward_within(s, key as int, n as int)
            &&& used_once(s, key as int, n as int)
        },
    decreases e, 1nat,
{
    lemma_compile_forward(e, key);
    match e {
        Expr::Always { interval: Some(_), .. } | Expr::Eventually { interval: Some(_), .. } => lemma_tree_miitl(e, key),
        Expr::BinaryOperations { .. } => lemma_tree_binary(e, key),
        Expr::UnaryOperations { .. } => lemma_tree_unary(e, key),
        Expr::Function { .. } => lemma_tree_function(e, key),
        _ => {
            if let Ok((s, n)) = spec_compile(e, key) {
                assert forall|c: int| key < c < n implies #[trigger] use_count(s, c) == 1 by {}
            }
        },
    }
}

/// A node at `key` whose only operand is `key + 1`, in front of a compiled
/// block rooted there, is a tree.
proof fn lemma_tree_head(h: DerivedStream, b: Seq<DerivedStream>, key: int, n: int)
    requires
        forward_within(b, key + 1, n),
        used_once(b, key + 1, n),
        forall|c: int| #[trigger] hits(h, c) == (if c == key + 1 {
            1nat
        } else {
            0nat
        }),
    ensures
        used_once(seq![h] + b, key, n),
{
    assert forall|c: int| key < c < n implies #[trigger] use_count(seq![h] + b, c) == 1 by {
        lemma_use_count_concat(seq![h], b, c);
        lemma_use_count_single(h, c);
        lemma_block_count(b, key + 1, n, c);
        assert(hits(h, c) == (if c == key + 1 {
            1nat
        } else {
            0nat
        }));
    }
}

#[verifier::spinoff_prover]
proof fn lemma_tree_miitl(e: Expr, key: usize)
    requires
        e matches Expr::Always { interval: Some(_), .. } || e matches Expr::Eventually { interval: Some(_), .. },
    ensures
        spec_compile(e, key) matches Ok((s, n)) ==> used_once(s, key as int, n as int),
    decreases e, 0nat,
{
    let expr = match e {
        Expr::Always { expr, .. } => expr,
        Expr::Eventually { expr, .. } => expr,
        _ => arbitrary(),
    };
    if key + 1 <= usize::MAX {
        lemma_compile_tree(*expr, (key + 1) as usize);
        if let Ok((s, n)) = spec_compile(e, key) {
            let (b, _) = spec_compile(*expr, (key + 1) as usize)->Ok_0;
            assert(s =~= seq![s[0]] + b);
            lemma_tree_head(s[0], b, key as int, n as int);
        }
    }
}

#[verifier::spinoff_prover]
proof fn lemma_tree_unary(e: Expr, key: usize)
    requires
        e is UnaryOperations,
    ensures
        spec_compile(e, key) matches Ok((s, n)) ==> used_once(s, key as int, n as int),
    decreases e, 0nat,
{
    let operand = match e {
        Expr::UnaryOperations { operand, .. } => operand,
        _ => arbitrary(),
    };
    if key + 1 <= usize::MAX {
        lemma_compile_tree(*operand, (key + 1) as usize);
        if let Ok((s, n)) = spec_compile(e, key) {
            let (b, _) = spec_compile(*operand, (key + 1) as usize)->Ok_0;
            assert(s =~= seq![s[0]] + b);
            lemma_tree_head(s[0], b, key as int, n as int);
        }
    }
}

#[verifier::spinoff_prover]
proof fn lemma_tree_binary(e: Expr, key: usize)
    requires
        e is BinaryOperations,
    ensures
        spec_compile(e, key) matches Ok((s, n)) ==> used_once(s, key as int, n as int),
    decreases e, 0nat,
{
    let (lhs, rhs) = match e {
        Expr::BinaryOperations { lhs, rhs, .. } => (lhs, rhs),
        _ => (arbitrary(), arbitrary()),
    };
    if key + 1 <= usize::MAX {
        let k1 = (key + 1) as usize;
        lemma_compile_tree(*lhs, k1);
        if let Ok((s1, n1)) = spec_compile(*lhs, k1) {
            lemma_compile_tree(*rhs, n1);
            if let Ok((s, n)) = spec_compile(e, key) {
                let (s2, _) = spec_compile(*rhs, n1)->Ok_0;
                let h = s[0];
                assert(s =~= seq![h] + s1 + s2);
                assert forall|c: int| key < c < n implies #[trigger] use_count(s, c) == 1 by {
                    lemma_use_count_concat(seq![h] + s1, s2, c);
                    lemma_use_count_concat(seq![h], s1, c);
                    lemma_use_count_single(h, c);
                    lemma_block_count(s1, k1 as int, n1 as int, c);
                    lemma_block_count(s2, n1 as int, n as int, c);
                }
            }
        }
    }
}

#[verifier::spinoff_prover]
#[verifier::rlimit(40)]
proof fn lemma_tree_function(e: Expr, key: usize)
    requires
        e is Function,
    ensures
        spec_compile(e, key) matches Ok((s, n)) ==> used_once(s, key as int, n as int),
    decreases e, 0nat,
{
    let (aggregate_type, expr) = match e {
        Expr::Function { aggregate_type, expr, .. } => (aggregate_type, expr),
        _ => (FunctionType::Sum, arbitrary()),
    };
    if key + 3 <= usize::MAX {
        lemma_compile_tree(*expr, (key + 1) as usize);
        lemma_compile_tree(*expr, (key + 2) as usize);
        lemma_compile_tree(*expr, (key + 3) as usize);
    } else if key + 2 <= usize::MAX {
        lemma_compile_tree(*expr, (key + 1) as usize);
        lemma_compile_tree(*expr, (key + 2) as usize);
    } else if key + 1 <= usize::MAX {
        lemma_compile_tree(*expr, (key + 1) as usize);
    }
    if let Ok((s, n)) = spec_compile(e, key) {
        match aggregate_type {
            FunctionType::Foreach | FunctionType::Sum => {
                let (b, _) = spec_compile(*expr, (key + 1) as usize)->Ok_0;
                assert(s =~= seq![s[0]] + b);
                lemma_tree_head(s[0], b, key as int, n as int);
            },
            FunctionType::Avg => {
                let (b, m) = spec_compile(*expr, (key + 2) as usize)->Ok_0;
                let pre = seq![s[0], s[1]];
                let post = seq![s[s.len() - 1]];
                assert(s =~= pre + b + post);
                assert forall|c: int| key < c < n implies #[trigger] use_count(s, c) == 1 by {
                    lemma_use_count_concat(pre + b, post, c);
                    lemma_use_count_concat(pre, b, c);
                    lemma_use_count_pair(s[0], s[1], c);
                    lemma_use_count_single(s[s.len() - 1], c);
                    lemma_block_count(b, key + 2, m as int, c);
                }
            },
            FunctionType::Sumtime => {
                let (b, m) = spec_compile(*expr, (key + 2) as usize)->Ok_0;
                let pre = seq![s[0], s[1]];
                assert(s =~= pre + b);
                assert forall|c: int| key < c < n implies #[trigger] use_count(s, c) == 1 by {
                    lemma_use_count_concat(pre, b, c);
                    lemma_use_count_pair(s[0], s[1], c);
                    lemma_block_count(b, key + 2, m as int, c);
                }
            },
            FunctionType::Avgtime => {
                let (b, m) = spec_compile(*expr, (key + 3) as usize)->Ok_0;
                let pre = seq![s[0], s[1], s[2]];
                let post = seq![s[s.len() - 1]];
                assert(s =~= pre + b + post);
                assert forall|c: int| key < c < n implies #[trigger] use_count(s, c) == 1 by {
                    lemma_use_count_concat(pre + b, post, c);
                    lemma_use_count_concat(pre, b, c);
                    lemma_use_count_triple(s[0], s[1], s[2], c);
                    lemma_use_count_single(s[s.len() - 1], c);
                    lemma_block_count(b, key + 3, m as int, c);
                }
            },
            _ => {},
        }
    }
}



/// The history that an operation needs covers what each of its operands
/// needs: a binary operation needs the larger of its two operands' needs,
/// a time function or a temporal operator needs its operand's need plus
/// its window, and the other operations need what their operand needs.
pub proof fn lemma_bound_covers_operands(ops: Seq<DerivedStream>, i: int, fuel: nat)
    requires
        spec_stream_bound(ops, i, fuel) is Ok,
    ensures
        fuel > 0,
        0 <= i < ops.len(),
        forall|k: int|
            0 <= k < operands(ops[i]).len() ==> {
                &&& spec_stream_bound(ops, #[trigger] operands(ops[i])[k] as int, (fuel - 1) as nat) is Ok
                &&& spec_stream_bound(ops, operands(ops[i])[k] as int, (fuel - 1) as nat)->Ok_0 <= spec_stream_bound(
                    ops,
                    i,
                    fuel,
                )->Ok_0
            },
        ops[i] is Binary ==> (spec_stream_bound(ops, i, fuel)->Ok_0 == spec_stream_bound(ops, operands(ops[i])[0] as int, (fuel - 1) as nat)->Ok_0
            || spec_stream_bound(ops, i, fuel)->Ok_0 == spec_stream_bound(ops, operands(ops[i])[1] as int, (fuel - 1) as nat)->Ok_0),
        ops[i] is Sum || ops[i] is Foreach || ops[i] is Unary ==> spec_stream_bound(ops, i, fuel)->Ok_0 == spec_stream_bound(
            ops,
            operands(ops[i])[0] as int,
            (fuel - 1) as nat,
        )->Ok_0,
{
}

} // verus!

//! Gate translation: each command of the input circuit becomes an
//! ordered run of primitive simulator gates, applied left to right.
//!
//! The input format counts rotations in half-turns and in the opposite
//! direction to the simulator, so every translated rotation angle is
//! scaled by π and negated relative to the stored symbolic parameter —
//! except where a decomposition calls for the opposite rotation back.
//! Angles stay symbolic here: a primitive rotation gate carries the
//! preprocessed expression text and a sign, and the realized angle is
//! `sign · π · value(expr)` radians, evaluated by the caller.

use vstd::prelude::*;

use crate::circuit::{spec_get_arg, get_arg, Circuit, Command, OpKind, TranslateError};
use crate::expr::{preprocess_param, rewritten};
use crate::rng::RngStream;

verus! {

/// Which execution strategy the translation serves. The strategy is
/// fixed when a run is constructed, not switched at run time.
#[derive(Clone, Copy, Debug, PartialEq, Eq, Structural)]
pub enum Strategy {
    /// Per-shot resimulation: a measurement becomes a measurement
    /// primitive seeded by one fresh draw of the random stream.
    PerShot,
    /// Single-state bulk sampling: mid-circuit measurement is not
    /// representable, so a measurement becomes an identity no-op and
    /// the final amplitudes are sampled instead.
    Bulk,
}

/// One primitive simulator gate. Rotation angles are symbolic: the
/// preprocessed expression text plus a sign, realizing the angle
/// `(if negated { -1 } else { 1 }) · π · value(expr)` radians.
#[derive(Clone, Debug, PartialEq, Eq)]
pub enum PrimGate {
    /// Pauli-X on qubit `q`.
    X { q: u32 },
    /// Pauli-Y on qubit `q`.
    Y { q: u32 },
    /// Pauli-Z on qubit `q`.
    Z { q: u32 },
    /// Hadamard on qubit `q`.
    H { q: u32 },
    /// Controlled-NOT.
    Cnot { control: u32, target: u32 },
    /// Rotation about the X axis of qubit `q`.
    Rx { q: u32, expr: Vec<u8>, negated: bool },
    /// Rotation about the Z axis of qubit `q`.
    Rz { q: u32, expr: Vec<u8>, negated: bool },
    /// Two-qubit Pauli Z⊗Z rotation.
    ZzRotation { q0: u32, q1: u32, expr: Vec<u8>, negated: bool },
    /// Measurement of qubit `q` into classical bit `c`, seeded with one
    /// fresh draw of the random stream.
    Measure { q: u32, c: u32, seed: u64 },
    /// Identity no-op on qubit `q`.
    Identity { q: u32 },
}

/// The mathematical model of a primitive gate: expression text as a
/// byte sequence.
pub enum GateSpec {
    X { q: u32 },
    Y { q: u32 },
    Z { q: u32 },
    H { q: u32 },
    Cnot { control: u32, target: u32 },
    Rx { q: u32, expr: Seq<u8>, negated: bool },
    Rz { q: u32, expr: Seq<u8>, negated: bool },
    ZzRotation { q0: u32, q1: u32, expr: Seq<u8>, negated: bool },
    Measure { q: u32, c: u32, seed: u64 },
    Identity { q: u32 },
}

impl View for PrimGate {
    type V = GateSpec;

    open spec fn view(&self) -> GateSpec {
        match self {
            PrimGate::X { q } => GateSpec::X { q: *q },
            PrimGate::Y { q } => GateSpec::Y { q: *q },
            PrimGate::Z { q } => GateSpec::Z { q: *q },
            PrimGate::H { q } => GateSpec::H { q: *q },
            PrimGate::Cnot { control, target } => GateSpec::Cnot {
                control: *control,
                target: *target,
            },
            PrimGate::Rx { q, expr, negated } => GateSpec::Rx {
                q: *q,
                expr: expr@,
                negated: *negated,
            },
            PrimGate::Rz { q, expr, negated } => GateSpec::Rz {
                q: *q,
                expr: expr@,
                negated: *negated,
            },
            PrimGate::ZzRotation { q0, q1, expr, negated } => GateSpec::ZzRotation {
                q0: *q0,
                q1: *q1,
                expr: expr@,
                negated: *negated,
            },
            PrimGate::Measure { q, c, seed } => GateSpec::Measure {
                q: *q,
                c: *c,
                seed: *seed,
            },
            PrimGate::Identity { q } => GateSpec::Identity { q: *q },
        }
    }
}

/// The models of a run of primitive gates.
pub open spec fn gates_view(gs: Seq<PrimGate>) -> Seq<GateSpec> {
    gs.map_values(|g: PrimGate| g@)
}

/// The draw a command would consume next: element `k` of the stream,
/// or an arbitrary fixed value past its end.
pub open spec fn next_draw(draws: Seq<u64>, k: int) -> u64 {
    if 0 <= k < draws.len() {
        draws[k]
    } else {
        0
    }
}

/// What one command translates to under a strategy, given the draw it
/// would consume were it a per-shot measurement; and how many draws it
/// consumes (1 for a per-shot measurement whose arguments resolve, 0
/// otherwise). The first failing extraction decides the error:
/// argument positions in order, then parameters.
pub open spec fn spec_translate_command(cmd: Command, strategy: Strategy, seed: u64) -> (Result<
    Seq<GateSpec>,
    TranslateError,
>, int) {
    match cmd.op {
        OpKind::PauliX => (
            match spec_get_arg(cmd, 0) {
                Ok(q) => Ok(seq![GateSpec::X { q }]),
                Err(e) => Err(e),
            },
            0,
        ),
        OpKind::PauliY => (
            match spec_get_arg(cmd, 0) {
                Ok(q) => Ok(seq![GateSpec::Y { q }]),
                Err(e) => Err(e),
            },
            0,
        ),
        OpKind::PauliZ => (
            match spec_get_arg(cmd, 0) {
                Ok(q) => Ok(seq![GateSpec::Z { q }]),
                Err(e) => Err(e),
            },
            0,
        ),
        OpKind::Hadamard => (
            match spec_get_arg(cmd, 0) {
                Ok(q) => Ok(seq![GateSpec::H { q }]),
                Err(e) => Err(e),
            },
            0,
        ),
        OpKind::Cnot => (
            match (spec_get_arg(cmd, 0), spec_get_arg(cmd, 1)) {
                (Ok(control), Ok(target)) => Ok(seq![GateSpec::Cnot { control, target }]),
                (Err(e), _) => Err(e),
                (_, Err(e)) => Err(e),
            },
            0,
        ),
        OpKind::PhasedX => (
            match spec_get_arg(cmd, 0) {
                Ok(q) => if cmd.params@.len() < 2 {
                    Err(TranslateError::MissingParam)
                } else {
                    Ok(
                        seq![
                            GateSpec::Rz { q, expr: rewritten(cmd.params@[1]@), negated: true },
                            GateSpec::Rx { q, expr: rewritten(cmd.params@[0]@), negated: true },
                            GateSpec::Rz { q, expr: rewritten(cmd.params@[1]@), negated: false },
                        ],
                    )
                },
                Err(e) => Err(e),
            },
            0,
        ),
        OpKind::ZZPhase => (
            match (spec_get_arg(cmd, 0), spec_get_arg(cmd, 1)) {
                (Ok(q0), Ok(q1)) => if cmd.params@.len() < 1 {
                    Err(TranslateError::MissingParam)
                } else {
                    Ok(
                        seq![
                            GateSpec::ZzRotation {
                                q0,
                                q1,
                                expr: rewritten(cmd.params@[0]@),
                                negated: true,
                            },
                        ],
                    )
                },
                (Err(e), _) => Err(e),
                (_, Err(e)) => Err(e),
            },
            0,
        ),
        OpKind::Measure => match strategy {
            Strategy::PerShot => match (spec_get_arg(cmd, 0), spec_get_arg(cmd, 1)) {
                (Ok(q), Ok(c)) => (Ok(seq![GateSpec::Measure { q, c, seed }]), 1),
                (Err(e), _) => (Err(e), 0),
                (_, Err(e)) => (Err(e), 0),
            },
            Strategy::Bulk => (
                match spec_get_arg(cmd, 0) {
                    Ok(q) => Ok(seq![GateSpec::Identity { q }]),
                    Err(e) => Err(e),
                },
                0,
            ),
        },
        OpKind::Unsupported => (Err(TranslateError::UnsupportedOp), 0),
    }
}

/// What the first `i` commands translate to from a draw stream, and how
/// many draws they consume. The first failing command stops
/// translation; its error is the circuit's.
pub open spec fn spec_translate_prefix(c: Circuit, strategy: Strategy, draws: Seq<u64>, i: int) -> (
    Result<Seq<GateSpec>, TranslateError>,
    int,
)
    decreases i,
{
    if i <= 0 {
        (Ok(seq![]), 0)
    } else {
        let prev = spec_translate_prefix(c, strategy, draws, i - 1);
        match prev.0 {
            Err(e) => prev,
            Ok(gs) => {
                let cur = spec_translate_command(
                    c.commands@[i - 1],
                    strategy,
                    next_draw(draws, prev.1),
                );
                match cur.0 {
                    Err(e) => (Err(e), prev.1),
                    Ok(g2) => (Ok(gs + g2), prev.1 + cur.1),
                }
            },
        }
    }
}

/// What the whole circuit translates to from a draw stream.
pub open spec fn spec_translate_circuit(c: Circuit, strategy: Strategy, draws: Seq<u64>) -> (Result<
    Seq<GateSpec>,
    TranslateError,
>, int) {
    spec_translate_prefix(c, strategy, draws, c.commands@.len() as int)
}

/// One command consumes zero or one draws.
pub proof fn lemma_command_draw_bound(cmd: Command, strategy: Strategy, seed: u64)
    ensures
        0 <= spec_translate_command(cmd, strategy, seed).1 <= 1,
{
}

/// The seed offered to a command matters only where it is consumed: the
/// draw count never depends on it, and a command that draws nothing
/// translates the same under any seed.
pub proof fn lemma_command_seed_irrelevant(cmd: Command, strategy: Strategy, s1: u64, s2: u64)
    ensures
        spec_translate_command(cmd, strategy, s1).1 == spec_translate_command(cmd, strategy, s2).1,
        spec_translate_command(cmd, strategy, s1).1 == 0 ==> spec_translate_command(
            cmd,
            strategy,
            s1,
        ) == spec_translate_command(cmd, strategy, s2),
{
}

/// A prefix consumes at least zero and at most one draw per command,
/// never fewer than a shorter prefix.
pub proof fn lemma_prefix_draw_count(c: Circuit, strategy: Strategy, draws: Seq<u64>, i: int)
    requires
        0 <= i,
    ensures
        0 <= spec_translate_prefix(c, strategy, draws, i).1 <= i,
        i > 0 ==> spec_translate_prefix(c, strategy, draws, i - 1).1 <= spec_translate_prefix(
            c,
            strategy,
            draws,
            i,
        ).1,
    decreases i,
{
    if i > 0 {
        lemma_prefix_draw_count(c, strategy, draws, i - 1);
        lemma_command_draw_bound(
            c.commands@[i - 1],
            strategy,
            next_draw(draws, spec_translate_prefix(c, strategy, draws, i - 1).1),
        );
    }
}

/// Translation reads only the draws it consumes: two streams that agree
/// on the consumed prefix translate a circuit prefix identically. This
/// is the determinism behind seeded reproducibility: with a seeded
/// stream the consumed draws are a function of the seed, so the
/// primitive-gate sequence is too.
pub proof fn lemma_prefix_depends_on_consumed(
    c: Circuit,
    strategy: Strategy,
    d1: Seq<u64>,
    d2: Seq<u64>,
    i: int,
)
    requires
        0 <= i,
        spec_translate_prefix(c, strategy, d1, i).1 <= d1.len(),
        spec_translate_prefix(c, strategy, d1, i).1 <= d2.len(),
        d1.take(spec_translate_prefix(c, strategy, d1, i).1) == d2.take(
            spec_translate_prefix(c, strategy, d1, i).1,
        ),
    ensures
        spec_translate_prefix(c, strategy, d2, i) == spec_translate_prefix(c, strategy, d1, i),
    decreases i,
{
    if i > 0 {
        let k = spec_translate_prefix(c, strategy, d1, i).1;
        let k1 = spec_translate_prefix(c, strategy, d1, i - 1).1;
        lemma_prefix_draw_count(c, strategy, d1, i);
        lemma_prefix_draw_count(c, strategy, d1, i - 1);
        assert(k1 <= k);
        assert(d1.take(k1) =~= d1.take(k).take(k1));
        assert(d2.take(k1) =~= d2.take(k).take(k1));
        lemma_prefix_depends_on_consumed(c, strategy, d1, d2, i - 1);
        let prev = spec_translate_prefix(c, strategy, d1, i - 1);
        if prev.0 is Ok {
            let cmd = c.commands@[i - 1];
            lemma_command_seed_irrelevant(cmd, strategy, next_draw(d1, k1), next_draw(d2, k1));
            let cur = spec_translate_command(cmd, strategy, next_draw(d1, k1));
            if cur.1 == 1 && cur.0 is Ok {
                assert(k == k1 + 1);
                assert(d1.take(k)[k1] == d2.take(k)[k1]);
                assert(next_draw(d1, k1) == next_draw(d2, k1));
            }
        }
    }
}

/// Once a prefix fails, every longer prefix fails the same way and
/// consumes no further draws.
pub proof fn lemma_prefix_error_stable(
    c: Circuit,
    strategy: Strategy,
    draws: Seq<u64>,
    i: int,
    j: int,
)
    requires
        0 <= i <= j,
        spec_translate_prefix(c, strategy, draws, i).0 is Err,
    ensures
        spec_translate_prefix(c, strategy, draws, j) == spec_translate_prefix(
            c,
            strategy,
            draws,
            i,
        ),
    decreases j - i,
{
    if j > i {
        lemma_prefix_error_stable(c, strategy, draws, i, j - 1);
    }
}

/// Bulk translation never draws: a measurement becomes an identity
/// no-op, so the translated gates are independent of the random stream.
pub proof fn lemma_translate_bulk_no_draws(c: Circuit, d1: Seq<u64>, d2: Seq<u64>, i: int)
    requires
        0 <= i,
    ensures
        spec_translate_prefix(c, Strategy::Bulk, d1, i).1 == 0,
        spec_translate_prefix(c, Strategy::Bulk, d1, i) == spec_translate_prefix(
            c,
            Strategy::Bulk,
            d2,
            i,
        ),
    decreases i,
{
    if i > 0 {
        lemma_translate_bulk_no_draws(c, d1, d2, i - 1);
        lemma_command_seed_irrelevant(
            c.commands@[i - 1],
            Strategy::Bulk,
            next_draw(d1, 0),
            next_draw(d2, 0),
        );
    }
}

/// Translating the same circuit under the same strategy is a function
/// of the consumed draws alone: two translations whose streams agree on
/// the consumed prefix yield identical primitive-gate sequences and
/// identical errors.
pub proof fn lemma_translate_circuit_deterministic(
    c: Circuit,
    strategy: Strategy,
    d1: Seq<u64>,
    d2: Seq<u64>,
)
    requires
        spec_translate_circuit(c, strategy, d1).1 <= d1.len(),
        spec_translate_circuit(c, strategy, d1).1 <= d2.len(),
        d1.take(spec_translate_circuit(c, strategy, d1).1) == d2.take(
            spec_translate_circuit(c, strategy, d1).1,
        ),
    ensures
        spec_translate_circuit(c, strategy, d2) == spec_translate_circuit(c, strategy, d1),
{
    lemma_prefix_depends_on_consumed(c, strategy, d1, d2, c.commands@.len() as int);
}

/// Translate one command, drawing a measurement seed from the stream
/// where the strategy calls for one.
#[verifier::rlimit(100)]
pub fn translate_command(cmd: &Command, strategy: Strategy, rng: &mut RngStream) -> (r: Result<
    Vec<PrimGate>,
    TranslateError,
>)
    ensures
        ({
            let k0 = old(rng).draws().len() as int;
            let hist = final(rng).draws();
            let res = spec_translate_command(*cmd, strategy, next_draw(hist, k0));
            &&& hist.len() == k0 + res.1
            &&& hist.take(k0) == old(rng).draws()
            &&& match (r, res.0) {
                (Ok(v), Ok(gs)) => gates_view(v@) == gs,
                (Err(e1), Err(e2)) => e1 == e2,
                _ => false,
            }
        }),
{
    let ghost k0 = rng.draws().len() as int;
    match cmd.op {
        OpKind::PauliX => {
            let q = match get_arg(cmd, 0) {
                Ok(v) => v,
                Err(e) => {
                    proof {
                        assert(rng.draws().take(k0) =~= rng.draws());
                    }
                    return Err(e);
                },
            };
            let mut gates: Vec<PrimGate> = Vec::new();
            gates.push(PrimGate::X { q });
            proof {
                assert(rng.draws().take(k0) =~= rng.draws());
                assert(gates_view(gates@) =~= seq![GateSpec::X { q }]);
            }
            Ok(gates)
        },
        OpKind::PauliY => {
            let q = match get_arg(cmd, 0) {
                Ok(v) => v,
                Err(e) => {
                    proof {
                        assert(rng.draws().take(k0) =~= rng.draws());
                    }
                    return Err(e);
                },
            };
            let mut gates: Vec<PrimGate> = Vec::new();
            gates.push(PrimGate::Y { q });
            proof {
                assert(rng.draws().take(k0) =~= rng.draws());
                assert(gates_view(gates@) =~= seq![GateSpec::Y { q }]);
            }
            Ok(gates)
        },
        OpKind::PauliZ => {
            let q = match get_arg(cmd, 0) {
                Ok(v) => v,
                Err(e) => {
                    proof {
                        assert(rng.draws().take(k0) =~= rng.draws());
                    }
                    return Err(e);
                },
            };
            let mut gates: Vec<PrimGate> = Vec::new();
            gates.push(PrimGate::Z { q });
            proof {
                assert(rng.draws().take(k0) =~= rng.draws());
                assert(gates_view(gates@) =~= seq![GateSpec::Z { q }]);
            }
            Ok(gates)
        },
        OpKind::Hadamard => {
            let q = match get_arg(cmd, 0) {
                Ok(v) => v,
                Err(e) => {
                    proof {
                        assert(rng.draws().take(k0) =~= rng.draws());
                    }
                    return Err(e);
                },
            };
            let mut gates: Vec<PrimGate> = Vec::new();
            gates.push(PrimGate::H { q });
            proof {
                assert(rng.draws().take(k0) =~= rng.draws());
                assert(gates_view(gates@) =~= seq![GateSpec::H { q }]);
            }
            Ok(gates)
        },
        OpKind::Cnot => {
            let control = match get_arg(cmd, 0) {
                Ok(v) => v,
                Err(e) => {
                    proof {
                        assert(rng.draws().take(k0) =~= rng.draws());
                    }
                    return Err(e);
                },
            };
            let target = match get_arg(cmd, 1) {
                Ok(v) => v,
                Err(e) => {
                    proof {
                        assert(rng.draws().take(k0) =~= rng.draws());
                    }
                    return Err(e);
                },
            };
            let mut gates: Vec<PrimGate> = Vec::new();
            gates.push(PrimGate::Cnot { control, target });
            proof {
                assert(rng.draws().take(k0) =~= rng.draws());
                assert(gates_view(gates@) =~= seq![GateSpec::Cnot { control, target }]);
            }
            Ok(gates)
        },
        OpKind::PhasedX => {
            let q = match get_arg(cmd, 0) {
                Ok(v) => v,
                Err(e) => {
                    proof {
                        assert(rng.draws().take(k0) =~= rng.draws());
                    }
                    return Err(e);
                },
            };
            if cmd.params.len() < 2 {
                proof {
                    assert(rng.draws().take(k0) =~= rng.draws());
                }
                return Err(TranslateError::MissingParam);
            }
            let alpha = preprocess_param(&cmd.params[0]);
            let beta = preprocess_param(&cmd.params[1]);
            let beta_back = preprocess_param(&cmd.params[1]);
            let mut gates: Vec<PrimGate> = Vec::new();
            gates.push(PrimGate::Rz { q, expr: beta, negated: true });
            gates.push(PrimGate::Rx { q, expr: alpha, negated: true });
            gates.push(PrimGate::Rz { q, expr: beta_back, negated: false });
            proof {
                assert(rng.draws().take(k0) =~= rng.draws());
                assert(gates_view(gates@) =~= seq![
                    GateSpec::Rz { q, expr: rewritten(cmd.params@[1]@), negated: true },
                    GateSpec::Rx { q, expr: rewritten(cmd.params@[0]@), negated: true },
                    GateSpec::Rz { q, expr: rewritten(cmd.params@[1]@), negated: false },
                ]);
            }
            Ok(gates)
        },
        OpKind::ZZPhase => {
            let q0 = match get_arg(cmd, 0) {
                Ok(v) => v,
                Err(e) => {
                    proof {
                        assert(rng.draws().take(k0) =~= rng.draws());
                    }
                    return Err(e);
                },
            };
            let q1 = match get_arg(cmd, 1) {
                Ok(v) => v,
                Err(e) => {
                    proof {
                        assert(rng.draws().take(k0) =~= rng.draws());
                    }
                    return Err(e);
                },
            };
            if cmd.params.len() < 1 {
                proof {
                    assert(rng.draws().take(k0) =~= rng.draws());
                }
                return Err(TranslateError::MissingParam);
            }
            let alpha = preprocess_param(&cmd.params[0]);
            let mut gates: Vec<PrimGate> = Vec::new();
            gates.push(PrimGate::ZzRotation { q0, q1, expr: alpha, negated: true });
            proof {
                assert(rng.draws().take(k0) =~= rng.draws());
                assert(gates_view(gates@) =~= seq![
                    GateSpec::ZzRotation {
                        q0,
                        q1,
                        expr: rewritten(cmd.params@[0]@),
                        negated: true,
                    },
                ]);
            }
            Ok(gates)
        },
        OpKind::Measure => match strategy {
            Strategy::PerShot => {
                let q = match get_arg(cmd, 0) {
                    Ok(v) => v,
                    Err(e) => {
                        proof {
                            assert(rng.draws().take(k0) =~= rng.draws());
                        }
                        return Err(e);
                    },
                };
                let c = match get_arg(cmd, 1) {
                    Ok(v) => v,
                    Err(e) => {
                        proof {
                            assert(rng.draws().take(k0) =~= rng.draws());
                        }
                        return Err(e);
                    },
                };
                let seed = rng.draw();
                let mut gates: Vec<PrimGate> = Vec::new();
                gates.push(PrimGate::Measure { q, c, seed });
                proof {
                    assert(rng.draws().take(k0) =~= old(rng).draws());
                    assert(rng.draws()[k0] == seed);
                    assert(gates_view(gates@) =~= seq![GateSpec::Measure { q, c, seed }]);
                }
                Ok(gates)
            },
            Strategy::Bulk => {
                let q = match get_arg(cmd, 0) {
                    Ok(v) => v,
                    Err(e) => {
                        proof {
                            assert(rng.draws().take(k0) =~= rng.draws());
                        }
                        return Err(e);
                    },
                };
                let mut gates: Vec<PrimGate> = Vec::new();
                gates.push(PrimGate::Identity { q });
                proof {
                    assert(rng.draws().take(k0) =~= rng.draws());
                    assert(gates_view(gates@) =~= seq![GateSpec::Identity { q }]);
                }
                Ok(gates)
            },
        },
        OpKind::Unsupported => {
            proof {
                assert(rng.draws().take(k0) =~= rng.draws());
            }
            Err(TranslateError::UnsupportedOp)
        },
    }
}

/// Translate a whole circuit in program order into one primitive-gate
/// run, drawing one seed per measurement in the per-shot strategy. The
/// gates (or the first command's error) are a function of the circuit,
/// the strategy, and exactly the draws consumed.
pub fn translate_circuit(c: &Circuit, strategy: Strategy, rng: &mut RngStream) -> (r: Result<
    Vec<PrimGate>,
    TranslateError,
>)
    ensures
        ({
            let start = old(rng).draws().len() as int;
            let hist = final(rng).draws();
            let consumed = hist.skip(start);
            let res = spec_translate_circuit(*c, strategy, consumed);
            &&& hist.len() >= start
            &&& hist.take(start) == old(rng).draws()
            &&& consumed.len() == res.1
            &&& match (r, res.0) {
                (Ok(v), Ok(gs)) => gates_view(v@) == gs,
                (Err(e1), Err(e2)) => e1 == e2,
                _ => false,
            }
        }),
{
    let ghost start_hist = rng.draws();
    let ghost start = start_hist.len() as int;
    proof {
        assert(rng.draws().take(start) =~= start_hist);
        assert(rng.draws().skip(start) =~= Seq::<u64>::empty());
        assert(gates_view(Seq::<PrimGate>::empty()) =~= Seq::<GateSpec>::empty());
    }
    let mut gates: Vec<PrimGate> = Vec::new();
    let mut idx: usize = 0;
    while idx < c.commands.len()
        invariant
            start == start_hist.len(),
            start_hist == old(rng).draws(),
            idx <= c.commands@.len(),
            rng.draws().len() >= start,
            rng.draws().take(start) == start_hist,
            ({
                let consumed = rng.draws().skip(start);
                let res = spec_translate_prefix(*c, strategy, consumed, idx as int);
                &&& res.1 == consumed.len()
                &&& res.0 == Ok::<Seq<GateSpec>, TranslateError>(gates_view(gates@))
            }),
        decreases c.commands@.len() - idx,
    {
        let ghost pre_hist = rng.draws();
        let ghost consumed0 = pre_hist.skip(start);
        let ghost gates0 = gates@;
        let cr = translate_command(&c.commands[idx], strategy, rng);
        proof {
            let hist1 = rng.draws();
            let k0 = pre_hist.len() as int;
            let consumed1 = hist1.skip(start);
            let cres = spec_translate_command(
                *&c.commands@[idx as int],
                strategy,
                next_draw(hist1, k0),
            );
            assert(hist1.len() == k0 + cres.1);
            lemma_command_draw_bound(c.commands@[idx as int], strategy, next_draw(hist1, k0));
            assert(consumed1.len() == consumed0.len() + cres.1);
            assert forall|m: int| 0 <= m < consumed0.len() implies consumed1[m] == consumed0[m] by {
                assert(hist1.take(k0)[start + m] == hist1[start + m]);
            }
            assert(consumed1.take(consumed0.len() as int) =~= consumed0);
            assert forall|m: int| 0 <= m < start implies hist1[m] == start_hist[m] by {
                assert(hist1.take(k0)[m] == hist1[m]);
                assert(pre_hist.take(start)[m] == pre_hist[m]);
            }
            assert(hist1.take(start) =~= start_hist);
            lemma_prefix_draw_count(*c, strategy, consumed0, idx as int);
            assert(consumed0.take(consumed0.len() as int) =~= consumed0);
            lemma_prefix_depends_on_consumed(*c, strategy, consumed0, consumed1, idx as int);
            lemma_command_seed_irrelevant(
                c.commands@[idx as int],
                strategy,
                next_draw(consumed1, consumed0.len() as int),
                next_draw(hist1, k0),
            );
            if cres.1 == 1 {
                assert(consumed1[consumed0.len() as int] == hist1[k0]);
                assert(next_draw(consumed1, consumed0.len() as int) == next_draw(hist1, k0));
            }
            assert(spec_translate_command(
                c.commands@[idx as int],
                strategy,
                next_draw(consumed1, consumed0.len() as int),
            ) == cres);
        }
        match cr {
            Ok(g2) => {
                let ghost g2v = g2@;
                let mut g2m = g2;
                gates.append(&mut g2m);
                proof {
                    assert(gates@ == gates0 + g2v);
                    assert(gates_view(gates0 + g2v) =~= gates_view(gates0) + gates_view(g2v));
                }
            },
            Err(e) => {
                proof {
                    let consumed1 = rng.draws().skip(start);
                    assert(spec_translate_prefix(*c, strategy, consumed1, idx + 1).0 is Err);
                    lemma_prefix_error_stable(
                        *c,
                        strategy,
                        consumed1,
                        idx + 1,
                        c.commands@.len() as int,
                    );
                }
                return Err(e);
            },
        }
        idx += 1;
    }
    Ok(gates)
}

} // verus!

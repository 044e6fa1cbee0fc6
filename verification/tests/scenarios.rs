//! End-to-end scenarios: circuits translated by the library, executed
//! against a small in-test state-vector backend, outcomes packed by the
//! driver.

use shot_runner::circuit::{Circuit, Command, OpKind, TranslateError, UnitLabel};
use shot_runner::driver::{BulkRun, PerShotRun};
use shot_runner::results::BackendResult;
use shot_runner::rng::{new_rng, RngStream};
use shot_runner::translate::PrimGate;

const PI: f64 = std::f64::consts::PI;

/// The realized angle of a symbolic rotation argument:
/// `sign · π · value(expr)` radians.
fn angle_of(expr: &[u8], negated: bool) -> f64 {
    let s = String::from_utf8(expr.to_vec()).expect("expression is ASCII");
    let mut ns = fasteval::EmptyNamespace;
    let v = fasteval::ez_eval(&s, &mut ns).expect("expression evaluates");
    (if negated { -1.0 } else { 1.0 }) * PI * v
}

/// A deterministic mix of the per-shot update seed and a gate's own
/// seed, mapped to a uniform value in [0, 1).
fn uniform_from(update_seed: u64, gate_seed: u64) -> f64 {
    let mut x = update_seed ^ gate_seed.wrapping_mul(0x9E3779B97F4A7C15);
    x ^= x >> 30;
    x = x.wrapping_mul(0xBF58476D1CE4E5B9);
    x ^= x >> 27;
    x = x.wrapping_mul(0x94D049BB133111EB);
    x ^= x >> 31;
    (x >> 11) as f64 / (1u64 << 53) as f64
}

/// A small state-vector backend: amplitudes as (re, im) pairs, one
/// classical register word per bit.
struct Sim {
    amps: Vec<(f64, f64)>,
    creg: Vec<u64>,
    update_seed: u64,
}

impl Sim {
    fn new(n_qubits: usize, n_bits: usize) -> Sim {
        let mut amps = vec![(0.0, 0.0); 1 << n_qubits];
        amps[0] = (1.0, 0.0);
        Sim { amps, creg: vec![0; n_bits], update_seed: 0 }
    }

    fn set_zero(&mut self) {
        for a in self.amps.iter_mut() {
            *a = (0.0, 0.0);
        }
        self.amps[0] = (1.0, 0.0);
        for c in self.creg.iter_mut() {
            *c = 0;
        }
    }

    fn read_register(&self) -> Vec<u64> {
        self.creg.clone()
    }

    /// Scale every amplitude whose index matches `value` at bit `q` by
    /// the phase (re, im); `value` of 2 matches both.
    fn phase(&mut self, q: usize, value: usize, re: f64, im: f64) {
        let m = 1usize << q;
        for (i, a) in self.amps.iter_mut().enumerate() {
            if value == 2 || (i & m != 0) == (value == 1) {
                *a = (a.0 * re - a.1 * im, a.0 * im + a.1 * re);
            }
        }
    }

    fn apply(&mut self, gate: &PrimGate) {
        match gate {
            PrimGate::X { q } => {
                let m = 1usize << *q as usize;
                for i in 0..self.amps.len() {
                    if i & m == 0 {
                        self.amps.swap(i, i | m);
                    }
                }
            }
            PrimGate::Y { q } => {
                let m = 1usize << *q as usize;
                for i in 0..self.amps.len() {
                    if i & m == 0 {
                        let a = self.amps[i];
                        let b = self.amps[i | m];
                        // |0> -> i|1>, |1> -> -i|0>
                        self.amps[i] = (b.1, -b.0);
                        self.amps[i | m] = (-a.1, a.0);
                    }
                }
            }
            PrimGate::Z { q } => {
                self.phase(*q as usize, 1, -1.0, 0.0);
            }
            PrimGate::H { q } => {
                let m = 1usize << *q as usize;
                let s = std::f64::consts::FRAC_1_SQRT_2;
                for i in 0..self.amps.len() {
                    if i & m == 0 {
                        let a = self.amps[i];
                        let b = self.amps[i | m];
                        self.amps[i] = ((a.0 + b.0) * s, (a.1 + b.1) * s);
                        self.amps[i | m] = ((a.0 - b.0) * s, (a.1 - b.1) * s);
                    }
                }
            }
            PrimGate::Cnot { control, target } => {
                let mc = 1usize << *control as usize;
                let mt = 1usize << *target as usize;
                for i in 0..self.amps.len() {
                    if i & mc != 0 && i & mt == 0 {
                        self.amps.swap(i, i | mt);
                    }
                }
            }
            PrimGate::Rx { q, expr, negated } => {
                // exp(i θ X / 2)
                let theta = angle_of(expr, *negated);
                let (c, s) = ((theta / 2.0).cos(), (theta / 2.0).sin());
                let m = 1usize << *q as usize;
                for i in 0..self.amps.len() {
                    if i & m == 0 {
                        let a = self.amps[i];
                        let b = self.amps[i | m];
                        self.amps[i] = (c * a.0 - s * b.1, c * a.1 + s * b.0);
                        self.amps[i | m] = (c * b.0 - s * a.1, c * b.1 + s * a.0);
                    }
                }
            }
            PrimGate::Rz { q, expr, negated } => {
                // exp(i θ Z / 2)
                let theta = angle_of(expr, *negated);
                let (c, s) = ((theta / 2.0).cos(), (theta / 2.0).sin());
                self.phase(*q as usize, 0, c, s);
                self.phase(*q as usize, 1, c, -s);
            }
            PrimGate::ZzRotation { q0, q1, expr, negated } => {
                // exp(i θ (Z⊗Z) / 2)
                let theta = angle_of(expr, *negated);
                let (c, s) = ((theta / 2.0).cos(), (theta / 2.0).sin());
                let m0 = 1usize << *q0 as usize;
                let m1 = 1usize << *q1 as usize;
                for (i, a) in self.amps.iter_mut().enumerate() {
                    let sign = if (i & m0 != 0) == (i & m1 != 0) { s } else { -s };
                    *a = (a.0 * c - a.1 * sign, a.0 * sign + a.1 * c);
                }
            }
            PrimGate::Measure { q, c, seed } => {
                let m = 1usize << *q as usize;
                let p1: f64 = self
                    .amps
                    .iter()
                    .enumerate()
                    .filter(|(i, _)| i & m != 0)
                    .map(|(_, a)| a.0 * a.0 + a.1 * a.1)
                    .sum();
                let outcome = if uniform_from(self.update_seed, *seed) < p1 { 1 } else { 0 };
                let keep_set = outcome == 1;
                let norm = if keep_set { p1.sqrt() } else { (1.0 - p1).sqrt() };
                for (i, a) in self.amps.iter_mut().enumerate() {
                    if (i & m != 0) == keep_set {
                        *a = (a.0 / norm, a.1 / norm);
                    } else {
                        *a = (0.0, 0.0);
                    }
                }
                self.creg[*c as usize] = outcome;
            }
            PrimGate::Identity { .. } => {}
        }
    }
}

fn label(name: &str, i: i64) -> UnitLabel {
    UnitLabel { name: name.to_string(), index: vec![i] }
}

fn cmd(op: OpKind, args: Vec<i64>, params: Vec<&str>) -> Command {
    Command { op, args, params: params.iter().map(|p| p.as_bytes().to_vec()).collect() }
}

fn bell_circuit() -> Circuit {
    Circuit {
        commands: vec![
            cmd(OpKind::Hadamard, vec![0], vec![]),
            cmd(OpKind::Cnot, vec![0, 1], vec![]),
            cmd(OpKind::Measure, vec![0, 0], vec![]),
            cmd(OpKind::Measure, vec![1, 1], vec![]),
        ],
        qubits: vec![label("q", 0), label("q", 1)],
        bits: vec![label("c", 0), label("c", 1)],
    }
}

fn phased_x_circuit() -> Circuit {
    Circuit {
        commands: vec![
            cmd(OpKind::PhasedX, vec![0], vec!["1.0", "0.3"]),
            cmd(OpKind::Measure, vec![0, 0], vec![]),
        ],
        qubits: vec![label("q", 0)],
        bits: vec![label("c", 0)],
    }
}

fn zz_phase_circuit() -> Circuit {
    Circuit {
        commands: vec![
            cmd(OpKind::ZZPhase, vec![0, 1], vec!["2.0"]),
            cmd(OpKind::Measure, vec![0, 0], vec![]),
            cmd(OpKind::Measure, vec![1, 1], vec![]),
        ],
        qubits: vec![label("q", 0), label("q", 1)],
        bits: vec![label("c", 0), label("c", 1)],
    }
}

fn phased_x_zz_phase_circuit() -> Circuit {
    Circuit {
        commands: vec![
            cmd(OpKind::PhasedX, vec![0], vec!["0.5", "0.0"]),
            cmd(OpKind::PhasedX, vec![1], vec!["0.5", "0.25"]),
            cmd(OpKind::ZZPhase, vec![0, 1], vec!["0.3"]),
            cmd(OpKind::Measure, vec![0, 0], vec![]),
            cmd(OpKind::Measure, vec![1, 1], vec![]),
        ],
        qubits: vec![label("q", 0), label("q", 1)],
        bits: vec![label("c", 0), label("c", 1)],
    }
}

/// Run a circuit for `n_shots` shots: translate, then per shot reset
/// the state, apply the gates under a fresh update seed, and read the
/// classical register back.
fn run_per_shot(circuit: Circuit, n_shots: u32, rng: &mut RngStream) -> BackendResult {
    let n_qubits = circuit.qubits.len();
    let n_bits = circuit.bits.len();
    let mut run = PerShotRun::new(circuit, n_shots, rng).expect("translation succeeds");
    let mut sim = Sim::new(n_qubits, n_bits);
    while !run.done() {
        sim.set_zero();
        sim.update_seed = run.shot_seed(rng);
        for g in run.gates.iter() {
            sim.apply(g);
        }
        run.record_shot(sim.read_register());
    }
    run.finish()
}

#[test]
fn bell_measurement_scenario() {
    let mut rng = new_rng(None);
    let result = run_per_shot(bell_circuit(), 10, &mut rng);

    assert_eq!(result.shots.array.len(), 10);
    assert!(result.shots.array.iter().all(|x| {
        let shot = x[0];
        shot == 0 || shot == 192
    }));
}

#[test]
fn bell_measurement_scenario_seeded() {
    let mut rng = new_rng(Some(1));
    let result = run_per_shot(bell_circuit(), 10, &mut rng);

    assert_eq!(result.shots.array.len(), 10);
    assert!(result.shots.array.iter().all(|x| {
        let shot = x[0];
        shot == 0 || shot == 192
    }));

    // Same seed, independent run: byte-identical outcome record.
    let mut rng2 = new_rng(Some(1));
    let result2 = run_per_shot(bell_circuit(), 10, &mut rng2);
    assert_eq!(result.shots, result2.shots);
}

#[test]
fn phased_x_scenario() {
    let mut rng = new_rng(None);
    let result = run_per_shot(phased_x_circuit(), 10, &mut rng);

    assert_eq!(result.shots.array.len(), 10);
    // A half-turn about X collapses deterministically to the set state.
    assert!(result.shots.array.iter().all(|x| x[0] == 128));
}

#[test]
fn phased_x_scenario_seeded() {
    let mut rng = new_rng(Some(1));
    let result = run_per_shot(phased_x_circuit(), 10, &mut rng);

    assert_eq!(result.shots.array.len(), 10);
    assert!(result.shots.array.iter().all(|x| {
        let shot = x[0];
        shot == 0 || shot == 128
    }));

    let mut rng2 = new_rng(Some(1));
    let result2 = run_per_shot(phased_x_circuit(), 10, &mut rng2);
    assert_eq!(result.shots, result2.shots);
}

#[test]
fn zz_phase_scenario() {
    let mut rng = new_rng(None);
    let result = run_per_shot(zz_phase_circuit(), 10, &mut rng);

    assert_eq!(result.shots.array.len(), 10);
    // A full turn is zero net rotation on the all-zero state.
    assert!(result.shots.array.iter().all(|x| x[0] == 0));
}

#[test]
fn zz_phase_scenario_seeded() {
    let mut rng = new_rng(Some(1));
    let result = run_per_shot(zz_phase_circuit(), 10, &mut rng);

    assert_eq!(result.shots.array.len(), 10);
    assert!(result.shots.array.iter().all(|x| x[0] == 0));

    let mut rng2 = new_rng(Some(1));
    let result2 = run_per_shot(zz_phase_circuit(), 10, &mut rng2);
    assert_eq!(result.shots, result2.shots);
}

#[test]
fn phased_x_zz_phase_scenario() {
    let mut rng = new_rng(None);
    let result = run_per_shot(phased_x_zz_phase_circuit(), 10, &mut rng);

    assert_eq!(result.shots.array.len(), 10);
    assert!(result.shots.array.iter().all(|x| {
        let shot = x[0];
        shot == 0 || shot == 64 || shot == 128 || shot == 192
    }));
}

#[test]
fn phased_x_zz_phase_scenario_seeded() {
    let mut rng = new_rng(Some(1));
    let result = run_per_shot(phased_x_zz_phase_circuit(), 10, &mut rng);

    assert_eq!(result.shots.array.len(), 10);
    assert!(result.shots.array.iter().all(|x| {
        let shot = x[0];
        shot == 0 || shot == 64 || shot == 128 || shot == 192
    }));

    let mut rng2 = new_rng(Some(1));
    let result2 = run_per_shot(phased_x_zz_phase_circuit(), 10, &mut rng2);
    assert_eq!(result.shots, result2.shots);
}

#[test]
fn translation_is_deterministic_under_a_seed() {
    let mut rng1 = new_rng(Some(7));
    let run1 = PerShotRun::new(bell_circuit(), 5, &mut rng1).unwrap();
    let mut rng2 = new_rng(Some(7));
    let run2 = PerShotRun::new(bell_circuit(), 5, &mut rng2).unwrap();
    assert_eq!(run1.gates, run2.gates);
}

#[test]
fn bulk_translation_ignores_the_stream() {
    // Bulk translation draws nothing, so even unseeded streams yield
    // the same gates; measurements become identity no-ops.
    let mut rng1 = new_rng(None);
    let run1 = BulkRun::new(bell_circuit(), 4, &mut rng1).unwrap();
    let mut rng2 = new_rng(None);
    let run2 = BulkRun::new(bell_circuit(), 4, &mut rng2).unwrap();
    assert_eq!(run1.gates, run2.gates);
    assert!(matches!(run1.gates[2], PrimGate::Identity { q: 0 }));
    assert!(matches!(run1.gates[3], PrimGate::Identity { q: 1 }));
}

#[test]
fn bulk_run_packs_samples_to_register_width() {
    let mut rng = new_rng(Some(3));
    let run = BulkRun::new(bell_circuit(), 4, &mut rng).unwrap();
    let (_update_seed, _sampling_seed) = run.run_seeds(&mut rng);
    let result = run.finish(vec![0, 3, 3, 0]);
    assert_eq!(result.shots.width, 2);
    assert_eq!(result.shots.array, vec![vec![0], vec![192], vec![192], vec![0]]);
}

#[test]
fn unsupported_operation_fails_translation() {
    let circuit = Circuit {
        commands: vec![cmd(OpKind::Unsupported, vec![0], vec![])],
        qubits: vec![label("q", 0)],
        bits: vec![],
    };
    let mut rng = new_rng(Some(1));
    let r = PerShotRun::new(circuit, 1, &mut rng);
    assert!(matches!(r, Err(TranslateError::UnsupportedOp)));
}

#[test]
fn bad_argument_fails_translation() {
    // A negative index does not fit the simulator's index width.
    let circuit = Circuit {
        commands: vec![cmd(OpKind::PauliX, vec![-1], vec![])],
        qubits: vec![label("q", 0)],
        bits: vec![],
    };
    let mut rng = new_rng(Some(1));
    let r = PerShotRun::new(circuit, 1, &mut rng);
    assert!(matches!(r, Err(TranslateError::BadArgument)));

    // A missing argument fails the same way.
    let circuit = Circuit {
        commands: vec![cmd(OpKind::Cnot, vec![0], vec![])],
        qubits: vec![label("q", 0), label("q", 1)],
        bits: vec![],
    };
    let mut rng = new_rng(Some(1));
    let r = PerShotRun::new(circuit, 1, &mut rng);
    assert!(matches!(r, Err(TranslateError::BadArgument)));
}

#[test]
fn missing_parameter_fails_translation() {
    let circuit = Circuit {
        commands: vec![cmd(OpKind::PhasedX, vec![0], vec!["1.0"])],
        qubits: vec![label("q", 0)],
        bits: vec![],
    };
    let mut rng = new_rng(Some(1));
    let r = PerShotRun::new(circuit, 1, &mut rng);
    assert!(matches!(r, Err(TranslateError::MissingParam)));
}

#[test]
fn phased_x_translates_to_three_signed_rotations() {
    let circuit = Circuit {
        commands: vec![cmd(OpKind::PhasedX, vec![0], vec!["0.5", "0.25"])],
        qubits: vec![label("q", 0)],
        bits: vec![],
    };
    let mut rng = new_rng(Some(1));
    let run = PerShotRun::new(circuit, 1, &mut rng).unwrap();
    assert_eq!(
        run.gates,
        vec![
            PrimGate::Rz { q: 0, expr: b"0.25".to_vec(), negated: true },
            PrimGate::Rx { q: 0, expr: b"0.5".to_vec(), negated: true },
            PrimGate::Rz { q: 0, expr: b"0.25".to_vec(), negated: false },
        ]
    );
}

#[test]
fn labels_carry_through_to_the_result() {
    let mut rng = new_rng(Some(1));
    let result = run_per_shot(bell_circuit(), 2, &mut rng);
    assert_eq!(result.qubits.len(), 2);
    assert_eq!(result.bits.len(), 2);
    assert_eq!(result.qubits[0].name, "q");
    assert_eq!(result.qubits[1].index, vec![1]);
    assert_eq!(result.bits[0].name, "c");
    assert_eq!(result.shots.width, 2);
}

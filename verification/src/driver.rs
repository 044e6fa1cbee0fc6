//! The shot execution driver: the per-shot and bulk-sampling
//! strategies behind one "run shots" capability, chosen at
//! construction. The simulator itself is an outside capability: the
//! caller applies the translated gates to its state and hands back the
//! raw register words (per shot) or the sampled integers (bulk); the
//! driver fixes the seeds and their draw order, collects the raw
//! outcomes, and packs the result record.

use vstd::math::min;
use vstd::prelude::*;

use crate::circuit::{Circuit, TranslateError, UnitLabel};
use crate::results::{
    byte_count, convert_samples, convert_shots, pack_bits, sample_bits, shot_bits, BackendResult,
};
use crate::rng::RngStream;
use crate::translate::{
    gates_view, lemma_translate_bulk_no_draws, spec_translate_circuit, translate_circuit, PrimGate,
    Strategy,
};

verus! {

/// A per-shot run: independent full-state simulations, one per shot,
/// each applying the translated gates to a fresh all-zero state under a
/// fresh seed, then reading the classical register back as one word per
/// bit. Seeds are drawn in shot order from the run's single stream.
pub struct PerShotRun {
    /// The translated primitive gates, in program order.
    pub gates: Vec<PrimGate>,
    /// The circuit's qubit labels, carried into the result unchanged.
    pub qubits: Vec<UnitLabel>,
    /// The circuit's classical-bit labels, carried into the result
    /// unchanged.
    pub bits: Vec<UnitLabel>,
    /// How many shots the run performs.
    pub n_shots: u32,
    /// The register words read back so far, one entry per finished
    /// shot.
    pub registers: Vec<Vec<u64>>,
}

impl PerShotRun {
    /// Translate `circuit` for per-shot execution, drawing one
    /// measurement seed per measurement command in program order.
    pub fn new(circuit: Circuit, n_shots: u32, rng: &mut RngStream) -> (r: Result<
        PerShotRun,
        TranslateError,
    >)
        ensures
            ({
                let start = old(rng).draws().len() as int;
                let hist = final(rng).draws();
                let consumed = hist.skip(start);
                let res = spec_translate_circuit(circuit, Strategy::PerShot, consumed);
                &&& hist.len() >= start
                &&& hist.take(start) == old(rng).draws()
                &&& consumed.len() == res.1
                &&& match (r, res.0) {
                    (Ok(run), Ok(gs)) => {
                        &&& gates_view(run.gates@) == gs
                        &&& run.qubits == circuit.qubits
                        &&& run.bits == circuit.bits
                        &&& run.n_shots == n_shots
                        &&& run.registers@ == Seq::<Vec<u64>>::empty()
                    },
                    (Err(e1), Err(e2)) => e1 == e2,
                    _ => false,
                }
            }),
    {
        let gates = match translate_circuit(&circuit, Strategy::PerShot, rng) {
            Ok(g) => g,
            Err(e) => {
                return Err(e);
            },
        };
        Ok(
            PerShotRun {
                gates,
                qubits: circuit.qubits,
                bits: circuit.bits,
                n_shots,
                registers: Vec::new(),
            },
        )
    }

    /// Whether every shot has been recorded.
    pub fn done(&self) -> (r: bool)
        ensures
            r == (self.registers@.len() >= self.n_shots as int),
    {
        self.registers.len() >= self.n_shots as usize
    }

    /// Draw the seed under which the next shot updates the fresh state.
    /// One seed is consumed per shot, in shot order.
    pub fn shot_seed(&self, rng: &mut RngStream) -> (r: u64)
        ensures
            final(rng).draws() == old(rng).draws().push(r),
    {
        rng.draw()
    }

    /// Record the classical register read back after one shot.
    pub fn record_shot(&mut self, register: Vec<u64>)
        ensures
            final(self).registers@ == old(self).registers@.push(register),
            final(self).gates == old(self).gates,
            final(self).qubits == old(self).qubits,
            final(self).bits == old(self).bits,
            final(self).n_shots == old(self).n_shots,
    {
        self.registers.push(register);
    }

    /// Pack the recorded shots into the outcome record. The record's
    /// width is the first shot's word count; the simulator produces
    /// every shot from the same register, so all shots agree on it.
    pub fn finish(self) -> (r: BackendResult)
        requires
            self.registers@.len() == self.n_shots as int,
            self.n_shots > 0,
            forall|i: int|
                0 <= i < self.registers@.len() ==> #[trigger] self.registers@[i]@.len()
                    == self.registers@[0]@.len(),
            self.registers@[0]@.len() + 8 <= usize::MAX,
        ensures
            r.qubits == self.qubits,
            r.bits == self.bits,
            r.shots.width == self.registers@[0]@.len(),
            r.shots.array@.len() == self.n_shots as int,
            forall|i: int|
                0 <= i < self.registers@.len() ==> #[trigger] r.shots.array@[i]@ == pack_bits(
                    shot_bits(self.registers@[i]@),
                ),
            r.shots.is_well_formed(),
    {
        let shots = convert_shots(self.registers);
        BackendResult { qubits: self.qubits, bits: self.bits, shots }
    }
}

/// A bulk-sampling run: the translated gates (measurements replaced by
/// identity no-ops) are applied once to one state, and the final
/// amplitude distribution is sampled once for all shots. The strategies
/// deliberately do not share a draw sequence: under the same seed they
/// agree in distribution, not shot for shot.
pub struct BulkRun {
    /// The translated primitive gates, in program order.
    pub gates: Vec<PrimGate>,
    /// The circuit's qubit labels, carried into the result unchanged.
    pub qubits: Vec<UnitLabel>,
    /// The circuit's classical-bit labels, carried into the result
    /// unchanged.
    pub bits: Vec<UnitLabel>,
    /// How many samples the run requests.
    pub n_shots: u32,
}

impl BulkRun {
    /// Translate `circuit` for bulk sampling. Translation draws
    /// nothing, so the translated gates are independent of the random
    /// stream.
    pub fn new(circuit: Circuit, n_shots: u32, rng: &mut RngStream) -> (r: Result<
        BulkRun,
        TranslateError,
    >)
        ensures
            final(rng).draws() == old(rng).draws(),
            ({
                let res = spec_translate_circuit(circuit, Strategy::Bulk, Seq::<u64>::empty());
                match (r, res.0) {
                    (Ok(run), Ok(gs)) => {
                        &&& gates_view(run.gates@) == gs
                        &&& run.qubits == circuit.qubits
                        &&& run.bits == circuit.bits
                        &&& run.n_shots == n_shots
                    },
                    (Err(e1), Err(e2)) => e1 == e2,
                    _ => false,
                }
            }),
    {
        let ghost h0 = rng.draws();
        let res = translate_circuit(&circuit, Strategy::Bulk, rng);
        proof {
            let start = h0.len() as int;
            let consumed = rng.draws().skip(start);
            lemma_translate_bulk_no_draws(
                circuit,
                consumed,
                Seq::<u64>::empty(),
                circuit.commands@.len() as int,
            );
            assert(rng.draws() =~= h0);
        }
        match res {
            Ok(gates) => Ok(BulkRun { gates, qubits: circuit.qubits, bits: circuit.bits, n_shots }),
            Err(e) => Err(e),
        }
    }

    /// The two draws one bulk run makes, in order: the seed under which
    /// the single state update runs, then the seed of the amplitude
    /// sampling call.
    pub fn run_seeds(&self, rng: &mut RngStream) -> (r: (u64, u64))
        ensures
            final(rng).draws() == old(rng).draws().push(r.0).push(r.1),
    {
        let update_seed = rng.draw();
        let sampling_seed = rng.draw();
        (update_seed, sampling_seed)
    }

    /// Pack the sampled integers into the outcome record. The declared
    /// width is the circuit's classical-register width; each sample is
    /// truncated to `ceil(width / 8)` bytes.
    pub fn finish(self, samples: Vec<u64>) -> (r: BackendResult)
        requires
            samples@.len() == self.n_shots as int,
        ensures
            r.qubits == self.qubits,
            r.bits == self.bits,
            r.shots.width == self.bits@.len(),
            r.shots.array@.len() == self.n_shots as int,
            forall|i: int|
                0 <= i < samples@.len() ==> #[trigger] r.shots.array@[i]@ == pack_bits(
                    sample_bits(samples@[i]),
                ).take(min(byte_count(self.bits@.len() as nat) as int, 8)),
    {
        let width = self.bits.len();
        let shots = convert_samples(width, samples);
        BackendResult { qubits: self.qubits, bits: self.bits, shots }
    }
}

} // verus!

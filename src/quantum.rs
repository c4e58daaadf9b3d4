//! Quantum registers and backends that quantum declarations are run against.

use vstd::prelude::*;

verus! {

#[derive(Clone, Debug)]
pub struct Qubit {
    pub id: usize,
    pub name: Option<String>,
}

#[derive(Clone, Debug)]
pub struct QuantumRegister {
    pub qubits: Vec<Qubit>,
    pub name: String,
}

/// Number of qubits in all of `registers`.
pub open spec fn qubit_count(registers: Seq<QuantumRegister>) -> int
    decreases registers.len(),
{
    if registers.len() == 0 {
        0
    } else {
        qubit_count(registers.drop_last()) + registers.last().qubits@.len()
    }
}

/// Number of qubits in all of `registers`, or `None` when it does not fit
/// in a `usize`.
pub fn total_qubits(registers: &Vec<QuantumRegister>) -> (r: Option<usize>)
    ensures
        r is Some <==> qubit_count(registers@) <= usize::MAX,
        r is Some ==> r->Some_0 == qubit_count(registers@),
{
    let mut total: usize = 0;
    let mut i: usize = 0;
    while i < registers.len()
        invariant
            i <= registers@.len(),
            total == qubit_count(registers@.subrange(0, i as int)),
        decreases registers@.len() - i,
    {
        assert(registers@.subrange(0, i + 1).drop_last() =~= registers@.subrange(0, i as int));
        let n = registers[i].qubits.len();
        if total > usize::MAX - n {
            proof {
                lemma_qubit_count_grows(registers@, i as int + 1);
            }
            return None;
        }
        total = total + n;
        i = i + 1;
    }
    assert(registers@.subrange(0, i as int) =~= registers@);
    Some(total)
}

/// Adding registers never lowers the count.
proof fn lemma_qubit_count_grows(registers: Seq<QuantumRegister>, i: int)
    requires
        0 <= i <= registers.len(),
    ensures
        qubit_count(registers.subrange(0, i)) <= qubit_count(registers),
    decreases registers.len() - i,
{
    if i < registers.len() {
        lemma_qubit_count_grows(registers, i + 1);
        assert(registers.subrange(0, i + 1).drop_last() =~= registers.subrange(0, i));
    } else {
        assert(registers.subrange(0, i) =~= registers);
    }
}

/// A quantum device or simulator with a fixed number of qubits.
pub struct QuantumBackend {
    pub name: String,
    pub qubits: usize,
    pub supports_simulation: bool,
    pub supports_hardware: bool,
}

impl QuantumBackend {
    /// A simulator backend with `qubits` qubits.
    pub fn new(name: String, qubits: usize) -> (r: QuantumBackend)
        ensures
            r.name@ == name@,
            r.qubits == qubits,
            r.supports_simulation,
            !r.supports_hardware,
    {
        QuantumBackend { name, qubits, supports_simulation: true, supports_hardware: false }
    }

    /// Whether the backend has enough qubits for `registers`.
    pub fn can_run(&self, registers: &Vec<QuantumRegister>) -> (r: bool)
        ensures
            r == (qubit_count(registers@) <= self.qubits),
    {
        match total_qubits(registers) {
            Some(n) => n <= self.qubits,
            None => false,
        }
    }
}

} // verus!

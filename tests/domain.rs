use k4::quantum::total_qubits;
use k4::{AIFramework, ModelType, QuantumBackend, QuantumRegister, Qubit};

#[test]
fn backend_defaults_to_simulation() {
    let b = QuantumBackend::new("sim".to_string(), 5);
    assert_eq!(b.name, "sim");
    assert_eq!(b.qubits, 5);
    assert!(b.supports_simulation);
    assert!(!b.supports_hardware);
}

#[test]
fn framework_support() {
    let mut f = AIFramework::new("torch".to_string());
    assert!(f.supported_models.is_empty());
    assert!(!f.supports(&ModelType::LLM));
    f.add_supported_model(ModelType::LLM);
    f.add_supported_model(ModelType::Custom("gpt".to_string()));
    assert_eq!(f.supported_models.len(), 2);
    assert!(f.supports(&ModelType::LLM));
    assert!(f.supports(&ModelType::Custom("gpt".to_string())));
    assert!(!f.supports(&ModelType::Custom("bert".to_string())));
    assert!(!f.supports(&ModelType::SVM));
}

#[test]
fn qubit_totals() {
    let reg = |n: usize| QuantumRegister {
        qubits: (0..n).map(|id| Qubit { id, name: None }).collect(),
        name: "r".to_string(),
    };
    assert_eq!(total_qubits(&vec![]), Some(0));
    let regs = vec![reg(2), reg(3)];
    assert_eq!(total_qubits(&regs), Some(5));
    assert!(QuantumBackend::new("b".to_string(), 5).can_run(&regs));
    assert!(!QuantumBackend::new("b".to_string(), 4).can_run(&regs));
}

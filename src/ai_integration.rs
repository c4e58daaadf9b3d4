//! Model kinds and the frameworks that provide them, named by AI declarations.

use vstd::prelude::*;

verus! {

#[derive(Clone, Debug)]
pub enum ModelType {
    NeuralNetwork,
    DecisionTree,
    RandomForest,
    SVM,
    KMeans,
    LinearRegression,
    LogisticRegression,
    Transformer,
    LLM,
    Custom(String),
}

/// Two model types are equal when they are the same kind and, for custom
/// models, have the same name.
pub open spec fn same_model(a: ModelType, b: ModelType) -> bool {
    match (a, b) {
        (ModelType::Custom(x), ModelType::Custom(y)) => x@ == y@,
        (ModelType::Custom(_), _) => false,
        (_, ModelType::Custom(_)) => false,
        _ => a == b,
    }
}

impl PartialEq for ModelType {
    fn eq(&self, other: &ModelType) -> (r: bool)
        ensures
            r == same_model(*self, *other),
    {
        match (self, other) {
            (ModelType::NeuralNetwork, ModelType::NeuralNetwork) => true,
            (ModelType::DecisionTree, ModelType::DecisionTree) => true,
            (ModelType::RandomForest, ModelType::RandomForest) => true,
            (ModelType::SVM, ModelType::SVM) => true,
            (ModelType::KMeans, ModelType::KMeans) => true,
            (ModelType::LinearRegression, ModelType::LinearRegression) => true,
            (ModelType::LogisticRegression, ModelType::LogisticRegression) => true,
            (ModelType::Transformer, ModelType::Transformer) => true,
            (ModelType::LLM, ModelType::LLM) => true,
            (ModelType::Custom(x), ModelType::Custom(y)) => *x == *y,
            _ => false,
        }
    }
}

impl vstd::std_specs::cmp::PartialEqSpecImpl for ModelType {
    open spec fn obeys_eq_spec() -> bool {
        true
    }

    open spec fn eq_spec(&self, other: &ModelType) -> bool {
        same_model(*self, *other)
    }
}

/// An external machine-learning framework and the model types it supports.
pub struct AIFramework {
    pub name: String,
    pub supported_models: Vec<ModelType>,
}

impl AIFramework {
    pub fn new(name: String) -> (r: AIFramework)
        ensures
            r.name@ == name@,
            r.supported_models@.len() == 0,
    {
        AIFramework { name, supported_models: Vec::new() }
    }

    pub fn add_supported_model(&mut self, model_type: ModelType)
        ensures
            final(self).name == old(self).name,
            final(self).supported_models@ == old(self).supported_models@.push(model_type),
    {
        self.supported_models.push(model_type);
    }

    /// Whether the framework supports `model_type`.
    pub fn supports(&self, model_type: &ModelType) -> (r: bool)
        ensures
            r == exists|i: int|
                0 <= i < self.supported_models@.len() && same_model(
                    #[trigger] self.supported_models@[i],
                    *model_type,
                ),
    {
        let mut i: usize = 0;
        while i < self.supported_models.len()
            invariant
                i <= self.supported_models@.len(),
                forall|j: int|
                    0 <= j < i ==> !same_model(#[trigger] self.supported_models@[j], *model_type),
            decreases self.supported_models@.len() - i,
        {
            if self.supported_models[i] == *model_type {
                return true;
            }
            i = i + 1;
        }
        false
    }
}

} // verus!

//! Plain values for the records that the control plane returns, and the
//! result record of the discovery.
use vstd::prelude::*;

verus! {

/// One resolved fact: a service runs the image of its task definition.
#[derive(Debug, Clone, PartialEq, Eq)]
pub struct Image {
    pub image_name: String,
    pub task_definition_name: String,
    pub service_name: String,
}

/// A container definition of a task definition, with its image if any.
#[derive(Debug, Clone)]
pub struct ContainerDefinition {
    pub image: Option<String>,
}

/// The body of a task definition as the describe call returns it.
#[derive(Debug, Clone)]
pub struct TaskDefinition {
    pub task_definition_arn: Option<String>,
    pub container_definitions: Option<Vec<ContainerDefinition>>,
}

/// A service as the batched describe call returns it.
#[derive(Debug, Clone)]
pub struct Service {
    pub service_name: Option<String>,
    pub task_definition: Option<String>,
}

} // verus!

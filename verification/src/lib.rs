//! Validation flows over recorded robot data.
//!
//! A flow names a bag and the nodes that check it. [`preflight::preflight`]
//! checks the flow against the topics of the bag and plans the dataflow that
//! runs it: a source that reads the bag, the nodes, and a report that gathers
//! their results. [`source`], [`decode`] and [`gpu`] hold the rules by which
//! the source and the decode nodes work, and [`run`] those by which a plan is
//! carried out. What holds of every flow that passes is proved in [`laws`]
//! and [`dataflow_laws`].
//!
//! Reading files, sending messages and calling devices is left to the programs
//! that use this library.

pub mod batch;
pub mod check;
pub mod dataflow;
pub mod dataflow_laws;
pub mod decode;
pub mod error;
pub mod error_laws;
pub mod flow;
pub mod gpu;
pub mod json;
pub mod laws;
pub mod number;
pub mod params;
pub mod paths;
pub mod plan;
pub mod preflight;
pub mod run;
pub mod source;
pub mod text;
pub mod text_map;

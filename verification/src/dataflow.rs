//! The dataflow that runs a flow: every node with its edges and environment.
use crate::text::texts;
use crate::text_map::TextMap;
use vstd::prelude::*;

verus! {

/// A dataflow of nodes.
#[derive(Debug)]
pub struct DoraFlow {
    pub nodes: Vec<DoraNodeDef>,
}

/// One node of a dataflow.
#[derive(Debug)]
pub struct DoraNodeDef {
    pub id: String,
    pub path: String,
    pub inputs: TextMap<DoraInput>,
    pub outputs: Vec<String>,
    pub env: TextMap<String>,
}

/// An input of a node: the output that feeds it, written `node/output`, and
/// how many messages may wait on the edge.
#[derive(Debug)]
pub struct DoraInput {
    pub source: String,
    pub queue_size: usize,
}

/// The model of a [`DoraNodeDef`].
pub struct DoraNodeView {
    pub id: Seq<char>,
    pub path: Seq<char>,
    pub inputs: Map<Seq<char>, DoraInputView>,
    pub outputs: Seq<Seq<char>>,
    pub env: Map<Seq<char>, Seq<char>>,
}

/// The model of a [`DoraInput`].
pub struct DoraInputView {
    pub source: Seq<char>,
    pub queue_size: usize,
}

impl View for DoraInput {
    type V = DoraInputView;

    open spec fn view(&self) -> DoraInputView {
        DoraInputView { source: self.source@, queue_size: self.queue_size }
    }
}

impl View for DoraNodeDef {
    type V = DoraNodeView;

    open spec fn view(&self) -> DoraNodeView {
        DoraNodeView {
            id: self.id@,
            path: self.path@,
            inputs: self.inputs@,
            outputs: texts(self.outputs@),
            env: self.env@,
        }
    }
}

impl View for DoraFlow {
    type V = Seq<DoraNodeView>;

    open spec fn view(&self) -> Seq<DoraNodeView> {
        self.nodes@.map_values(|n: DoraNodeDef| n@)
    }
}

} // verus!

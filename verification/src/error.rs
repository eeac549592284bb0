//! What can be wrong with a flow.
use crate::text::{join_texts, joined, texts};
use vstd::prelude::*;

verus! {

/// Why a flow is refused before it runs.
#[derive(Debug)]
pub enum PreflightError {
    /// The bag does not exist.
    BagNotFound { bag: String },
    /// A node has an id that the framework keeps for itself.
    ReservedNode { node: String },
    /// Two nodes have the same id.
    DuplicateNode { node: String },
    /// An input has a name that the framework keeps for itself.
    ReservedInput { input: String, node: String },
    /// An input refers to both a topic and a node, or to neither.
    TopicOrNode,
    /// The bag has no such topic; the topics that it has are listed.
    TopicNotInBag { topic: String, node: String, input: String, available: Vec<String> },
    /// A reference is neither a topic nor an output of a node.
    BadReference { reference: String },
    /// No node has the id that is referred to.
    UnknownNode { node: String, by: String },
    /// The node that is referred to has no such output.
    NoSuchOutput { node: String, output: String, by: String },
    /// No input subscribes to a topic of the bag.
    NoTopics,
}

/// The model of a [`PreflightError`].
pub enum PreflightErrorView {
    BagNotFound { bag: Seq<char> },
    ReservedNode { node: Seq<char> },
    DuplicateNode { node: Seq<char> },
    ReservedInput { input: Seq<char>, node: Seq<char> },
    TopicOrNode,
    TopicNotInBag {
        topic: Seq<char>,
        node: Seq<char>,
        input: Seq<char>,
        available: Seq<Seq<char>>,
    },
    BadReference { reference: Seq<char> },
    UnknownNode { node: Seq<char>, by: Seq<char> },
    NoSuchOutput { node: Seq<char>, output: Seq<char>, by: Seq<char> },
    NoTopics,
}

impl View for PreflightError {
    type V = PreflightErrorView;

    open spec fn view(&self) -> PreflightErrorView {
        match *self {
            PreflightError::BagNotFound { bag } => PreflightErrorView::BagNotFound { bag: bag@ },
            PreflightError::ReservedNode { node } => PreflightErrorView::ReservedNode {
                node: node@,
            },
            PreflightError::DuplicateNode { node } => PreflightErrorView::DuplicateNode {
                node: node@,
            },
            PreflightError::ReservedInput { input, node } => PreflightErrorView::ReservedInput {
                input: input@,
                node: node@,
            },
            PreflightError::TopicOrNode => PreflightErrorView::TopicOrNode,
            PreflightError::TopicNotInBag { topic, node, input, available } => {
                PreflightErrorView::TopicNotInBag {
                    topic: topic@,
                    node: node@,
                    input: input@,
                    available: texts(available@),
                }
            },
            PreflightError::BadReference { reference } => PreflightErrorView::BadReference {
                reference: reference@,
            },
            PreflightError::UnknownNode { node, by } => PreflightErrorView::UnknownNode {
                node: node@,
                by: by@,
            },
            PreflightError::NoSuchOutput { node, output, by } => PreflightErrorView::NoSuchOutput {
                node: node@,
                output: output@,
                by: by@,
            },
            PreflightError::NoTopics => PreflightErrorView::NoTopics,
        }
    }
}

impl PreflightErrorView {
    /// The error in words.
    pub open spec fn message(self) -> Seq<char> {
        match self {
            PreflightErrorView::BagNotFound { bag } => "bag not found: "@ + bag,
            PreflightErrorView::ReservedNode { node } => "node id `"@ + node + "` is reserved"@,
            PreflightErrorView::DuplicateNode { node } => "duplicate node id `"@ + node + "`"@,
            PreflightErrorView::ReservedInput { input, node } => "input name `"@ + input
                + "` is reserved (node `"@ + node + "`)"@,
            PreflightErrorView::TopicOrNode =>
                "input must set exactly one of `topic` or `node`"@,
            PreflightErrorView::TopicNotInBag { topic, node, input, available } => "topic `"@
                + topic + "` (node `"@ + node + "`, input `"@ + input
                + "`) is not in the bag.\navailable topics:\n"@ + joined(available, "\n"@),
            PreflightErrorView::BadReference { reference } => "bad node reference `"@ + reference
                + "` — expected `node_id/output`"@,
            PreflightErrorView::UnknownNode { node, by } => "unknown node `"@ + node
                + "` referenced by `"@ + by + "`"@,
            PreflightErrorView::NoSuchOutput { node, output, by } => "node `"@ + node
                + "` has no output `"@ + output + "` (referenced by `"@ + by + "`)"@,
            PreflightErrorView::NoTopics =>
                "no rostopic inputs — at least one node must subscribe to a bag topic"@,
        }
    }
}

impl PreflightError {
    /// The error in words.
    pub fn message(&self) -> (text: String)
        ensures
            text@ == self@.message(),
    {
        let mut text = String::new();
        match self {
            PreflightError::BagNotFound { bag } => {
                text.append("bag not found: ");
                text.append(bag.as_str());
            },
            PreflightError::ReservedNode { node } => {
                text.append("node id `");
                text.append(node.as_str());
                text.append("` is reserved");
            },
            PreflightError::DuplicateNode { node } => {
                text.append("duplicate node id `");
                text.append(node.as_str());
                text.append("`");
            },
            PreflightError::ReservedInput { input, node } => {
                text.append("input name `");
                text.append(input.as_str());
                text.append("` is reserved (node `");
                text.append(node.as_str());
                text.append("`)");
            },
            PreflightError::TopicOrNode => {
                text.append("input must set exactly one of `topic` or `node`");
            },
            PreflightError::TopicNotInBag { topic, node, input, available } => {
                text.append("topic `");
                text.append(topic.as_str());
                text.append("` (node `");
                text.append(node.as_str());
                text.append("`, input `");
                text.append(input.as_str());
                text.append("`) is not in the bag.\navailable topics:\n");
                text.append(join_texts(available, "\n").as_str());
            },
            PreflightError::BadReference { reference } => {
                text.append("bad node reference `");
                text.append(reference.as_str());
                text.append("` — expected `node_id/output`");
            },
            PreflightError::UnknownNode { node, by } => {
                text.append("unknown node `");
                text.append(node.as_str());
                text.append("` referenced by `");
                text.append(by.as_str());
                text.append("`");
            },
            PreflightError::NoSuchOutput { node, output, by } => {
                text.append("node `");
                text.append(node.as_str());
                text.append("` has no output `");
                text.append(output.as_str());
                text.append("` (referenced by `");
                text.append(by.as_str());
                text.append("`)");
            },
            PreflightError::NoTopics => {
                text.append("no rostopic inputs — at least one node must subscribe to a bag topic");
            },
        }
        assert(text@ =~= self@.message());
        text
    }
}

} // verus!

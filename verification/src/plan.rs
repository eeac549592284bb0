//! The plan of a flow: the dataflow that runs it, and what can be wrong with
//! it before that.
use crate::check::{
    first_id_error, first_wiring_error, is_topic, topics_by_name, MetaTopic, TopicView,
};
use crate::dataflow::{DoraFlow, DoraInputView, DoraNodeView};
use crate::error::PreflightErrorView;
use crate::flow::{output_of_topic, FlowInputView, FlowNodeView, FlowView};
use crate::json::{json_of_counts, json_of_text_maps, json_of_texts};
use crate::number::decimal;
use crate::paths::path_in;
use crate::text::joined;
use crate::text_map::ordered_keys;
use vstd::prelude::*;

verus! {

/// The id of the node that reads the bag.
pub const SOURCE_ID: &'static str = "bagflow_source";

/// The id of the node that writes the report.
pub const REPORT_ID: &'static str = "bagflow_report";

/// The queue size of an input where nothing else sets one. It bounds what may
/// wait on one edge.
pub const DEFAULT_QUEUE: usize = 256;

/// The queue size of the inputs that tell the nodes to finish.
pub const DONE_QUEUE: usize = 100;

/// What preparing a flow needs to know of its surroundings.
#[derive(Debug)]
pub struct Site {
    /// The directory that the flow is in.
    pub flow_dir: String,
    /// The directory that the programs of the framework are in.
    pub exe_dir: String,
    /// Whether the bag exists.
    pub bag_found: bool,
    /// A JSON object that describes the bag.
    pub bag_info: String,
}

/// The model of a [`Site`].
pub struct SiteView {
    pub flow_dir: Seq<char>,
    pub exe_dir: Seq<char>,
    pub bag_found: bool,
    pub bag_info: Seq<char>,
}

impl View for Site {
    type V = SiteView;

    open spec fn view(&self) -> SiteView {
        SiteView {
            flow_dir: self.flow_dir@,
            exe_dir: self.exe_dir@,
            bag_found: self.bag_found,
            bag_info: self.bag_info@,
        }
    }
}

/// A flow that is ready to run.
#[derive(Debug)]
pub struct Plan {
    pub dataflow: DoraFlow,
    pub report_path: String,
    /// The topics that the flow subscribes to, in ascending order, and how
    /// many messages the bag has of each, where that is known.
    pub topics: Vec<(String, Option<u64>)>,
    /// The directory for generated files.
    pub workdir: String,
}

/// The model of a [`Plan`].
pub struct PlanView {
    pub nodes: Seq<DoraNodeView>,
    pub report_path: Seq<char>,
    pub topics: Seq<(Seq<char>, Option<u64>)>,
    pub workdir: Seq<char>,
}

/// The model of a list of topics with their counts.
pub open spec fn topic_counts(list: Seq<(String, Option<u64>)>) -> Seq<(Seq<char>, Option<u64>)> {
    list.map_values(|t: (String, Option<u64>)| (t.0@, t.1))
}

impl View for Plan {
    type V = PlanView;

    open spec fn view(&self) -> PlanView {
        PlanView {
            nodes: self.dataflow@,
            report_path: self.report_path@,
            topics: topic_counts(self.topics@),
            workdir: self.workdir@,
        }
    }
}

/// Input `name` of `n` subscribes to `topic`.
pub open spec fn input_subscribes(n: FlowNodeView, name: Seq<char>, topic: Seq<char>) -> bool {
    n.inputs.contains_key(name) && n.inputs[name].reference() == Some(topic) && is_topic(topic)
}

/// Some input of some node subscribes to `topic`.
pub open spec fn subscribes(nodes: Seq<FlowNodeView>, topic: Seq<char>) -> bool {
    exists|i: int, name: Seq<char>|
        0 <= i < nodes.len() && #[trigger] input_subscribes(nodes[i], name, topic)
}

/// The topics that the nodes subscribe to, each with the output of the source
/// that carries it.
pub open spec fn subscriptions(nodes: Seq<FlowNodeView>) -> Map<Seq<char>, Seq<char>> {
    Map::new(|t: Seq<char>| subscribes(nodes, t), |t: Seq<char>| output_of_topic(t))
}

/// What each input of a node refers to.
pub open spec fn node_wiring(n: FlowNodeView) -> Map<Seq<char>, Seq<char>> {
    n.inputs.map_values(|i: FlowInputView| i.reference()->0)
}

/// What each input refers to, by node. Nodes without inputs are left out.
pub open spec fn wiring(nodes: Seq<FlowNodeView>) -> Map<Seq<char>, Map<Seq<char>, Seq<char>>>
    decreases nodes.len(),
{
    if nodes.len() == 0 {
        Map::empty()
    } else if nodes.last().inputs.is_empty() {
        wiring(nodes.drop_last())
    } else {
        wiring(nodes.drop_last()).insert(nodes.last().id, node_wiring(nodes.last()))
    }
}

/// The input by which a node learns that everything has been read.
pub open spec fn done_input() -> DoraInputView {
    DoraInputView { source: REPORT_ID@ + "/done"@, queue_size: DONE_QUEUE }
}

/// The queue size of an input: its own, else its node's, else the flow's,
/// else the built-in one.
pub open spec fn queue_of(
    input: Option<usize>,
    node: Option<usize>,
    flow: Option<usize>,
) -> usize {
    match (input, node, flow) {
        (Some(n), _, _) => n,
        (None, Some(n), _) => n,
        (None, None, Some(n)) => n,
        (None, None, None) => DEFAULT_QUEUE,
    }
}

/// The output that a reference stands for.
pub open spec fn source_of(reference: Seq<char>) -> Seq<char> {
    if is_topic(reference) {
        SOURCE_ID@ + "/"@ + output_of_topic(reference)
    } else {
        reference
    }
}

/// The edge that feeds an input of node `n`.
pub open spec fn edge(
    default_queue: Option<usize>,
    n: FlowNodeView,
    input: FlowInputView,
) -> DoraInputView {
    DoraInputView {
        source: source_of(input.reference()->0),
        queue_size: queue_of(input.queue_size(), n.queue_size, default_queue),
    }
}

/// The inputs of a node in the dataflow: its own, and the one that ends it.
pub open spec fn node_inputs(default_queue: Option<usize>, n: FlowNodeView) -> Map<
    Seq<char>,
    DoraInputView,
> {
    Map::new(
        |k: Seq<char>| k == "done"@ || n.inputs.contains_key(k),
        |k: Seq<char>|
            if n.inputs.contains_key(k) {
                edge(default_queue, n, n.inputs[k])
            } else {
                done_input()
            },
    )
}

/// Where generated files go.
pub open spec fn workdir_of(flow_dir: Seq<char>) -> Seq<char> {
    path_in(flow_dir, ".bagflow"@)
}

/// Where the Python side of the framework goes.
pub open spec fn pylib_of(flow_dir: Seq<char>) -> Seq<char> {
    path_in(workdir_of(flow_dir), "pylib"@)
}

/// The environment of a node: its own, what tells it its place in the flow,
/// and the framework's directory at the front of its Python path.
pub open spec fn node_env(flow_dir: Seq<char>, n: FlowNodeView) -> Map<Seq<char>, Seq<char>> {
    let pylib = pylib_of(flow_dir);
    n.env.insert("BAGFLOW_INPUTS"@, joined(ordered_keys(n.inputs), ","@)).insert(
        "BAGFLOW_OUTPUTS"@,
        joined(n.outputs, ","@),
    ).insert("BAGFLOW_NODE_ID"@, n.id).insert(
        "PYTHONPATH"@,
        if n.env.contains_key("PYTHONPATH"@) {
            pylib + ":"@ + n.env["PYTHONPATH"@]
        } else {
            pylib
        },
    )
}

/// A node of the flow as a node of the dataflow.
pub open spec fn user_node(
    flow_dir: Seq<char>,
    default_queue: Option<usize>,
    n: FlowNodeView,
) -> DoraNodeView {
    DoraNodeView {
        id: n.id,
        path: path_in(flow_dir, n.path),
        inputs: node_inputs(default_queue, n),
        outputs: n.outputs.push("result"@),
        env: node_env(flow_dir, n),
    }
}

/// The environment of the source.
pub open spec fn source_env(
    bag: Seq<char>,
    topics: Map<Seq<char>, Seq<char>>,
    batch_rows: Option<usize>,
    batch_bytes: Option<usize>,
) -> Map<Seq<char>, Seq<char>> {
    let base = map!["BAGFLOW_BAG"@ => bag, "BAGFLOW_TOPICS"@ => json_of_texts(topics)];
    let sized = match batch_rows {
        Some(n) => base.insert("BAGFLOW_BATCH_ROWS"@, decimal(n as nat)),
        None => base,
    };
    match batch_bytes {
        Some(n) => sized.insert("BAGFLOW_BATCH_BYTES"@, decimal(n as nat)),
        None => sized,
    }
}

/// The outputs of the source: one for each topic, in ascending order of
/// topic, and its result.
pub open spec fn source_outputs(topics: Map<Seq<char>, Seq<char>>) -> Seq<Seq<char>> {
    ordered_keys(topics).map_values(|t: Seq<char>| topics[t]).push("result"@)
}

/// The node that reads the bag.
pub open spec fn source_node(flow: FlowView, site: SiteView) -> DoraNodeView {
    let topics = subscriptions(flow.nodes);
    DoraNodeView {
        id: SOURCE_ID@,
        path: path_in(site.exe_dir, "bagflow-source"@),
        inputs: map!["done"@ => done_input()],
        outputs: source_outputs(topics),
        env: source_env(
            path_in(site.flow_dir, flow.bag),
            topics,
            flow.batch_rows,
            flow.batch_bytes,
        ),
    }
}

/// The input of the report by which it gets the result of node `id`.
pub open spec fn result_name(id: Seq<char>) -> Seq<char> {
    "result_"@ + id
}

/// The edge from the result of node `id`.
pub open spec fn result_edge(id: Seq<char>) -> DoraInputView {
    DoraInputView { source: id + "/result"@, queue_size: DEFAULT_QUEUE }
}

/// The inputs of the report: the results of the source and of every node.
pub open spec fn report_inputs(nodes: Seq<FlowNodeView>) -> Map<Seq<char>, DoraInputView>
    decreases nodes.len(),
{
    if nodes.len() == 0 {
        map![result_name(SOURCE_ID@) => result_edge(SOURCE_ID@)]
    } else {
        report_inputs(nodes.drop_last()).insert(
            result_name(nodes.last().id),
            result_edge(nodes.last().id),
        )
    }
}

/// The topics of a bag, none where it has no metadata.
pub open spec fn known_topics(bag: Option<Map<Seq<char>, TopicView>>) -> Map<
    Seq<char>,
    TopicView,
> {
    match bag {
        Some(b) => b,
        None => Map::empty(),
    }
}

/// How many messages the bag has of each of its topics.
pub open spec fn expected_counts(bag: Map<Seq<char>, TopicView>) -> Map<Seq<char>, u64> {
    bag.map_values(|t: TopicView| t.count)
}

/// The node that writes the report.
pub open spec fn report_node(
    flow: FlowView,
    site: SiteView,
    bag: Option<Map<Seq<char>, TopicView>>,
) -> DoraNodeView {
    DoraNodeView {
        id: REPORT_ID@,
        path: path_in(pylib_of(site.flow_dir), "report.py"@),
        inputs: report_inputs(flow.nodes),
        outputs: seq!["done"@],
        env: map![
            "BAGFLOW_REPORT"@ => path_in(site.flow_dir, flow.report),
            "BAGFLOW_EXPECTED"@ => json_of_counts(expected_counts(known_topics(bag))),
            "BAGFLOW_WIRING"@ => json_of_text_maps(wiring(flow.nodes)),
            "BAGFLOW_BAGINFO"@ => site.bag_info,
            "BAGFLOW_INPUTS"@ => joined(ordered_keys(report_inputs(flow.nodes)), ","@)
        ],
    }
}

/// How many messages the bag has of `topic`, where that is known.
pub open spec fn count_of(bag: Option<Map<Seq<char>, TopicView>>, topic: Seq<char>) -> Option<
    u64,
> {
    if known_topics(bag).contains_key(topic) {
        Some(known_topics(bag)[topic].count)
    } else {
        None
    }
}

/// The nodes of the dataflow: the source, the nodes of the flow in order, and
/// the report.
pub open spec fn dataflow_of(
    flow: FlowView,
    site: SiteView,
    bag: Option<Map<Seq<char>, TopicView>>,
) -> Seq<DoraNodeView> {
    (seq![source_node(flow, site)] + flow.nodes.map_values(
        |n: FlowNodeView| user_node(site.flow_dir, flow.default_queue, n),
    )).push(report_node(flow, site, bag))
}

/// The plan of a flow that has nothing wrong.
pub open spec fn plan_of(
    flow: FlowView,
    site: SiteView,
    bag: Option<Map<Seq<char>, TopicView>>,
) -> PlanView {
    PlanView {
        nodes: dataflow_of(flow, site, bag),
        report_path: path_in(site.flow_dir, flow.report),
        topics: ordered_keys(subscriptions(flow.nodes)).map_values(
            |t: Seq<char>| (t, count_of(bag, t)),
        ),
        workdir: workdir_of(site.flow_dir),
    }
}

/// The first thing that is wrong with a flow.
pub open spec fn flow_error(
    flow: FlowView,
    site: SiteView,
    bag: Option<Map<Seq<char>, TopicView>>,
) -> Option<PreflightErrorView> {
    if !site.bag_found {
        Some(PreflightErrorView::BagNotFound { bag: path_in(site.flow_dir, flow.bag) })
    } else if first_id_error(flow.nodes, 0) is Some {
        first_id_error(flow.nodes, 0)
    } else if first_wiring_error(flow.nodes, bag, 0) is Some {
        first_wiring_error(flow.nodes, bag, 0)
    } else if forall|t: Seq<char>| !#[trigger] subscribes(flow.nodes, t) {
        Some(PreflightErrorView::NoTopics)
    } else {
        None
    }
}

/// The topics of a bag by name, where the bag has metadata.
pub open spec fn meta_topics(meta: Option<&Vec<MetaTopic>>) -> Option<Map<Seq<char>, TopicView>> {
    match meta {
        Some(list) => Some(topics_by_name(list@)),
        None => None,
    }
}

} // verus!

//! What stands in the dataflow of a flow, node by node and edge by edge.
use crate::check::{
    a_bag_has_the_topics_that_are_listed, a_topic_is_its_last_entry, MetaTopic, TopicView,
};
use crate::dataflow::DoraInputView;
use crate::flow::{output_of_topic, FlowInputView, FlowNodeView, FlowView};
use crate::json::{json_of_counts, json_of_text_maps, json_of_texts};
use crate::laws::{lemma_report_inputs, lemma_wiring_has, lemma_wiring_lacks};
use crate::number::decimal;
use crate::paths::path_in;
use crate::plan::{
    dataflow_of, expected_counts, input_subscribes, known_topics, meta_topics,
    node_wiring, plan_of, report_inputs, report_node, source_node, subscribes, subscriptions,
    user_node, wiring, Site, SiteView,
};
use crate::text::joined;
use crate::text_map::{lemma_ordered_keys, lists_keys};
use vstd::prelude::*;

verus! {

/// The input is written with the reference `r`: in the short form, or in the
/// long form as its topic or as its node.
pub open spec fn written_as(input: FlowInputView, r: Seq<char>) -> bool {
    match input {
        FlowInputView::Short(s) => s == r,
        FlowInputView::Long { topic: Some(t), node: None, .. } => t == r,
        FlowInputView::Long { topic: None, node: Some(n), .. } => n == r,
        _ => false,
    }
}

/// The nodes of a dataflow are the source, those of the flow in their order,
/// and the report.
pub proof fn a_dataflow_has_the_nodes_of_its_flow(
    flow: FlowView,
    site: SiteView,
    bag: Option<Map<Seq<char>, TopicView>>,
    i: int,
)
    ensures
        dataflow_of(flow, site, bag).len() == flow.nodes.len() + 2,
        dataflow_of(flow, site, bag)[0].id == "bagflow_source"@,
        dataflow_of(flow, site, bag).last().id == "bagflow_report"@,
        0 <= i < flow.nodes.len() ==> dataflow_of(flow, site, bag)[i + 1].id == flow.nodes[i].id,
        plan_of(flow, site, bag).nodes == dataflow_of(flow, site, bag),
{
}

/// Every input of a node gets what it names, in the short form and in the long
/// one: an output of a node is named as it is, and a topic stands for the
/// output by which the source carries it, which is the one that the source is
/// told.
pub proof fn every_input_gets_what_it_names(
    flow: FlowView,
    site: SiteView,
    bag: Option<Map<Seq<char>, TopicView>>,
    i: int,
    name: Seq<char>,
    r: Seq<char>,
)
    requires
        0 <= i < flow.nodes.len(),
        flow.nodes[i].inputs.contains_key(name),
        written_as(flow.nodes[i].inputs[name], r),
    ensures
        ({
            let all = dataflow_of(flow, site, bag);
            let topics = subscriptions(flow.nodes);
            &&& all[i + 1].inputs.contains_key(name)
            &&& !(r.len() > 0 && r[0] == '/') ==> all[i + 1].inputs[name].source == r
            &&& r.len() > 0 && r[0] == '/' ==> {
                &&& topics.contains_key(r)
                &&& all[i + 1].inputs[name].source == "bagflow_source/"@ + topics[r]
                &&& all[0].env.contains_pair("BAGFLOW_TOPICS"@, json_of_texts(topics))
            }
        }),
{
    reveal_strlit("bagflow_source");
    reveal_strlit("/");
    reveal_strlit("bagflow_source/");
    assert("bagflow_source/"@ =~= "bagflow_source"@ + "/"@);
    let all = dataflow_of(flow, site, bag);
    assert(all[i + 1] == user_node(site.flow_dir, flow.default_queue, flow.nodes[i]));
    assert(flow.nodes[i].inputs[name].reference() == Some(r));
    if r.len() > 0 && r[0] == '/' {
        assert(input_subscribes(flow.nodes[i], name, r));
        assert(subscribes(flow.nodes, r));
        the_source_is_told_its_bag_topics_and_batches(flow, site, bag);
    }
}

/// A node of a dataflow has the inputs of its node in the flow and the one that
/// tells it that all is done, and no other.
pub proof fn a_node_has_its_inputs_and_done(
    flow: FlowView,
    site: SiteView,
    bag: Option<Map<Seq<char>, TopicView>>,
    i: int,
    name: Seq<char>,
)
    requires
        0 <= i < flow.nodes.len(),
    ensures
        ({
            let inputs = dataflow_of(flow, site, bag)[i + 1].inputs;
            &&& inputs.contains_key(name) <==> flow.nodes[i].inputs.contains_key(name) || name
                == "done"@
            &&& !flow.nodes[i].inputs.contains_key("done"@) ==> inputs["done"@]
                == (DoraInputView { source: "bagflow_report/done"@, queue_size: 100 })
        }),
{
    reveal_strlit("bagflow_report");
    reveal_strlit("/done");
    reveal_strlit("bagflow_report/done");
    assert("bagflow_report/done"@ =~= "bagflow_report"@ + "/done"@);
    assert(dataflow_of(flow, site, bag)[i + 1] == user_node(
        site.flow_dir,
        flow.default_queue,
        flow.nodes[i],
    ));
}

/// A node of a dataflow runs the program of its node in the flow, as seen from
/// the flow, and has its outputs in their order, with its result behind them.
pub proof fn a_node_runs_its_program(
    flow: FlowView,
    site: SiteView,
    bag: Option<Map<Seq<char>, TopicView>>,
    i: int,
    k: int,
)
    requires
        0 <= i < flow.nodes.len(),
    ensures
        ({
            let node = dataflow_of(flow, site, bag)[i + 1];
            let outputs = flow.nodes[i].outputs;
            &&& node.path == path_in(site.flow_dir, flow.nodes[i].path)
            &&& node.outputs.len() == outputs.len() + 1
            &&& 0 <= k < outputs.len() ==> node.outputs[k] == outputs[k]
            &&& node.outputs[outputs.len() as int] == "result"@
        }),
{
    assert(dataflow_of(flow, site, bag)[i + 1] == user_node(
        site.flow_dir,
        flow.default_queue,
        flow.nodes[i],
    ));
}

proof fn lemma_node_variables()
    ensures
        "BAGFLOW_INPUTS"@ != "BAGFLOW_OUTPUTS"@,
        "BAGFLOW_INPUTS"@ != "BAGFLOW_NODE_ID"@,
        "BAGFLOW_INPUTS"@ != "PYTHONPATH"@,
        "BAGFLOW_OUTPUTS"@ != "BAGFLOW_NODE_ID"@,
        "BAGFLOW_OUTPUTS"@ != "PYTHONPATH"@,
        "BAGFLOW_NODE_ID"@ != "PYTHONPATH"@,
{
    reveal_strlit("BAGFLOW_INPUTS");
    reveal_strlit("BAGFLOW_OUTPUTS");
    reveal_strlit("BAGFLOW_NODE_ID");
    reveal_strlit("PYTHONPATH");
    assert("BAGFLOW_INPUTS"@.len() == 14 && "PYTHONPATH"@.len() == 10);
    assert("BAGFLOW_OUTPUTS"@.len() == 15 && "BAGFLOW_NODE_ID"@.len() == 15);
    assert("BAGFLOW_OUTPUTS"@[8] == 'O' && "BAGFLOW_NODE_ID"@[8] == 'N');
}

/// A node is told its id, its inputs in order and its outputs. The framework's
/// directory stands first in its Python path. Everything else in its
/// environment is its own.
#[verifier::rlimit(40)]
pub proof fn a_node_is_told_its_place(
    flow: FlowView,
    site: SiteView,
    bag: Option<Map<Seq<char>, TopicView>>,
    i: int,
    keys: Seq<Seq<char>>,
    k: Seq<char>,
)
    requires
        0 <= i < flow.nodes.len(),
        lists_keys(keys, flow.nodes[i].inputs),
    ensures
        ({
            let node = flow.nodes[i];
            let env = dataflow_of(flow, site, bag)[i + 1].env;
            let pylib = path_in(path_in(site.flow_dir, ".bagflow"@), "pylib"@);
            &&& env.contains_pair("BAGFLOW_NODE_ID"@, node.id)
            &&& env.contains_pair("BAGFLOW_INPUTS"@, joined(keys, ","@))
            &&& env.contains_pair("BAGFLOW_OUTPUTS"@, joined(node.outputs, ","@))
            &&& !node.env.contains_key("PYTHONPATH"@) ==> env.contains_pair("PYTHONPATH"@, pylib)
            &&& node.env.contains_key("PYTHONPATH"@) ==> env.contains_pair(
                "PYTHONPATH"@,
                pylib + ":"@ + node.env["PYTHONPATH"@],
            )
            &&& k != "BAGFLOW_NODE_ID"@ && k != "BAGFLOW_INPUTS"@ && k != "BAGFLOW_OUTPUTS"@ && k
                != "PYTHONPATH"@ ==> {
                &&& env.contains_key(k) <==> node.env.contains_key(k)
                &&& node.env.contains_key(k) ==> env[k] == node.env[k]
            }
        }),
{
    lemma_node_variables();
    lemma_ordered_keys(keys, flow.nodes[i].inputs);
    assert(dataflow_of(flow, site, bag)[i + 1] == user_node(
        site.flow_dir,
        flow.default_queue,
        flow.nodes[i],
    ));
}

/// A topic is subscribed to exactly where some input is written with it and it
/// begins with a slash. The source carries it by the output of the topic.
pub proof fn subscribed_topics_are_those_that_inputs_name(
    nodes: Seq<FlowNodeView>,
    t: Seq<char>,
)
    ensures
        subscriptions(nodes).contains_key(t) <==> t.len() > 0 && t[0] == '/' && exists|
            i: int,
            name: Seq<char>,
        |
            0 <= i < nodes.len() && #[trigger] nodes[i].inputs.contains_key(name) && written_as(
                nodes[i].inputs[name],
                t,
            ),
        subscriptions(nodes).contains_key(t) ==> subscriptions(nodes)[t] == output_of_topic(t),
{
    if subscribes(nodes, t) {
        let (i, name) = choose|i: int, name: Seq<char>|
            0 <= i < nodes.len() && #[trigger] input_subscribes(nodes[i], name, t);
        assert(nodes[i].inputs.contains_key(name) && written_as(nodes[i].inputs[name], t));
    }
    if t.len() > 0 && t[0] == '/' && exists|i: int, name: Seq<char>|
        0 <= i < nodes.len() && #[trigger] nodes[i].inputs.contains_key(name) && written_as(
            nodes[i].inputs[name],
            t,
        ) {
        let (i, name) = choose|i: int, name: Seq<char>|
            0 <= i < nodes.len() && #[trigger] nodes[i].inputs.contains_key(name) && written_as(
                nodes[i].inputs[name],
                t,
            );
        assert(input_subscribes(nodes[i], name, t));
    }
}

proof fn lemma_source_variables()
    ensures
        "BAGFLOW_BAG"@ != "BAGFLOW_TOPICS"@,
        "BAGFLOW_BAG"@ != "BAGFLOW_BATCH_ROWS"@,
        "BAGFLOW_BAG"@ != "BAGFLOW_BATCH_BYTES"@,
        "BAGFLOW_TOPICS"@ != "BAGFLOW_BATCH_ROWS"@,
        "BAGFLOW_TOPICS"@ != "BAGFLOW_BATCH_BYTES"@,
        "BAGFLOW_BATCH_ROWS"@ != "BAGFLOW_BATCH_BYTES"@,
{
    reveal_strlit("BAGFLOW_BAG");
    reveal_strlit("BAGFLOW_TOPICS");
    reveal_strlit("BAGFLOW_BATCH_ROWS");
    reveal_strlit("BAGFLOW_BATCH_BYTES");
    assert("BAGFLOW_BAG"@.len() == 11 && "BAGFLOW_TOPICS"@.len() == 14);
    assert("BAGFLOW_BATCH_ROWS"@.len() == 18 && "BAGFLOW_BATCH_BYTES"@.len() == 19);
}

/// The source is told where its bag is, which topics it carries by which
/// outputs, and how large its batches are, where the flow says so. It is told
/// nothing else.
#[verifier::rlimit(40)]
pub proof fn the_source_is_told_its_bag_topics_and_batches(
    flow: FlowView,
    site: SiteView,
    bag: Option<Map<Seq<char>, TopicView>>,
)
    ensures
        ({
            let env = dataflow_of(flow, site, bag)[0].env;
            &&& env.contains_pair("BAGFLOW_BAG"@, path_in(site.flow_dir, flow.bag))
            &&& env.contains_pair("BAGFLOW_TOPICS"@, json_of_texts(subscriptions(flow.nodes)))
            &&& env.contains_key("BAGFLOW_BATCH_ROWS"@) <==> flow.batch_rows is Some
            &&& flow.batch_rows matches Some(n) ==> env["BAGFLOW_BATCH_ROWS"@] == decimal(n as nat)
            &&& env.contains_key("BAGFLOW_BATCH_BYTES"@) <==> flow.batch_bytes is Some
            &&& flow.batch_bytes matches Some(n) ==> env["BAGFLOW_BATCH_BYTES"@] == decimal(
                n as nat,
            )
            &&& forall|k: Seq<char>| #[trigger]
                env.contains_key(k) ==> k == "BAGFLOW_BAG"@ || k == "BAGFLOW_TOPICS"@ || k
                    == "BAGFLOW_BATCH_ROWS"@ || k == "BAGFLOW_BATCH_BYTES"@
        }),
{
    lemma_source_variables();
    assert(dataflow_of(flow, site, bag)[0] == source_node(flow, site));
}

/// The source runs beside this program, waits for nothing but the end, and has
/// an output for each topic, in the order of topics, and one for its result.
pub proof fn the_source_has_an_output_for_each_topic(
    flow: FlowView,
    site: SiteView,
    bag: Option<Map<Seq<char>, TopicView>>,
    keys: Seq<Seq<char>>,
    k: int,
)
    requires
        lists_keys(keys, subscriptions(flow.nodes)),
    ensures
        ({
            let source = dataflow_of(flow, site, bag)[0];
            &&& source.path == path_in(site.exe_dir, "bagflow-source"@)
            &&& source.inputs == map!["done"@ => DoraInputView {
                source: "bagflow_report/done"@,
                queue_size: 100,
            }]
            &&& source.outputs.len() == keys.len() + 1
            &&& 0 <= k < keys.len() ==> source.outputs[k] == subscriptions(flow.nodes)[keys[k]]
            &&& source.outputs[keys.len() as int] == "result"@
        }),
{
    reveal_strlit("bagflow_report");
    reveal_strlit("/done");
    reveal_strlit("bagflow_report/done");
    assert("bagflow_report/done"@ =~= "bagflow_report"@ + "/done"@);
    lemma_ordered_keys(keys, subscriptions(flow.nodes));
    assert(dataflow_of(flow, site, bag)[0] == source_node(flow, site));
}

/// The report gets the result of the source and of every node, by inputs that
/// are named after them, and nothing else.
pub proof fn the_report_gets_every_result(
    flow: FlowView,
    site: SiteView,
    bag: Option<Map<Seq<char>, TopicView>>,
    k: Seq<char>,
)
    ensures
        ({
            let report = dataflow_of(flow, site, bag).last();
            &&& report.path == path_in(
                path_in(path_in(site.flow_dir, ".bagflow"@), "pylib"@),
                "report.py"@,
            )
            &&& report.outputs == seq!["done"@]
            &&& report.inputs.contains_key(k) <==> k == "result_bagflow_source"@ || exists|i: int|
                0 <= i < flow.nodes.len() && k == "result_"@ + #[trigger] flow.nodes[i].id
            &&& report.inputs.contains_key(k) ==> {
                &&& report.inputs[k].queue_size == 256
                &&& report.inputs[k].source == k.skip(7) + "/result"@
            }
        }),
{
    reveal_strlit("bagflow_source");
    reveal_strlit("result_");
    reveal_strlit("result_bagflow_source");
    assert("result_bagflow_source"@ =~= "result_"@ + "bagflow_source"@);
    assert("result_"@.len() == 7);
    assert(dataflow_of(flow, site, bag).last() == report_node(flow, site, bag));
    lemma_report_inputs(flow.nodes);
    let inputs = report_inputs(flow.nodes);
    assert(("result_"@ + "bagflow_source"@).skip(7) =~= "bagflow_source"@);
    assert forall|i: int| 0 <= i < flow.nodes.len() implies ("result_"@
        + #[trigger] flow.nodes[i].id).skip(7) == flow.nodes[i].id by {
        assert(("result_"@ + flow.nodes[i].id).skip(7) =~= flow.nodes[i].id);
    }
    if inputs.contains_key(k) && k != "result_bagflow_source"@ {
        let i = choose|i: int|
            0 <= i < flow.nodes.len() && k == "result_"@ + #[trigger] flow.nodes[i].id;
        assert(k == "result_"@ + flow.nodes[i].id);
    }
}

proof fn lemma_report_variables()
    ensures
        "BAGFLOW_REPORT"@ != "BAGFLOW_EXPECTED"@,
        "BAGFLOW_REPORT"@ != "BAGFLOW_WIRING"@,
        "BAGFLOW_REPORT"@ != "BAGFLOW_BAGINFO"@,
        "BAGFLOW_REPORT"@ != "BAGFLOW_INPUTS"@,
        "BAGFLOW_EXPECTED"@ != "BAGFLOW_WIRING"@,
        "BAGFLOW_EXPECTED"@ != "BAGFLOW_BAGINFO"@,
        "BAGFLOW_EXPECTED"@ != "BAGFLOW_INPUTS"@,
        "BAGFLOW_WIRING"@ != "BAGFLOW_BAGINFO"@,
        "BAGFLOW_WIRING"@ != "BAGFLOW_INPUTS"@,
        "BAGFLOW_BAGINFO"@ != "BAGFLOW_INPUTS"@,
{
    reveal_strlit("BAGFLOW_REPORT");
    reveal_strlit("BAGFLOW_EXPECTED");
    reveal_strlit("BAGFLOW_WIRING");
    reveal_strlit("BAGFLOW_BAGINFO");
    reveal_strlit("BAGFLOW_INPUTS");
    assert("BAGFLOW_REPORT"@[8] == 'R');
    assert("BAGFLOW_EXPECTED"@[8] == 'E');
    assert("BAGFLOW_WIRING"@[8] == 'W');
    assert("BAGFLOW_BAGINFO"@[8] == 'B');
    assert("BAGFLOW_INPUTS"@[8] == 'I');
}

/// The report is told where it goes, how many messages the bag has of each of
/// its topics, what every input refers to, what the bag is, and its own inputs
/// in order. It is told nothing else.
#[verifier::rlimit(60)]
pub proof fn the_report_is_told_counts_and_wiring(
    flow: FlowView,
    site: SiteView,
    bag: Option<Map<Seq<char>, TopicView>>,
    counts: Map<Seq<char>, u64>,
    keys: Seq<Seq<char>>,
)
    requires
        forall|t: Seq<char>| #[trigger]
            counts.contains_key(t) <==> bag is Some && bag->0.contains_key(t),
        forall|t: Seq<char>| #[trigger] counts.contains_key(t) ==> counts[t] == bag->0[t].count,
        lists_keys(keys, dataflow_of(flow, site, bag).last().inputs),
    ensures
        ({
            let env = dataflow_of(flow, site, bag).last().env;
            &&& env.contains_pair("BAGFLOW_REPORT"@, path_in(site.flow_dir, flow.report))
            &&& env.contains_pair("BAGFLOW_EXPECTED"@, json_of_counts(counts))
            &&& env.contains_pair("BAGFLOW_WIRING"@, json_of_text_maps(wiring(flow.nodes)))
            &&& env.contains_pair("BAGFLOW_BAGINFO"@, site.bag_info)
            &&& env.contains_pair("BAGFLOW_INPUTS"@, joined(keys, ","@))
            &&& forall|k: Seq<char>| #[trigger]
                env.contains_key(k) ==> k == "BAGFLOW_REPORT"@ || k == "BAGFLOW_EXPECTED"@ || k
                    == "BAGFLOW_WIRING"@ || k == "BAGFLOW_BAGINFO"@ || k == "BAGFLOW_INPUTS"@
        }),
{
    lemma_report_variables();
    assert(dataflow_of(flow, site, bag).last() == report_node(flow, site, bag));
    lemma_ordered_keys(keys, report_inputs(flow.nodes));
    let known = expected_counts(known_topics(bag));
    assert forall|t: Seq<char>| #[trigger] known.contains_key(t) <==> counts.contains_key(t) by {}
    assert forall|t: Seq<char>| #[trigger] known.contains_key(t) implies known[t] == counts[t] by {
        assert(counts.contains_key(t));
    }
    assert(known =~= counts);
}

/// What the report is told of the wiring: the nodes that have inputs, and for
/// each of these its inputs with the references that they are written with.
pub proof fn the_wiring_is_what_inputs_are_written_as(
    nodes: Seq<FlowNodeView>,
    id: Seq<char>,
    i: int,
    name: Seq<char>,
    r: Seq<char>,
)
    requires
        forall|a: int, b: int|
            0 <= a < b < nodes.len() ==> #[trigger] nodes[a].id != #[trigger] nodes[b].id,
        0 <= i < nodes.len(),
    ensures
        (forall|a: int| 0 <= a < nodes.len() ==> #[trigger] nodes[a].id != id) ==> !wiring(
            nodes,
        ).contains_key(id),
        wiring(nodes).contains_key(nodes[i].id) <==> exists|k: Seq<char>| #[trigger]
            nodes[i].inputs.contains_key(k),
        wiring(nodes).contains_key(nodes[i].id) ==> (wiring(nodes)[nodes[i].id].contains_key(name)
            <==> nodes[i].inputs.contains_key(name)),
        nodes[i].inputs.contains_key(name) && written_as(nodes[i].inputs[name], r) ==> wiring(
            nodes,
        )[nodes[i].id][name] == r,
{
    if forall|a: int| 0 <= a < nodes.len() ==> #[trigger] nodes[a].id != id {
        lemma_wiring_lacks(nodes, id);
    }
    lemma_wiring_has(nodes, i);
    let inputs = nodes[i].inputs;
    if inputs.is_empty() {
        assert(inputs =~= Map::empty());
    } else if forall|k: Seq<char>| !#[trigger] inputs.contains_key(k) {
        assert(inputs =~= Map::empty());
    }
    assert(node_wiring(nodes[i]).contains_key(name) <==> inputs.contains_key(name));
}

/// A plan lists the topics that are subscribed to, each once and in order, with
/// the count that the bag has of it, where it is known. Its report and its work
/// directory are as seen from the flow.
pub proof fn a_plan_lists_its_topics_with_their_counts(
    flow: FlowView,
    site: SiteView,
    bag: Option<Map<Seq<char>, TopicView>>,
    keys: Seq<Seq<char>>,
    k: int,
)
    requires
        lists_keys(keys, subscriptions(flow.nodes)),
    ensures
        ({
            let plan = plan_of(flow, site, bag);
            &&& plan.report_path == path_in(site.flow_dir, flow.report)
            &&& plan.workdir == path_in(site.flow_dir, ".bagflow"@)
            &&& plan.topics.len() == keys.len()
            &&& 0 <= k < keys.len() ==> {
                &&& plan.topics[k].0 == keys[k]
                &&& bag is Some && bag->0.contains_key(keys[k]) ==> plan.topics[k].1 == Some(
                    bag->0[keys[k]].count,
                )
                &&& !(bag is Some && bag->0.contains_key(keys[k])) ==> plan.topics[k].1 is None
            }
        }),
{
    lemma_ordered_keys(keys, subscriptions(flow.nodes));
}

/// A plan tells of each topic exactly the count that the metadata lists, that
/// of the last entry where there are several, and none where there is no entry.
pub proof fn a_plan_tells_the_counts_of_the_metadata(
    flow: FlowView,
    site: SiteView,
    list: Vec<MetaTopic>,
    keys: Seq<Seq<char>>,
    k: int,
    i: int,
)
    requires
        lists_keys(keys, subscriptions(flow.nodes)),
        0 <= k < keys.len(),
    ensures
        meta_topics(None) is None,
        ({
            let told = plan_of(flow, site, meta_topics(Some(&list))).topics[k].1;
            &&& 0 <= i < list@.len() && list@[i].name@ == keys[k] && (forall|j: int|
                i < j < list@.len() ==> #[trigger] list@[j].name@ != keys[k]) ==> told == Some(
                list@[i].message_count,
            )
            &&& (forall|j: int| 0 <= j < list@.len() ==> #[trigger] list@[j].name@ != keys[k])
                ==> told is None
        }),
{
    let bag = meta_topics(Some(&list));
    a_plan_lists_its_topics_with_their_counts(flow, site, bag, keys, k);
    a_bag_has_the_topics_that_are_listed(list@, keys[k]);
    if 0 <= i < list@.len() && list@[i].name@ == keys[k] && (forall|j: int|
        i < j < list@.len() ==> #[trigger] list@[j].name@ != keys[k]) {
        a_topic_is_its_last_entry(list@, i);
    }
}

/// The model of the surroundings of a flow has the fields of the surroundings.
pub proof fn the_model_of_a_site_is_the_site(site: Site)
    ensures
        site@.flow_dir == site.flow_dir@,
        site@.exe_dir == site.exe_dir@,
        site@.bag_found == site.bag_found,
        site@.bag_info == site.bag_info@,
{
}

} // verus!

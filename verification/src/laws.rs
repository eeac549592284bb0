//! What holds of every flow that passes preflight and of the dataflow that it
//! becomes.
use crate::check::{
    first_id_error, first_input_error, first_wiring_error, id_error, ids, input_error, is_topic,
    lemma_no_wiring_error, node_reference_error, TopicView,
};
use crate::dataflow::DoraNodeView;
use crate::flow::{
    output_of_topic, slashes_replaced, without_leading, FlowInputView, FlowNodeView, FlowView,
};
use crate::number::{decimal_reads_back, setting_value};
use crate::paths::path_in;
use crate::plan::{
    count_of, dataflow_of, done_input, edge, flow_error, input_subscribes, node_wiring, plan_of,
    report_inputs, report_node, result_edge, result_name, source_node, source_of, subscribes,
    subscriptions, user_node, wiring, SiteView, REPORT_ID, SOURCE_ID,
};
use crate::run::{dataflow_place, generated, lemma_written, written};
use crate::source::{closing, ended_outputs, every_output_of_the_source_ends_once};
use crate::text::cut_at_first;
use crate::text_map::{lemma_key_count, lemma_keys_listed, lists_keys, ordered_keys};
use vstd::prelude::*;

verus! {

/// A reference names an output of a node: `id/output`, where the id has no
/// slash.
pub open spec fn resolves(nodes: Seq<FlowNodeView>, reference: Seq<char>) -> bool {
    exists|m: int, k: int|
        0 <= m < nodes.len() && 0 <= k < nodes[m].outputs.len() && !nodes[m].id.contains('/')
            && reference == nodes[m].id + "/"@ + #[trigger] nodes[m].outputs[k]
}

/// An input has a free name and refers to exactly one thing, which is there:
/// a topic of the bag, as far as the bag's topics are known, or an output of a
/// node.
pub open spec fn valid_input(
    nodes: Seq<FlowNodeView>,
    bag: Option<Map<Seq<char>, TopicView>>,
    name: Seq<char>,
    input: FlowInputView,
) -> bool {
    &&& name != "done"@
    &&& name != "result"@
    &&& input.reference() matches Some(r)
    &&& is_topic(r) ==> (bag is None || bag->0.contains_key(r))
    &&& !is_topic(r) ==> resolves(nodes, r)
}

/// The bag is there, node ids are free and distinct, every input is valid, and
/// at least one input subscribes to a topic.
pub open spec fn valid_flow(
    flow: FlowView,
    site: SiteView,
    bag: Option<Map<Seq<char>, TopicView>>,
) -> bool {
    &&& site.bag_found
    &&& forall|i: int|
        0 <= i < flow.nodes.len() ==> !"bagflow"@.is_prefix_of(#[trigger] flow.nodes[i].id)
    &&& forall|i: int, j: int|
        0 <= i < j < flow.nodes.len() ==> #[trigger] flow.nodes[i].id
            != #[trigger] flow.nodes[j].id
    &&& forall|i: int, name: Seq<char>|
        0 <= i < flow.nodes.len() && #[trigger] flow.nodes[i].inputs.contains_key(name)
            ==> valid_input(flow.nodes, bag, name, flow.nodes[i].inputs[name])
    &&& exists|t: Seq<char>| #[trigger] subscribes(flow.nodes, t)
}

proof fn lemma_no_id_error(nodes: Seq<FlowNodeView>, i: int)
    requires
        0 <= i <= nodes.len(),
    ensures
        first_id_error(nodes, i) is None <==> forall|a: int|
            i <= a < nodes.len() ==> #[trigger] id_error(nodes, a) is None,
    decreases nodes.len() - i,
{
    if i < nodes.len() {
        lemma_no_id_error(nodes, i + 1);
        if first_id_error(nodes, i) is None {
            assert forall|a: int| i <= a < nodes.len() implies #[trigger] id_error(
                nodes,
                a,
            ) is None by {
                if a > i {
                    assert(i + 1 <= a < nodes.len());
                }
            }
        }
        if forall|a: int| i <= a < nodes.len() ==> #[trigger] id_error(nodes, a) is None {
            assert(id_error(nodes, i) is None);
            assert forall|a: int| i + 1 <= a < nodes.len() implies #[trigger] id_error(
                nodes,
                a,
            ) is None by {}
        }
    }
}

pub proof fn lemma_ids_valid(nodes: Seq<FlowNodeView>)
    ensures
        first_id_error(nodes, 0) is None <==> {
            &&& forall|i: int|
                0 <= i < nodes.len() ==> !"bagflow"@.is_prefix_of(#[trigger] nodes[i].id)
            &&& forall|i: int, j: int|
                0 <= i < j < nodes.len() ==> #[trigger] nodes[i].id != #[trigger] nodes[j].id
        },
{
    lemma_no_id_error(nodes, 0);
    let all = ids(nodes);
    if first_id_error(nodes, 0) is None {
        assert forall|i: int| 0 <= i < nodes.len() implies !"bagflow"@.is_prefix_of(
            #[trigger] nodes[i].id,
        ) by {
            assert(id_error(nodes, i) is None);
        }
        assert forall|i: int, j: int| 0 <= i < j < nodes.len() implies #[trigger] nodes[i].id
            != #[trigger] nodes[j].id by {
            assert(id_error(nodes, j) is None);
            assert(all.take(j)[i] == nodes[i].id);
            assert(all.take(j).contains(nodes[i].id));
        }
    }
    if ({
        &&& forall|i: int|
            0 <= i < nodes.len() ==> !"bagflow"@.is_prefix_of(#[trigger] nodes[i].id)
        &&& forall|i: int, j: int|
            0 <= i < j < nodes.len() ==> #[trigger] nodes[i].id != #[trigger] nodes[j].id
    }) {
        assert forall|a: int| 0 <= a < nodes.len() implies #[trigger] id_error(
            nodes,
            a,
        ) is None by {
            assert(!"bagflow"@.is_prefix_of(nodes[a].id));
            if all.take(a).contains(nodes[a].id) {
                let i = choose|i: int| 0 <= i < a && all.take(a)[i] == nodes[a].id;
                assert(nodes[i].id != nodes[a].id);
            }
        }
    }
}

proof fn lemma_cut(s: Seq<char>, a: Seq<char>, b: Seq<char>)
    requires
        s == a + "/"@ + b,
        !a.contains('/'),
    ensures
        cut_at_first(s, '/') == Some((a, b)),
{
    reveal_strlit("/");
    assert("/"@ =~= seq!['/']);
    let n = a.len() as int;
    s.index_of_first_ensures('/');
    assert(s[n] == '/');
    assert(s.contains('/'));
    let i = s.index_of_first('/')->0;
    if i < n {
        assert(a[i] == s[i]);
        assert(a.contains('/'));
    }
    assert(i == n);
    assert(s.take(n) =~= a);
    assert(s.skip(n + 1) =~= b);
}

proof fn lemma_cut_parts(s: Seq<char>)
    requires
        cut_at_first(s, '/') is Some,
    ensures
        ({
            let (a, b) = cut_at_first(s, '/')->0;
            s == a + "/"@ + b && !a.contains('/')
        }),
{
    reveal_strlit("/");
    assert("/"@ =~= seq!['/']);
    s.index_of_first_ensures('/');
    let (a, b) = cut_at_first(s, '/')->0;
    let i = s.index_of_first('/')->0;
    assert(s =~= a + "/"@ + b);
    if a.contains('/') {
        let j = choose|j: int| 0 <= j < a.len() && a[j] == '/';
        assert(s[j] == '/');
    }
}

pub proof fn lemma_resolves(nodes: Seq<FlowNodeView>, by: Seq<char>, reference: Seq<char>)
    requires
        forall|i: int, j: int|
            0 <= i < j < nodes.len() ==> #[trigger] nodes[i].id != #[trigger] nodes[j].id,
    ensures
        node_reference_error(nodes, by, reference) is None <==> resolves(nodes, reference),
{
    let all = ids(nodes);
    if node_reference_error(nodes, by, reference) is None {
        lemma_cut_parts(reference);
        let (node, output) = cut_at_first(reference, '/')->0;
        all.index_of_first_ensures(node);
        let m = all.index_of_first(node)->0;
        assert(nodes[m].id == node);
        let k = choose|k: int| 0 <= k < nodes[m].outputs.len() && nodes[m].outputs[k] == output;
        assert(reference == nodes[m].id + "/"@ + nodes[m].outputs[k]);
    }
    if resolves(nodes, reference) {
        let (m, k) = choose|m: int, k: int|
            0 <= m < nodes.len() && 0 <= k < nodes[m].outputs.len() && !nodes[m].id.contains('/')
                && reference == nodes[m].id + "/"@ + #[trigger] nodes[m].outputs[k];
        lemma_cut(reference, nodes[m].id, nodes[m].outputs[k]);
        all.index_of_first_ensures(nodes[m].id);
        assert(all[m] == nodes[m].id);
        assert(all.contains(nodes[m].id));
        let i = all.index_of_first(nodes[m].id)->0;
        assert(nodes[i].id == nodes[m].id);
        if i < m {
            assert(nodes[i].id != nodes[m].id);
        } else if m < i {
            assert(nodes[m].id != nodes[i].id);
        }
        assert(nodes[m].outputs.contains(nodes[m].outputs[k]));
    }
}

proof fn lemma_some_input_error(
    nodes: Seq<FlowNodeView>,
    bag: Option<Map<Seq<char>, TopicView>>,
    n: FlowNodeView,
    j: int,
) -> (b: int)
    requires
        0 <= j,
        first_input_error(nodes, bag, n, j) is Some,
    ensures
        0 <= b < ordered_keys(n.inputs).len(),
        input_error(nodes, bag, n, ordered_keys(n.inputs)[b]) is Some,
    decreases ordered_keys(n.inputs).len() - j,
{
    if input_error(nodes, bag, n, ordered_keys(n.inputs)[j]) is Some {
        j
    } else {
        lemma_some_input_error(nodes, bag, n, j + 1)
    }
}

proof fn lemma_some_wiring_error(
    nodes: Seq<FlowNodeView>,
    bag: Option<Map<Seq<char>, TopicView>>,
    i: int,
) -> (at: (int, int))
    requires
        0 <= i,
        first_wiring_error(nodes, bag, i) is Some,
    ensures
        0 <= at.0 < nodes.len(),
        0 <= at.1 < ordered_keys(nodes[at.0].inputs).len(),
        input_error(nodes, bag, nodes[at.0], ordered_keys(nodes[at.0].inputs)[at.1]) is Some,
    decreases nodes.len() - i,
{
    if first_input_error(nodes, bag, nodes[i], 0) is Some {
        (i, lemma_some_input_error(nodes, bag, nodes[i], 0))
    } else {
        lemma_some_wiring_error(nodes, bag, i + 1)
    }
}

proof fn lemma_wiring_valid(flow: FlowView, bag: Option<Map<Seq<char>, TopicView>>)
    requires
        flow.well_formed(),
        forall|i: int, j: int|
            0 <= i < j < flow.nodes.len() ==> #[trigger] flow.nodes[i].id
                != #[trigger] flow.nodes[j].id,
    ensures
        first_wiring_error(flow.nodes, bag, 0) is None <==> forall|i: int, name: Seq<char>|
            0 <= i < flow.nodes.len() && #[trigger] flow.nodes[i].inputs.contains_key(name)
                ==> valid_input(flow.nodes, bag, name, flow.nodes[i].inputs[name]),
{
    let nodes = flow.nodes;
    assert forall|i: int, name: Seq<char>|
        0 <= i < nodes.len() && nodes[i].inputs.contains_key(name) implies (valid_input(
        nodes,
        bag,
        name,
        nodes[i].inputs[name],
    ) <==> #[trigger] input_error(nodes, bag, nodes[i], name) is None) by {
        match nodes[i].inputs[name].reference() {
            Some(r) => {
                lemma_resolves(nodes, nodes[i].id, r);
            },
            None => {},
        }
    }
    if first_wiring_error(nodes, bag, 0) is None {
        lemma_no_wiring_error(nodes, bag, 0);
        assert forall|i: int, name: Seq<char>|
            0 <= i < nodes.len() && #[trigger] nodes[i].inputs.contains_key(
                name,
            ) implies valid_input(nodes, bag, name, nodes[i].inputs[name]) by {
            assert(nodes[i].inputs.dom().finite());
            lemma_keys_listed(nodes[i].inputs);
            let keys = ordered_keys(nodes[i].inputs);
            assert(keys.contains(name));
            let j = choose|j: int| 0 <= j < keys.len() && keys[j] == name;
            assert(input_error(nodes, bag, nodes[i], ordered_keys(nodes[i].inputs)[j]) is None);
        }
    } else {
        let (i, j) = lemma_some_wiring_error(nodes, bag, 0);
        assert(nodes[i].inputs.dom().finite());
        lemma_keys_listed(nodes[i].inputs);
        let keys = ordered_keys(nodes[i].inputs);
        assert(keys.contains(keys[j]));
        assert(nodes[i].inputs.contains_key(keys[j]));
        assert(input_error(nodes, bag, nodes[i], keys[j]) is Some);
    }
}

/// Preflight passes exactly the valid flows: whatever would keep a flow from
/// being wired up is found before it runs, and nothing else stops it.
pub proof fn preflight_passes_exactly_valid_flows(
    flow: FlowView,
    site: SiteView,
    bag: Option<Map<Seq<char>, TopicView>>,
)
    requires
        flow.well_formed(),
    ensures
        flow_error(flow, site, bag) is None <==> valid_flow(flow, site, bag),
{
    lemma_ids_valid(flow.nodes);
    if first_id_error(flow.nodes, 0) is None {
        lemma_wiring_valid(flow, bag);
    }
}

/// `source` names an output of some node of a dataflow.
pub open spec fn fed(nodes: Seq<DoraNodeView>, source: Seq<char>) -> bool {
    exists|e: int, o: int|
        0 <= e < nodes.len() && 0 <= o < nodes[e].outputs.len() && source == nodes[e].id + "/"@
            + #[trigger] nodes[e].outputs[o]
}

/// The nodes of a dataflow, by position: the source comes first, the report
/// last, and the nodes of the flow stand between them.
proof fn lemma_positions(flow: FlowView, site: SiteView, bag: Option<Map<Seq<char>, TopicView>>)
    ensures
        ({
            let all = dataflow_of(flow, site, bag);
            let n = flow.nodes.len() as int;
            &&& all.len() == n + 2
            &&& all[0] == source_node(flow, site)
            &&& all[n + 1] == report_node(flow, site, bag)
            &&& forall|i: int|
                0 <= i < n ==> #[trigger] all[i + 1] == user_node(
                    site.flow_dir,
                    flow.default_queue,
                    flow.nodes[i],
                )
        }),
{
}

pub proof fn lemma_report_inputs(nodes: Seq<FlowNodeView>)
    ensures
        report_inputs(nodes).contains_key(result_name(SOURCE_ID@)),
        forall|i: int|
            0 <= i < nodes.len() ==> report_inputs(nodes).contains_key(
                result_name(#[trigger] nodes[i].id),
            ),
        forall|k: Seq<char>| #[trigger]
            report_inputs(nodes).contains_key(k) ==> {
                ||| k == result_name(SOURCE_ID@) && report_inputs(nodes)[k] == result_edge(
                    SOURCE_ID@,
                )
                ||| exists|i: int|
                    0 <= i < nodes.len() && k == result_name(#[trigger] nodes[i].id)
                        && report_inputs(nodes)[k] == result_edge(nodes[i].id)
            },
    decreases nodes.len(),
{
    if nodes.len() > 0 {
        let rest = nodes.drop_last();
        lemma_report_inputs(rest);
        assert forall|i: int| 0 <= i < nodes.len() implies report_inputs(nodes).contains_key(
            result_name(#[trigger] nodes[i].id),
        ) by {
            if i < rest.len() {
                assert(rest[i] == nodes[i]);
                assert(report_inputs(rest).contains_key(result_name(rest[i].id)));
            }
        }
        assert forall|k: Seq<char>| #[trigger] report_inputs(nodes).contains_key(k) implies {
            ||| k == result_name(SOURCE_ID@) && report_inputs(nodes)[k] == result_edge(SOURCE_ID@)
            ||| exists|i: int|
                0 <= i < nodes.len() && k == result_name(#[trigger] nodes[i].id) && report_inputs(
                    nodes,
                )[k] == result_edge(nodes[i].id)
        } by {
            let last = nodes.len() - 1;
            if k == result_name(nodes.last().id) {
                assert(nodes[last].id == nodes.last().id);
            } else {
                assert(report_inputs(rest).contains_key(k));
                if exists|i: int|
                    0 <= i < rest.len() && k == result_name(#[trigger] rest[i].id)
                        && report_inputs(rest)[k] == result_edge(rest[i].id) {
                    let i = choose|i: int|
                        0 <= i < rest.len() && k == result_name(#[trigger] rest[i].id)
                            && report_inputs(rest)[k] == result_edge(rest[i].id);
                    assert(nodes[i] == rest[i]);
                    assert(k == result_name(nodes[i].id));
                }
            }
        }
    }
}

proof fn lemma_slash_result()
    ensures
        "/result"@ == "/"@ + "result"@,
        "/done"@ == "/"@ + "done"@,
{
    reveal_strlit("/result");
    reveal_strlit("/");
    reveal_strlit("result");
    reveal_strlit("/done");
    reveal_strlit("done");
    assert("/result"@ =~= "/"@ + "result"@);
    assert("/done"@ =~= "/"@ + "done"@);
}

proof fn lemma_concat(a: Seq<char>, b: Seq<char>, c: Seq<char>)
    ensures
        a + (b + c) == a + b + c,
{
    assert(a + (b + c) =~= a + b + c);
}

/// The nodes subscribe to finitely many topics, so these can be listed.
proof fn lemma_subscriptions_listed(nodes: Seq<FlowNodeView>)
    requires
        forall|i: int| 0 <= i < nodes.len() ==> #[trigger] nodes[i].inputs.dom().finite(),
    ensures
        subscriptions(nodes).dom().finite(),
        lists_keys(ordered_keys(subscriptions(nodes)), subscriptions(nodes)),
    decreases nodes.len(),
{
    let all = subscriptions(nodes);
    if nodes.len() == 0 {
        assert(all.dom() =~= Set::<Seq<char>>::empty());
    } else {
        let rest = nodes.drop_last();
        assert forall|i: int| 0 <= i < rest.len() implies #[trigger]
            rest[i].inputs.dom().finite() by {
            assert(nodes[i].inputs.dom().finite());
        }
        lemma_subscriptions_listed(rest);
        let last = nodes.last();
        let f = |name: Seq<char>| last.inputs[name].reference()->0;
        let own = last.inputs.dom().map(f);
        assert(nodes[nodes.len() - 1].inputs.dom().finite());
        last.inputs.dom().lemma_map_finite(f);
        assert(all.dom().subset_of(subscriptions(rest).dom().union(own))) by {
            assert forall|t: Seq<char>| all.dom().contains(t) implies subscriptions(
                rest,
            ).dom().union(own).contains(t) by {
                assert(subscribes(nodes, t));
                let (i, name) = choose|i: int, name: Seq<char>|
                    0 <= i < nodes.len() && #[trigger] input_subscribes(nodes[i], name, t);
                if i < rest.len() {
                    assert(rest[i] == nodes[i]);
                    assert(input_subscribes(rest[i], name, t));
                    assert(subscribes(rest, t));
                } else {
                    assert(last.inputs.dom().contains(name));
                    assert(f(name) == t);
                    assert(own.contains(t));
                }
            }
        }
        vstd::set_lib::lemma_set_subset_finite(subscriptions(rest).dom().union(own), all.dom());
    }
    lemma_keys_listed(all);
}

/// Every edge of the dataflow starts at an output that some node of the
/// dataflow has.
#[verifier::rlimit(40)]
pub proof fn every_input_is_fed(
    flow: FlowView,
    site: SiteView,
    bag: Option<Map<Seq<char>, TopicView>>,
    d: int,
    name: Seq<char>,
)
    requires
        flow.well_formed(),
        flow_error(flow, site, bag) is None,
        0 <= d < dataflow_of(flow, site, bag).len(),
        dataflow_of(flow, site, bag)[d].inputs.contains_key(name),
    ensures
        fed(dataflow_of(flow, site, bag), dataflow_of(flow, site, bag)[d].inputs[name].source),
{
    let all = dataflow_of(flow, site, bag);
    let n = flow.nodes.len() as int;
    let source = all[d].inputs[name].source;
    lemma_positions(flow, site, bag);
    lemma_slash_result();
    preflight_passes_exactly_valid_flows(flow, site, bag);
    assert(fed(all, done_input().source)) by {
        assert(all[n + 1].outputs[0] == "done"@);
        lemma_concat(REPORT_ID@, "/"@, "done"@);
        assert(done_input().source == all[n + 1].id + "/"@ + all[n + 1].outputs[0]);
    }
    if d == 0 {
    } else if d <= n {
        let node = flow.nodes[d - 1];
        assert(all[d - 1 + 1] == user_node(site.flow_dir, flow.default_queue, node));
        if node.inputs.contains_key(name) {
            let r = node.inputs[name].reference()->0;
            assert(valid_input(flow.nodes, bag, name, node.inputs[name]));
            if is_topic(r) {
                let topics = subscriptions(flow.nodes);
                assert(input_subscribes(flow.nodes[d - 1], name, r));
                assert(subscribes(flow.nodes, r));
                assert(topics.contains_key(r));
                lemma_subscriptions_listed(flow.nodes);
                let keys = ordered_keys(topics);
                assert(keys.contains(r));
                let o = choose|o: int| 0 <= o < keys.len() && keys[o] == r;
                assert(all[0].outputs[o] == output_of_topic(r));
                assert(source == all[0].id + "/"@ + all[0].outputs[o]);
            } else {
                let (m, k) = choose|m: int, k: int|
                    0 <= m < flow.nodes.len() && 0 <= k < flow.nodes[m].outputs.len()
                        && !flow.nodes[m].id.contains('/') && r == flow.nodes[m].id + "/"@
                        + #[trigger] flow.nodes[m].outputs[k];
                assert(all[m + 1] == user_node(site.flow_dir, flow.default_queue, flow.nodes[m]));
                assert(all[m + 1].outputs[k] == flow.nodes[m].outputs[k]);
                assert(source == all[m + 1].id + "/"@ + all[m + 1].outputs[k]);
            }
        }
    } else {
        lemma_report_inputs(flow.nodes);
        if name == result_name(SOURCE_ID@) && report_inputs(flow.nodes)[name] == result_edge(
            SOURCE_ID@,
        ) {
            let o = all[0].outputs.len() - 1;
            assert(all[0].outputs[o] == "result"@);
            lemma_concat(SOURCE_ID@, "/"@, "result"@);
            assert(source == all[0].id + "/"@ + all[0].outputs[o]);
        } else {
            let i = choose|i: int|
                0 <= i < flow.nodes.len() && name == result_name(#[trigger] flow.nodes[i].id)
                    && report_inputs(flow.nodes)[name] == result_edge(flow.nodes[i].id);
            assert(all[i + 1] == user_node(site.flow_dir, flow.default_queue, flow.nodes[i]));
            let o = all[i + 1].outputs.len() - 1;
            assert(all[i + 1].outputs[o] == "result"@);
            lemma_concat(flow.nodes[i].id, "/"@, "result"@);
            assert(source == all[i + 1].id + "/"@ + all[i + 1].outputs[o]);
        }
    }
}

/// No two nodes of the dataflow have the same id.
pub proof fn node_ids_are_distinct(
    flow: FlowView,
    site: SiteView,
    bag: Option<Map<Seq<char>, TopicView>>,
    i: int,
    j: int,
)
    requires
        flow_error(flow, site, bag) is None,
        0 <= i < j < dataflow_of(flow, site, bag).len(),
    ensures
        dataflow_of(flow, site, bag)[i].id != dataflow_of(flow, site, bag)[j].id,
{
    let all = dataflow_of(flow, site, bag);
    let n = flow.nodes.len() as int;
    lemma_positions(flow, site, bag);
    lemma_ids_valid(flow.nodes);
    lemma_reserved_ids();
    if 0 < i {
        assert(all[i - 1 + 1] == user_node(site.flow_dir, flow.default_queue, flow.nodes[i - 1]));
        assert(!"bagflow"@.is_prefix_of(flow.nodes[i - 1].id));
    }
    if j <= n {
        assert(all[j - 1 + 1] == user_node(site.flow_dir, flow.default_queue, flow.nodes[j - 1]));
        assert(!"bagflow"@.is_prefix_of(flow.nodes[j - 1].id));
        if 0 < i {
            assert(flow.nodes[i - 1].id != flow.nodes[j - 1].id);
        }
    }
}

proof fn lemma_reserved_ids()
    ensures
        "bagflow"@.is_prefix_of(SOURCE_ID@),
        "bagflow"@.is_prefix_of(REPORT_ID@),
        SOURCE_ID@ != REPORT_ID@,
{
    reveal_strlit("bagflow");
    reveal_strlit("bagflow_source");
    reveal_strlit("bagflow_report");
    assert("bagflow"@ =~= "bagflow_source"@.subrange(0, 7));
    assert("bagflow"@ =~= "bagflow_report"@.subrange(0, 7));
    assert("bagflow_source"@[8] != "bagflow_report"@[8]);
}

/// How a dataflow comes to its end: the source and every node of the flow send
/// a result, the report gets each of them and nothing else, and what the
/// report sends when it has them all reaches the source and every node.
#[verifier::rlimit(40)]
pub proof fn results_reach_the_report_and_done_comes_back(
    flow: FlowView,
    site: SiteView,
    bag: Option<Map<Seq<char>, TopicView>>,
)
    requires
        flow_error(flow, site, bag) is None,
        flow.well_formed(),
    ensures
        ({
            let all = dataflow_of(flow, site, bag);
            let report = all.last();
            &&& all.len() == flow.nodes.len() + 2
            &&& report.id == REPORT_ID@
            &&& report.outputs == seq!["done"@]
            &&& forall|i: int|
                0 <= i < all.len() - 1 ==> {
                    &&& (#[trigger] all[i]).outputs.last() == "result"@
                    &&& all[i].inputs.contains_key("done"@)
                    &&& all[i].inputs["done"@].source == report.id + "/"@ + report.outputs[0]
                    &&& report.inputs.contains_key(result_name(all[i].id))
                    &&& report.inputs[result_name(all[i].id)].source == all[i].id + "/"@
                        + all[i].outputs.last()
                }
            &&& forall|k: Seq<char>| #[trigger]
                report.inputs.contains_key(k) ==> exists|i: int|
                    0 <= i < all.len() - 1 && k == result_name((#[trigger] all[i]).id)
        }),
{
    let all = dataflow_of(flow, site, bag);
    let n = flow.nodes.len() as int;
    let report = all.last();
    lemma_positions(flow, site, bag);
    lemma_slash_result();
    lemma_reserved_ids();
    lemma_report_inputs(flow.nodes);
    preflight_passes_exactly_valid_flows(flow, site, bag);
    assert(report == all[n + 1]);
    assert(done_input().source == report.id + "/"@ + report.outputs[0]) by {
        lemma_concat(REPORT_ID@, "/"@, "done"@);
    }
    assert forall|i: int| 0 <= i < all.len() - 1 implies {
        &&& (#[trigger] all[i]).outputs.last() == "result"@
        &&& all[i].inputs.contains_key("done"@)
        &&& all[i].inputs["done"@].source == report.id + "/"@ + report.outputs[0]
        &&& report.inputs.contains_key(result_name(all[i].id))
        &&& report.inputs[result_name(all[i].id)].source == all[i].id + "/"@
            + all[i].outputs.last()
    } by {
        let key = result_name(all[i].id);
        if i > 0 {
            let node = flow.nodes[i - 1];
            assert(all[i - 1 + 1] == user_node(site.flow_dir, flow.default_queue, node));
            assert(!node.inputs.contains_key("done"@)) by {
                if node.inputs.contains_key("done"@) {
                    assert(valid_input(flow.nodes, bag, "done"@, node.inputs["done"@]));
                }
            }
            assert(report_inputs(flow.nodes).contains_key(result_name(flow.nodes[i - 1].id)));
        }
        lemma_concat(all[i].id, "/"@, "result"@);
        lemma_result_names_differ(all[i].id, SOURCE_ID@);
        if report.inputs[key] != result_edge(all[i].id) {
            let a = choose|a: int|
                0 <= a < n && key == result_name(#[trigger] flow.nodes[a].id)
                    && report.inputs[key] == result_edge(flow.nodes[a].id);
            lemma_result_names_differ(all[i].id, flow.nodes[a].id);
            assert(false);
        }
    }
    assert forall|k: Seq<char>| #[trigger] report.inputs.contains_key(k) implies exists|i: int|
        0 <= i < all.len() - 1 && k == result_name((#[trigger] all[i]).id) by {
        if k == result_name(SOURCE_ID@) {
            assert(k == result_name(all[0].id));
        } else {
            let a = choose|a: int|
                0 <= a < n && k == result_name(#[trigger] flow.nodes[a].id) && report.inputs[k]
                    == result_edge(flow.nodes[a].id);
            assert(all[a + 1] == user_node(site.flow_dir, flow.default_queue, flow.nodes[a]));
            assert(k == result_name(all[a + 1].id));
        }
    }
}

proof fn lemma_result_names_differ(a: Seq<char>, b: Seq<char>)
    ensures
        result_name(a) == result_name(b) ==> a == b,
{
    if result_name(a) == result_name(b) {
        let p = "result_"@;
        assert(a =~= (p + a).skip(p.len() as int));
        assert(b =~= (p + b).skip(p.len() as int));
    }
}

/// Where the topics of the bag are known, every topic that a passed flow
/// subscribes to is one of them, and the plan says how many messages it has.
pub proof fn subscribed_topics_are_in_the_bag(
    flow: FlowView,
    site: SiteView,
    topics: Map<Seq<char>, TopicView>,
    t: Seq<char>,
)
    requires
        flow.well_formed(),
        flow_error(flow, site, Some(topics)) is None,
        subscribes(flow.nodes, t),
    ensures
        topics.contains_key(t),
        plan_of(flow, site, Some(topics)).topics.contains((t, Some(topics[t].count))),
{
    let bag = Some(topics);
    preflight_passes_exactly_valid_flows(flow, site, bag);
    let (i, name) = choose|i: int, name: Seq<char>|
        0 <= i < flow.nodes.len() && #[trigger] input_subscribes(flow.nodes[i], name, t);
    assert(flow.nodes[i].inputs.contains_key(name));
    assert(valid_input(flow.nodes, bag, name, flow.nodes[i].inputs[name]));
    lemma_subscriptions_listed(flow.nodes);
    let keys = ordered_keys(subscriptions(flow.nodes));
    assert(subscriptions(flow.nodes).contains_key(t));
    assert(keys.contains(t));
    let o = choose|o: int| 0 <= o < keys.len() && keys[o] == t;
    assert(plan_of(flow, site, bag).topics[o] == (t, count_of(bag, t)));
}

/// The source reads each topic once, however many inputs share it: it has one
/// output for each topic and one for its result.
pub proof fn source_has_one_output_for_each_topic(flow: FlowView, site: SiteView)
    requires
        flow.well_formed(),
    ensures
        source_node(flow, site).outputs.len() == subscriptions(flow.nodes).dom().len() + 1,
        forall|t: Seq<char>| #[trigger]
            subscribes(flow.nodes, t) ==> source_node(flow, site).outputs.contains(
                output_of_topic(t),
            ),
{
    let topics = subscriptions(flow.nodes);
    lemma_subscriptions_listed(flow.nodes);
    let keys = ordered_keys(topics);
    lemma_key_count(topics);
    assert forall|t: Seq<char>| #[trigger] subscribes(flow.nodes, t) implies source_node(
        flow,
        site,
    ).outputs.contains(output_of_topic(t)) by {
        assert(topics.contains_key(t));
        assert(keys.contains(t));
        let o = choose|o: int| 0 <= o < keys.len() && keys[o] == t;
        assert(source_node(flow, site).outputs[o] == output_of_topic(t));
    }
}

pub proof fn lemma_wiring_has(nodes: Seq<FlowNodeView>, i: int)
    requires
        0 <= i < nodes.len(),
        forall|a: int, b: int|
            0 <= a < b < nodes.len() ==> #[trigger] nodes[a].id != #[trigger] nodes[b].id,
    ensures
        wiring(nodes).contains_key(nodes[i].id) <==> !nodes[i].inputs.is_empty(),
        !nodes[i].inputs.is_empty() ==> wiring(nodes)[nodes[i].id] == node_wiring(nodes[i]),
    decreases nodes.len(),
{
    let rest = nodes.drop_last();
    assert forall|a: int, b: int| 0 <= a < b < rest.len() implies #[trigger] rest[a].id
        != #[trigger] rest[b].id by {
        assert(nodes[a].id != nodes[b].id);
    }
    if i < rest.len() {
        lemma_wiring_has(rest, i);
        assert(nodes[i].id != nodes[nodes.len() - 1].id);
    } else {
        lemma_wiring_lacks(rest, nodes[i].id);
    }
}

pub proof fn lemma_wiring_lacks(nodes: Seq<FlowNodeView>, id: Seq<char>)
    requires
        forall|a: int| 0 <= a < nodes.len() ==> #[trigger] nodes[a].id != id,
    ensures
        !wiring(nodes).contains_key(id),
    decreases nodes.len(),
{
    if nodes.len() > 0 {
        assert(nodes[nodes.len() - 1].id != id);
        lemma_wiring_lacks(nodes.drop_last(), id);
    }
}

/// The report knows every edge of a passed flow: what it is told of a node's
/// inputs is what each of them refers to.
pub proof fn report_knows_every_edge(
    flow: FlowView,
    site: SiteView,
    bag: Option<Map<Seq<char>, TopicView>>,
    i: int,
    name: Seq<char>,
)
    requires
        flow.well_formed(),
        flow_error(flow, site, bag) is None,
        0 <= i < flow.nodes.len(),
        flow.nodes[i].inputs.contains_key(name),
    ensures
        wiring(flow.nodes).contains_key(flow.nodes[i].id),
        wiring(flow.nodes)[flow.nodes[i].id].contains_key(name),
        flow.nodes[i].inputs[name].reference() == Some(
            wiring(flow.nodes)[flow.nodes[i].id][name],
        ),
{
    preflight_passes_exactly_valid_flows(flow, site, bag);
    assert(valid_input(flow.nodes, bag, name, flow.nodes[i].inputs[name]));
    assert(flow.nodes[i].inputs.dom().contains(name));
    lemma_wiring_has(flow.nodes, i);
}

/// The batch sizes that a flow sets are those that its source reads from its
/// environment; where the flow sets none, the source's own defaults hold.
#[verifier::rlimit(40)]
pub proof fn batch_sizes_reach_the_source(
    flow: FlowView,
    site: SiteView,
    default_rows: usize,
    default_bytes: usize,
)
    ensures
        ({
            let env = source_node(flow, site).env;
            &&& setting_value(env.get("BAGFLOW_BATCH_ROWS"@), default_rows) == match flow.batch_rows {
                Some(n) => n,
                None => default_rows,
            }
            &&& setting_value(env.get("BAGFLOW_BATCH_BYTES"@), default_bytes)
                == match flow.batch_bytes {
                Some(n) => n,
                None => default_bytes,
            }
        }),
{
    reveal_strlit("BAGFLOW_TOPICS");
    reveal_strlit("BAGFLOW_BAG");
    reveal_strlit("BAGFLOW_BATCH_ROWS");
    reveal_strlit("BAGFLOW_BATCH_BYTES");
    assert("BAGFLOW_BAG"@.len() == 11);
    assert("BAGFLOW_TOPICS"@.len() == 14);
    assert("BAGFLOW_BATCH_ROWS"@.len() == 18);
    assert("BAGFLOW_BATCH_BYTES"@.len() == 19);
    if let Some(n) = flow.batch_rows {
        decimal_reads_back(n);
    }
    if let Some(n) = flow.batch_bytes {
        decimal_reads_back(n);
    }
}

proof fn lemma_replaced_has_no_slash(s: Seq<char>)
    ensures
        !slashes_replaced(s).contains('/'),
        slashes_replaced(s).len() >= s.len(),
    decreases s.len(),
{
    if s.len() > 0 {
        let front = slashes_replaced(s.drop_last());
        let whole = slashes_replaced(s);
        lemma_replaced_has_no_slash(s.drop_last());
        if whole.contains('/') {
            let i = choose|i: int| 0 <= i < whole.len() && whole[i] == '/';
            if i < front.len() {
                assert(front[i] == '/');
                assert(front.contains('/'));
            }
        }
    }
}

/// The output of a topic is a plain name: it is not empty and has no slash, so
/// an edge from the source is cut into source and output at its only slash.
pub proof fn topic_outputs_are_plain_names(topic: Seq<char>)
    ensures
        output_of_topic(topic).len() > 0,
        !output_of_topic(topic).contains('/'),
        is_topic(topic) ==> cut_at_first(source_of(topic), '/') == Some(
            (SOURCE_ID@, output_of_topic(topic)),
        ),
{
    reveal_strlit("_root");
    reveal_strlit("bagflow_source");
    lemma_replaced_has_no_slash(without_leading(topic, '/'));
    assert(!"_root"@.contains('/'));
    assert(!SOURCE_ID@.contains('/'));
    if is_topic(topic) {
        lemma_cut(source_of(topic), SOURCE_ID@, output_of_topic(topic));
    }
}

/// A topic name of the usual form: one leading slash, something behind it, and
/// neither two slashes nor two underscores nor one of each side by side.
pub open spec fn usual_topic(topic: Seq<char>) -> bool {
    &&& topic.len() > 1
    &&& topic[0] == '/'
    &&& forall|i: int|
        0 <= i < topic.len() - 1 ==> !(is_joint(#[trigger] topic[i]) && is_joint(topic[i + 1]))
}

/// A slash or an underscore.
pub open spec fn is_joint(c: char) -> bool {
    c == '/' || c == '_'
}

spec fn no_joints_meet(s: Seq<char>) -> bool {
    forall|i: int| 0 <= i < s.len() - 1 ==> !(is_joint(#[trigger] s[i]) && is_joint(s[i + 1]))
}

proof fn lemma_replaced_end(s: Seq<char>)
    requires
        s.len() > 0,
        no_joints_meet(s),
    ensures
        slashes_replaced(s).len() > 0,
        is_joint(s.last()) <==> slashes_replaced(s).last() == '_',
        s.last() == '/' <==> slashes_replaced(s).len() > 1 && slashes_replaced(s).last() == '_'
            && slashes_replaced(s)[slashes_replaced(s).len() - 2] == '_',
{
    let front = s.drop_last();
    let out = slashes_replaced(s);
    if s.last() != '/' && front.len() > 0 {
        lemma_replaced_has_no_slash(front);
        if s.last() == '_' {
            assert(front.last() == s[s.len() - 2]);
            assert(!is_joint(s[s.len() - 2]));
            assert(slashes_replaced(front).last() == front.last());
            assert(out[out.len() - 2] == front.last());
        }
    } else if s.last() != '/' {
        assert(slashes_replaced(front).len() == 0);
    }
}

proof fn lemma_replaced_injective(s: Seq<char>, t: Seq<char>)
    requires
        no_joints_meet(s),
        no_joints_meet(t),
        slashes_replaced(s) == slashes_replaced(t),
    ensures
        s == t,
    decreases s.len(),
{
    if s.len() == 0 || t.len() == 0 {
        lemma_replaced_has_no_slash(s);
        lemma_replaced_has_no_slash(t);
        assert(s =~= t);
    } else {
        lemma_replaced_end(s);
        lemma_replaced_end(t);
        let a = s.drop_last();
        let b = t.drop_last();
        let out = slashes_replaced(s);
        assert(no_joints_meet(a)) by {
            assert forall|i: int| 0 <= i < a.len() - 1 implies !(is_joint(#[trigger] a[i])
                && is_joint(a[i + 1])) by {
                assert(a[i] == s[i] && a[i + 1] == s[i + 1]);
            }
        }
        assert(no_joints_meet(b)) by {
            assert forall|i: int| 0 <= i < b.len() - 1 implies !(is_joint(#[trigger] b[i])
                && is_joint(b[i + 1])) by {
                assert(b[i] == t[i] && b[i + 1] == t[i + 1]);
            }
        }
        if s.last() == '/' {
            assert(slashes_replaced(a) =~= out.take(out.len() - 2));
            assert(slashes_replaced(b) =~= out.take(out.len() - 2));
        } else {
            assert(slashes_replaced(a) =~= out.drop_last());
            assert(slashes_replaced(b) =~= out.drop_last());
            assert(s.last() == out.last());
            assert(t.last() == out.last());
        }
        lemma_replaced_injective(a, b);
        assert(s =~= a.push(s.last()));
        assert(t =~= b.push(t.last()));
    }
}

/// Two topics of the usual form have two outputs. (`/a__b` and `/a/b`, of
/// which the first has not the usual form, share one.)
pub proof fn usual_topics_have_outputs_of_their_own(s: Seq<char>, t: Seq<char>)
    requires
        usual_topic(s),
        usual_topic(t),
        output_of_topic(s) == output_of_topic(t),
    ensures
        s == t,
{
    lemma_usual(s);
    lemma_usual(t);
    lemma_replaced_injective(s.drop_first(), t.drop_first());
    assert(s =~= seq!['/'] + s.drop_first());
    assert(t =~= seq!['/'] + t.drop_first());
}

proof fn lemma_usual(s: Seq<char>)
    requires
        usual_topic(s),
    ensures
        no_joints_meet(s.drop_first()),
        output_of_topic(s) == slashes_replaced(s.drop_first()),
{
    let body = s.drop_first();
    assert(!(is_joint(s[0]) && is_joint(s[0int + 1])));
    assert(body[0] != '/');
    assert(without_leading(s, '/') == without_leading(body, '/'));
    assert(without_leading(body, '/') == body);
    lemma_replaced_has_no_slash(body);
    assert forall|i: int| 0 <= i < body.len() - 1 implies !(is_joint(#[trigger] body[i])
        && is_joint(body[i + 1])) by {
        assert(body[i] == s[i + 1] && body[i + 1] == s[i + 1 + 1]);
    }
}

/// Whatever it has sent, a source that has the topics of its flow ends every
/// output that the dataflow gives it, each once and in order.
pub proof fn the_source_ends_the_outputs_that_it_has(
    flow: FlowView,
    site: SiteView,
    counts: Map<Seq<char>, u64>,
)
    ensures
        ended_outputs(closing(subscriptions(flow.nodes), counts)) == source_node(
            flow,
            site,
        ).outputs,
{
    every_output_of_the_source_ends_once(subscriptions(flow.nodes), counts);
}

/// The queue of an input holds as many messages as the input says, else as its
/// node says, else as the flow says, else 256.
pub proof fn the_nearest_queue_size_counts(
    flow: FlowView,
    site: SiteView,
    bag: Option<Map<Seq<char>, TopicView>>,
    i: int,
    name: Seq<char>,
)
    requires
        0 <= i < flow.nodes.len(),
        flow.nodes[i].inputs.contains_key(name),
    ensures
        dataflow_of(flow, site, bag)[i + 1].inputs[name].queue_size == match (
            flow.nodes[i].inputs[name].queue_size(),
            flow.nodes[i].queue_size,
            flow.default_queue,
        ) {
            (Some(n), _, _) => n,
            (None, Some(n), _) => n,
            (None, None, Some(n)) => n,
            (None, None, None) => 256,
        },
{
    assert(dataflow_of(flow, site, bag)[i + 1] == user_node(
        site.flow_dir,
        flow.default_queue,
        flow.nodes[i],
    ));
}

/// The files that a run writes are what its dataflow looks for. The report
/// node runs the report program. The directory that comes first in the Python
/// path of every node holds the package that Python nodes import.
pub proof fn generated_files_are_where_the_dataflow_looks(
    flow: FlowView,
    site: SiteView,
    bag: Option<Map<Seq<char>, TopicView>>,
    disk: Map<Seq<char>, Seq<char>>,
    helper: Seq<char>,
    report: Seq<char>,
    dataflow: Seq<char>,
    i: int,
)
    requires
        0 <= i < flow.nodes.len(),
    ensures
        ({
            let plan = plan_of(flow, site, bag);
            let after = written(disk, generated(plan, helper, report, dataflow));
            let pylib = path_in(plan.workdir, "pylib"@);
            let path = plan.nodes[i + 1].env["PYTHONPATH"@];
            &&& after.contains_pair(plan.nodes.last().path, report)
            &&& after.contains_pair(path_in(pylib, "bagflow/__init__.py"@), helper)
            &&& after.contains_pair(dataflow_place(plan), dataflow)
            &&& pylib.is_prefix_of(path)
            &&& pylib.len() < path.len() ==> path[pylib.len() as int] == ':'
        }),
{
    reveal_strlit(":");
    let plan = plan_of(flow, site, bag);
    assert(plan.nodes[i + 1] == user_node(site.flow_dir, flow.default_queue, flow.nodes[i]));
    let pylib = path_in(plan.workdir, "pylib"@);
    let path = plan.nodes[i + 1].env["PYTHONPATH"@];
    assert(path.subrange(0, pylib.len() as int) =~= pylib);
    lemma_written(disk, plan, helper, report, dataflow);
}

/// Replacing the bag and the report of a flow changes where its source reads,
/// where its report goes, and nothing else of its dataflow.
#[verifier::rlimit(40)]
pub proof fn redirecting_changes_bag_and_report_alone(
    flow: FlowView,
    site: SiteView,
    bag: Option<Map<Seq<char>, TopicView>>,
    other_bag: Seq<char>,
    other_report: Seq<char>,
)
    ensures
        ({
            let other = FlowView { bag: other_bag, report: other_report, ..flow };
            let before = dataflow_of(flow, site, bag);
            let after = dataflow_of(other, site, bag);
            let last = before.len() - 1;
            &&& after.len() == before.len()
            &&& forall|d: int| 0 < d < last ==> #[trigger] after[d] == before[d]
            &&& after[0] == DoraNodeView {
                env: before[0].env.insert("BAGFLOW_BAG"@, path_in(site.flow_dir, other_bag)),
                ..before[0]
            }
            &&& after[last] == DoraNodeView {
                env: before[last].env.insert(
                    "BAGFLOW_REPORT"@,
                    path_in(site.flow_dir, other_report),
                ),
                ..before[last]
            }
        }),
{
    let other = FlowView { bag: other_bag, report: other_report, ..flow };
    let before = dataflow_of(flow, site, bag);
    let after = dataflow_of(other, site, bag);
    let last = before.len() - 1;
    lemma_redirected_source(flow, other, site);
    lemma_redirected_report(flow, other, site, bag);
    assert(before[0] == source_node(flow, site) && after[0] == source_node(other, site));
    assert(before[last] == report_node(flow, site, bag));
    assert(after[last] == report_node(other, site, bag));
}

#[verifier::rlimit(40)]
proof fn lemma_redirected_source(flow: FlowView, other: FlowView, site: SiteView)
    requires
        other == (FlowView { bag: other.bag, report: other.report, ..flow }),
    ensures
        source_node(other, site) == (DoraNodeView {
            env: source_node(flow, site).env.insert(
                "BAGFLOW_BAG"@,
                path_in(site.flow_dir, other.bag),
            ),
            ..source_node(flow, site)
        }),
{
    lemma_env_names();
    assert(source_node(other, site).env =~= source_node(flow, site).env.insert(
        "BAGFLOW_BAG"@,
        path_in(site.flow_dir, other.bag),
    ));
}

#[verifier::rlimit(40)]
proof fn lemma_redirected_report(
    flow: FlowView,
    other: FlowView,
    site: SiteView,
    bag: Option<Map<Seq<char>, TopicView>>,
)
    requires
        other == (FlowView { bag: other.bag, report: other.report, ..flow }),
    ensures
        report_node(other, site, bag) == (DoraNodeView {
            env: report_node(flow, site, bag).env.insert(
                "BAGFLOW_REPORT"@,
                path_in(site.flow_dir, other.report),
            ),
            ..report_node(flow, site, bag)
        }),
{
    lemma_env_names();
    assert(report_node(other, site, bag).env =~= report_node(flow, site, bag).env.insert(
        "BAGFLOW_REPORT"@,
        path_in(site.flow_dir, other.report),
    ));
}

/// The names of the variables that the source and the report read are
/// different.
#[verifier::rlimit(40)]
proof fn lemma_env_names()
    ensures
        "BAGFLOW_BAG"@ != "BAGFLOW_TOPICS"@,
        "BAGFLOW_BAG"@ != "BAGFLOW_BATCH_ROWS"@,
        "BAGFLOW_BAG"@ != "BAGFLOW_BATCH_BYTES"@,
        "BAGFLOW_REPORT"@ != "BAGFLOW_EXPECTED"@,
        "BAGFLOW_REPORT"@ != "BAGFLOW_WIRING"@,
        "BAGFLOW_REPORT"@ != "BAGFLOW_BAGINFO"@,
        "BAGFLOW_REPORT"@ != "BAGFLOW_INPUTS"@,
{
    reveal_strlit("BAGFLOW_BAG");
    reveal_strlit("BAGFLOW_TOPICS");
    reveal_strlit("BAGFLOW_BATCH_ROWS");
    reveal_strlit("BAGFLOW_BATCH_BYTES");
    reveal_strlit("BAGFLOW_REPORT");
    reveal_strlit("BAGFLOW_EXPECTED");
    reveal_strlit("BAGFLOW_WIRING");
    reveal_strlit("BAGFLOW_BAGINFO");
    reveal_strlit("BAGFLOW_INPUTS");
    assert("BAGFLOW_BAG"@.len() == 11);
    assert("BAGFLOW_TOPICS"@.len() == 14);
    assert("BAGFLOW_BATCH_ROWS"@.len() == 18);
    assert("BAGFLOW_BATCH_BYTES"@.len() == 19);
    assert("BAGFLOW_REPORT"@[8] == 'R');
    assert("BAGFLOW_EXPECTED"@[8] == 'E');
    assert("BAGFLOW_WIRING"@[8] == 'W');
    assert("BAGFLOW_BAGINFO"@[8] == 'B');
    assert("BAGFLOW_INPUTS"@[8] == 'I');
}

/// `a` and `b` are the same nodes, in whatever order.
pub open spec fn same_nodes(a: Seq<FlowNodeView>, b: Seq<FlowNodeView>) -> bool {
    a.to_multiset() == b.to_multiset()
}

spec fn distinct_ids(nodes: Seq<FlowNodeView>) -> bool {
    forall|i: int, j: int|
        0 <= i < j < nodes.len() ==> #[trigger] nodes[i].id != #[trigger] nodes[j].id
}

/// Where node `i` of `a` stands in `b`.
proof fn lemma_node_place(a: Seq<FlowNodeView>, b: Seq<FlowNodeView>, i: int) -> (j: int)
    requires
        same_nodes(a, b),
        0 <= i < a.len(),
    ensures
        0 <= j < b.len(),
        b[j] == a[i],
{
    vstd::seq_lib::to_multiset_contains(a, a[i]);
    vstd::seq_lib::to_multiset_contains(b, a[i]);
    assert(a.contains(a[i]));
    choose|j: int| 0 <= j < b.len() && b[j] == a[i]
}

proof fn lemma_distinct_kept(a: Seq<FlowNodeView>, b: Seq<FlowNodeView>)
    requires
        same_nodes(a, b),
        distinct_ids(a),
    ensures
        distinct_ids(b),
{
    assert(a.no_duplicates()) by {
        assert forall|i: int, j: int| 0 <= i < a.len() && 0 <= j < a.len() && i != j implies a[i]
            != a[j] by {
            if i < j {
                assert(a[i].id != a[j].id);
            } else {
                assert(a[j].id != a[i].id);
            }
        }
    }
    a.lemma_multiset_has_no_duplicates();
    b.lemma_multiset_has_no_duplicates_conv();
    assert forall|i: int, j: int| 0 <= i < j < b.len() implies #[trigger] b[i].id
        != #[trigger] b[j].id by {
        let m = lemma_node_place(b, a, i);
        let n = lemma_node_place(b, a, j);
        assert(b[i] != b[j]);
        if m < n {
            assert(a[m].id != a[n].id);
        } else if n < m {
            assert(a[n].id != a[m].id);
        }
    }
}

proof fn lemma_subscriptions_kept(a: Seq<FlowNodeView>, b: Seq<FlowNodeView>)
    requires
        same_nodes(a, b),
    ensures
        subscriptions(a) == subscriptions(b),
{
    assert forall|t: Seq<char>| #[trigger] subscribes(a, t) <==> subscribes(b, t) by {
        if subscribes(a, t) {
            let (i, name) = choose|i: int, name: Seq<char>|
                0 <= i < a.len() && #[trigger] input_subscribes(a[i], name, t);
            let j = lemma_node_place(a, b, i);
            assert(input_subscribes(b[j], name, t));
        }
        if subscribes(b, t) {
            let (i, name) = choose|i: int, name: Seq<char>|
                0 <= i < b.len() && #[trigger] input_subscribes(b[i], name, t);
            let j = lemma_node_place(b, a, i);
            assert(input_subscribes(a[j], name, t));
        }
    }
    assert(subscriptions(a) =~= subscriptions(b));
}

proof fn lemma_resolves_kept(a: Seq<FlowNodeView>, b: Seq<FlowNodeView>, reference: Seq<char>)
    requires
        same_nodes(a, b),
        resolves(a, reference),
    ensures
        resolves(b, reference),
{
    let (m, k) = choose|m: int, k: int|
        0 <= m < a.len() && 0 <= k < a[m].outputs.len() && !a[m].id.contains('/') && reference
            == a[m].id + "/"@ + #[trigger] a[m].outputs[k];
    let j = lemma_node_place(a, b, m);
    assert(reference == b[j].id + "/"@ + b[j].outputs[k]);
}

#[verifier::rlimit(40)]
proof fn lemma_validity_kept(
    flow: FlowView,
    other: FlowView,
    site: SiteView,
    bag: Option<Map<Seq<char>, TopicView>>,
)
    requires
        same_nodes(flow.nodes, other.nodes),
        valid_flow(flow, site, bag),
    ensures
        valid_flow(other, site, bag),
{
    let (a, b) = (flow.nodes, other.nodes);
    lemma_distinct_kept(a, b);
    assert forall|i: int| 0 <= i < b.len() implies !"bagflow"@.is_prefix_of(
        #[trigger] b[i].id,
    ) by {
        let j = lemma_node_place(b, a, i);
        assert(!"bagflow"@.is_prefix_of(a[j].id));
    }
    assert forall|i: int, name: Seq<char>|
        0 <= i < b.len() && #[trigger] b[i].inputs.contains_key(name) implies valid_input(
        b,
        bag,
        name,
        b[i].inputs[name],
    ) by {
        let j = lemma_node_place(b, a, i);
        assert(a[j].inputs.contains_key(name));
        assert(valid_input(a, bag, name, a[j].inputs[name]));
        let r = a[j].inputs[name].reference()->0;
        if !is_topic(r) {
            lemma_resolves_kept(a, b, r);
        }
    }
    let t = choose|t: Seq<char>| #[trigger] subscribes(a, t);
    lemma_subscriptions_kept(a, b);
    assert(subscriptions(a).contains_key(t));
    assert(subscribes(b, t));
}

proof fn lemma_wiring_kept(a: Seq<FlowNodeView>, b: Seq<FlowNodeView>)
    requires
        same_nodes(a, b),
        distinct_ids(a),
        distinct_ids(b),
    ensures
        wiring(a) == wiring(b),
{
    assert forall|k: Seq<char>|
        (#[trigger] wiring(a).contains_key(k) <==> wiring(b).contains_key(k)) && (wiring(
            a,
        ).contains_key(k) ==> wiring(a)[k] == wiring(b)[k]) by {
        if exists|i: int| 0 <= i < a.len() && #[trigger] a[i].id == k {
            let i = choose|i: int| 0 <= i < a.len() && #[trigger] a[i].id == k;
            let j = lemma_node_place(a, b, i);
            lemma_wiring_has(a, i);
            lemma_wiring_has(b, j);
        } else {
            lemma_wiring_lacks(a, k);
            assert forall|j: int| 0 <= j < b.len() implies #[trigger] b[j].id != k by {
                let i = lemma_node_place(b, a, j);
                assert(a[i].id != k);
            }
            lemma_wiring_lacks(b, k);
        }
    }
    assert(wiring(a) =~= wiring(b));
}

/// Every input of the report from the nodes `a` is one from the nodes `b`.
#[verifier::rlimit(40)]
proof fn lemma_report_inputs_within(a: Seq<FlowNodeView>, b: Seq<FlowNodeView>, k: Seq<char>)
    requires
        same_nodes(a, b),
        report_inputs(a).contains_key(k),
    ensures
        report_inputs(b).contains_key(k),
        report_inputs(b)[k] == report_inputs(a)[k],
{
    lemma_report_inputs(a);
    lemma_report_inputs(b);
    let id = if k == result_name(SOURCE_ID@) && report_inputs(a)[k] == result_edge(SOURCE_ID@) {
        SOURCE_ID@
    } else {
        let i = choose|i: int|
            0 <= i < a.len() && k == result_name(#[trigger] a[i].id) && report_inputs(a)[k]
                == result_edge(a[i].id);
        let j = lemma_node_place(a, b, i);
        assert(b[j].id == a[i].id);
        a[i].id
    };
    assert(report_inputs(b).contains_key(k));
    let other = if k == result_name(SOURCE_ID@) && report_inputs(b)[k] == result_edge(
        SOURCE_ID@,
    ) {
        SOURCE_ID@
    } else {
        let i = choose|i: int|
            0 <= i < b.len() && k == result_name(#[trigger] b[i].id) && report_inputs(b)[k]
                == result_edge(b[i].id);
        b[i].id
    };
    lemma_result_names_differ(id, other);
}

proof fn lemma_report_inputs_kept(a: Seq<FlowNodeView>, b: Seq<FlowNodeView>)
    requires
        same_nodes(a, b),
    ensures
        report_inputs(a) == report_inputs(b),
{
    assert forall|k: Seq<char>|
        (#[trigger] report_inputs(a).contains_key(k) <==> report_inputs(b).contains_key(k)) && (
        report_inputs(a).contains_key(k) ==> report_inputs(a)[k] == report_inputs(b)[k]) by {
        if report_inputs(a).contains_key(k) {
            lemma_report_inputs_within(a, b, k);
        }
        if report_inputs(b).contains_key(k) {
            lemma_report_inputs_within(b, a, k);
        }
    }
    assert(report_inputs(a) =~= report_inputs(b));
}

proof fn lemma_dataflow_within(
    flow: FlowView,
    other: FlowView,
    site: SiteView,
    bag: Option<Map<Seq<char>, TopicView>>,
    d: DoraNodeView,
)
    requires
        other == (FlowView { nodes: other.nodes, ..flow }),
        same_nodes(flow.nodes, other.nodes),
        source_node(flow, site) == source_node(other, site),
        report_node(flow, site, bag) == report_node(other, site, bag),
        dataflow_of(flow, site, bag).contains(d),
    ensures
        dataflow_of(other, site, bag).contains(d),
{
    lemma_positions(flow, site, bag);
    lemma_positions(other, site, bag);
    let all = dataflow_of(flow, site, bag);
    let there = dataflow_of(other, site, bag);
    let n = flow.nodes.len() as int;
    let at = choose|at: int| 0 <= at < all.len() && all[at] == d;
    if at == 0 {
        assert(there[0] == d);
    } else if at == n + 1 {
        assert(there[other.nodes.len() as int + 1] == d);
    } else {
        assert(all[(at - 1) + 1] == user_node(site.flow_dir, flow.default_queue, flow.nodes[at - 1]));
        let j = lemma_node_place(flow.nodes, other.nodes, at - 1);
        assert(there[j + 1] == d);
    }
}

/// The order in which a flow lists its nodes does not matter: the flow passes
/// or fails in any order, and where it passes its dataflow has the same nodes
/// and its plan the same topics.
#[verifier::rlimit(40)]
pub proof fn the_order_of_nodes_does_not_matter(
    flow: FlowView,
    nodes: Seq<FlowNodeView>,
    site: SiteView,
    bag: Option<Map<Seq<char>, TopicView>>,
)
    requires
        flow.well_formed(),
        same_nodes(flow.nodes, nodes),
    ensures
        ({
            let other = FlowView { nodes, ..flow };
            let before = plan_of(flow, site, bag);
            let after = plan_of(other, site, bag);
            &&& flow_error(flow, site, bag) is None <==> flow_error(other, site, bag) is None
            &&& flow_error(flow, site, bag) is None ==> {
                &&& before.nodes.len() == after.nodes.len()
                &&& before.nodes[0] == after.nodes[0]
                &&& before.nodes.last() == after.nodes.last()
                &&& forall|d: DoraNodeView|
                    #![trigger before.nodes.contains(d)]
                    #![trigger after.nodes.contains(d)]
                    before.nodes.contains(d) <==> after.nodes.contains(d)
                &&& before.topics == after.topics
            }
        }),
{
    let other = FlowView { nodes, ..flow };
    assert(other.well_formed()) by {
        assert forall|i: int| 0 <= i < nodes.len() implies #[trigger]
            nodes[i].inputs.dom().finite() by {
            let j = lemma_node_place(nodes, flow.nodes, i);
            assert(flow.nodes[j].inputs.dom().finite());
        }
    }
    preflight_passes_exactly_valid_flows(flow, site, bag);
    preflight_passes_exactly_valid_flows(other, site, bag);
    if valid_flow(other, site, bag) {
        lemma_validity_kept(other, flow, site, bag);
    }
    if valid_flow(flow, site, bag) {
        lemma_validity_kept(flow, other, site, bag);
        lemma_subscriptions_kept(flow.nodes, nodes);
        lemma_wiring_kept(flow.nodes, nodes);
        lemma_report_inputs_kept(flow.nodes, nodes);
        vstd::seq_lib::to_multiset_len(flow.nodes);
        vstd::seq_lib::to_multiset_len(nodes);
        lemma_positions(flow, site, bag);
        lemma_positions(other, site, bag);
        let before = plan_of(flow, site, bag);
        let after = plan_of(other, site, bag);
        assert forall|d: DoraNodeView|
            #![trigger before.nodes.contains(d)]
            #![trigger after.nodes.contains(d)]
            before.nodes.contains(d) <==> after.nodes.contains(d) by {
            if before.nodes.contains(d) {
                lemma_dataflow_within(flow, other, site, bag, d);
            }
            if after.nodes.contains(d) {
                lemma_dataflow_within(other, flow, site, bag, d);
            }
        }
    }
}

} // verus!

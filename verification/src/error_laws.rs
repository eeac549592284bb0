//! What is told of a flow that does not pass.
use crate::check::{
    first_id_error, first_input_error, first_wiring_error, id_error, ids, input_error,
    node_reference_error, topic_line, topic_lines, TopicView,
};
use crate::dataflow_laws::written_as;
use crate::error::{PreflightError, PreflightErrorView};
use crate::flow::{FlowNodeView, FlowView};
use crate::laws::{lemma_ids_valid, lemma_resolves, valid_input};
use crate::paths::path_in;
use crate::plan::{flow_error, subscribes, SiteView};
use crate::text::{
    a_text_is_cut_at_its_first_mark, cut_at_first, joined, lemma_lt_asymmetric,
    sorting_keeps_texts_and_orders_them, text_lt,
};
use crate::text_map::{lemma_keys_listed, ordered_keys};
use vstd::prelude::*;

verus! {

/// The ids of the nodes before `n` are free and distinct.
pub open spec fn ids_are_fine(nodes: Seq<FlowNodeView>, n: int) -> bool {
    &&& forall|a: int| 0 <= a < n ==> !"bagflow"@.is_prefix_of(#[trigger] nodes[a].id)
    &&& forall|a: int, b: int|
        0 <= a < b < n ==> #[trigger] nodes[a].id != #[trigger] nodes[b].id
}

/// All inputs of the nodes before node `i` are valid, and those of node `i` that
/// come before `name`.
pub open spec fn inputs_are_fine_before(
    nodes: Seq<FlowNodeView>,
    bag: Option<Map<Seq<char>, TopicView>>,
    i: int,
    name: Seq<char>,
) -> bool {
    &&& forall|a: int, k: Seq<char>|
        0 <= a < i && #[trigger] nodes[a].inputs.contains_key(k) ==> valid_input(
            nodes,
            bag,
            k,
            nodes[a].inputs[k],
        )
    &&& forall|k: Seq<char>| #[trigger]
        nodes[i].inputs.contains_key(k) && text_lt(k, name) ==> valid_input(
            nodes,
            bag,
            k,
            nodes[i].inputs[k],
        )
}

/// `e` tells what is wrong with input `name` of node `n`.
pub open spec fn tells_fault(
    nodes: Seq<FlowNodeView>,
    bag: Option<Map<Seq<char>, TopicView>>,
    n: FlowNodeView,
    name: Seq<char>,
    e: PreflightErrorView,
) -> bool {
    match e {
        PreflightErrorView::ReservedInput { input, node } => {
            &&& input == name
            &&& node == n.id
            &&& name == "done"@ || name == "result"@
        },
        PreflightErrorView::TopicOrNode => forall|r: Seq<char>|
            !#[trigger] written_as(n.inputs[name], r),
        PreflightErrorView::TopicNotInBag { topic, node, input, available } => {
            &&& input == name
            &&& node == n.id
            &&& written_as(n.inputs[name], topic)
            &&& topic.len() > 0 && topic[0] == '/'
            &&& bag is Some && !bag->0.contains_key(topic)
            &&& available.to_multiset() == ordered_keys(bag->0).map_values(
                |k: Seq<char>| topic_line(k, bag->0[k]),
            ).to_multiset()
            &&& forall|a: int, b: int|
                0 <= a < b < available.len() ==> available[a] == available[b] || #[trigger] text_lt(
                    available[a],
                    available[b],
                )
        },
        PreflightErrorView::BadReference { reference } => {
            &&& written_as(n.inputs[name], reference)
            &&& !reference.contains('/')
        },
        PreflightErrorView::UnknownNode { node, by } => {
            &&& by == n.id
            &&& !node.contains('/')
            &&& exists|output: Seq<char>| #[trigger]
                written_as(n.inputs[name], node + seq!['/'] + output)
            &&& forall|m: int| 0 <= m < nodes.len() ==> #[trigger] nodes[m].id != node
        },
        PreflightErrorView::NoSuchOutput { node, output, by } => {
            &&& by == n.id
            &&& !node.contains('/')
            &&& written_as(n.inputs[name], node + seq!['/'] + output)
            &&& exists|m: int|
                0 <= m < nodes.len() && #[trigger] nodes[m].id == node && !nodes[m].outputs.contains(
                    output,
                )
        },
        _ => false,
    }
}

/// What is told of a flow that does not pass is true, and is the first thing
/// that is wrong: first whether the bag is there, then the ids of the nodes in
/// their order, then the inputs of the nodes in theirs, then whether any topic
/// is subscribed to.
#[verifier::rlimit(40)]
pub proof fn the_first_fault_of_a_flow_is_told(
    flow: FlowView,
    site: SiteView,
    bag: Option<Map<Seq<char>, TopicView>>,
    e: PreflightErrorView,
)
    requires
        flow.well_formed(),
        flow_error(flow, site, bag) == Some(e),
    ensures
        site.bag_found <==> !(e is BagNotFound),
        match e {
            PreflightErrorView::BagNotFound { bag: told } => told == path_in(
                site.flow_dir,
                flow.bag,
            ),
            PreflightErrorView::ReservedNode { node } => exists|i: int|
                0 <= i < flow.nodes.len() && #[trigger] flow.nodes[i].id == node
                    && "bagflow"@.is_prefix_of(node) && ids_are_fine(flow.nodes, i),
            PreflightErrorView::DuplicateNode { node } => exists|a: int, i: int|
                0 <= a < i < flow.nodes.len() && #[trigger] flow.nodes[a].id == node
                    && #[trigger] flow.nodes[i].id == node && !"bagflow"@.is_prefix_of(node)
                    && ids_are_fine(flow.nodes, i),
            PreflightErrorView::NoTopics => {
                &&& ids_are_fine(flow.nodes, flow.nodes.len() as int)
                &&& forall|i: int, name: Seq<char>|
                    0 <= i < flow.nodes.len() && #[trigger] flow.nodes[i].inputs.contains_key(name)
                        ==> valid_input(flow.nodes, bag, name, flow.nodes[i].inputs[name])
                &&& forall|t: Seq<char>| !#[trigger] subscribes(flow.nodes, t)
            },
            _ => {
                &&& ids_are_fine(flow.nodes, flow.nodes.len() as int)
                &&& exists|i: int, name: Seq<char>|
                    0 <= i < flow.nodes.len() && #[trigger] flow.nodes[i].inputs.contains_key(name)
                        && tells_fault(flow.nodes, bag, flow.nodes[i], name, e)
                        && inputs_are_fine_before(flow.nodes, bag, i, name)
            },
        },
{
    let nodes = flow.nodes;
    if !site.bag_found {
    } else if first_id_error(nodes, 0) is Some {
        let i = lemma_first_id(nodes, 0);
        lemma_ids_fine_before(nodes, i);
        if "bagflow"@.is_prefix_of(nodes[i].id) {
            assert(nodes[i].id == nodes[i].id && ids_are_fine(nodes, i));
        } else {
            let before = ids(nodes).take(i);
            let a = choose|a: int| 0 <= a < before.len() && before[a] == nodes[i].id;
            assert(nodes[a].id == nodes[i].id);
        }
    } else {
        lemma_ids_valid(nodes);
        if first_wiring_error(nodes, bag, 0) is Some {
            let (i, j) = lemma_first_wiring(nodes, bag, 0);
            let keys = ordered_keys(nodes[i].inputs);
            lemma_keys_listed(nodes[i].inputs);
            let name = keys[j];
            assert(keys.contains(name));
            assert(nodes[i].inputs.contains_key(name));
            lemma_tells(nodes, bag, nodes[i], name);
            assert forall|a: int, k: Seq<char>|
                0 <= a < i && #[trigger] nodes[a].inputs.contains_key(k) implies valid_input(
                nodes,
                bag,
                k,
                nodes[a].inputs[k],
            ) by {
                let there = ordered_keys(nodes[a].inputs);
                assert(flow.nodes[a].inputs.dom().finite());
                lemma_keys_listed(nodes[a].inputs);
                assert(there.contains(k));
                let b = choose|b: int| 0 <= b < there.len() && there[b] == k;
                assert(input_error(nodes, bag, nodes[a], ordered_keys(nodes[a].inputs)[b]) is None);
                lemma_input_valid(nodes, bag, nodes[a], k);
            }
            assert forall|k: Seq<char>| #[trigger]
                nodes[i].inputs.contains_key(k) && text_lt(k, name) implies valid_input(
                nodes,
                bag,
                k,
                nodes[i].inputs[k],
            ) by {
                assert(keys.contains(k));
                let b = choose|b: int| 0 <= b < keys.len() && keys[b] == k;
                lemma_lt_asymmetric(k, name);
                if j < b {
                    assert(text_lt(keys[j], keys[b]));
                }
                assert(input_error(nodes, bag, nodes[i], ordered_keys(nodes[i].inputs)[b]) is None);
                lemma_input_valid(nodes, bag, nodes[i], k);
            }
        } else {
            assert forall|i: int, name: Seq<char>|
                0 <= i < nodes.len() && #[trigger] nodes[i].inputs.contains_key(
                    name,
                ) implies valid_input(nodes, bag, name, nodes[i].inputs[name]) by {
                let there = ordered_keys(nodes[i].inputs);
                assert(flow.nodes[i].inputs.dom().finite());
                lemma_keys_listed(nodes[i].inputs);
                assert(there.contains(name));
                let b = choose|b: int| 0 <= b < there.len() && there[b] == name;
                crate::check::lemma_no_wiring_error(nodes, bag, 0);
                assert(input_error(nodes, bag, nodes[i], ordered_keys(nodes[i].inputs)[b]) is None);
                lemma_input_valid(nodes, bag, nodes[i], name);
            }
        }
    }
}

/// The first node from `from` on whose id is wrong.
proof fn lemma_first_id(nodes: Seq<FlowNodeView>, from: int) -> (i: int)
    requires
        0 <= from,
        first_id_error(nodes, from) is Some,
    ensures
        from <= i < nodes.len(),
        id_error(nodes, i) == first_id_error(nodes, from),
        forall|a: int| from <= a < i ==> #[trigger] id_error(nodes, a) is None,
    decreases nodes.len() - from,
{
    if id_error(nodes, from) is Some {
        from
    } else {
        lemma_first_id(nodes, from + 1)
    }
}

proof fn lemma_ids_fine_before(nodes: Seq<FlowNodeView>, n: int)
    requires
        0 <= n <= nodes.len(),
        forall|a: int| 0 <= a < n ==> #[trigger] id_error(nodes, a) is None,
    ensures
        ids_are_fine(nodes, n),
{
    assert forall|a: int| 0 <= a < n implies !"bagflow"@.is_prefix_of(#[trigger] nodes[a].id) by {
        assert(id_error(nodes, a) is None);
    }
    assert forall|a: int, b: int| 0 <= a < b < n implies #[trigger] nodes[a].id
        != #[trigger] nodes[b].id by {
        assert(id_error(nodes, b) is None);
        assert(ids(nodes).take(b)[a] == nodes[a].id);
        assert(ids(nodes).take(b).contains(nodes[a].id));
    }
}

/// The first input of `n` from `from` on that is wrong.
proof fn lemma_first_input(
    nodes: Seq<FlowNodeView>,
    bag: Option<Map<Seq<char>, TopicView>>,
    n: FlowNodeView,
    from: int,
) -> (j: int)
    requires
        0 <= from,
        first_input_error(nodes, bag, n, from) is Some,
    ensures
        from <= j < ordered_keys(n.inputs).len(),
        input_error(nodes, bag, n, ordered_keys(n.inputs)[j]) == first_input_error(
            nodes,
            bag,
            n,
            from,
        ),
        forall|b: int|
            from <= b < j ==> #[trigger] input_error(
                nodes,
                bag,
                n,
                ordered_keys(n.inputs)[b],
            ) is None,
    decreases ordered_keys(n.inputs).len() - from,
{
    if input_error(nodes, bag, n, ordered_keys(n.inputs)[from]) is Some {
        from
    } else {
        lemma_first_input(nodes, bag, n, from + 1)
    }
}

proof fn lemma_no_input_before(
    nodes: Seq<FlowNodeView>,
    bag: Option<Map<Seq<char>, TopicView>>,
    n: FlowNodeView,
    from: int,
)
    requires
        0 <= from,
        first_input_error(nodes, bag, n, from) is None,
    ensures
        forall|b: int|
            from <= b < ordered_keys(n.inputs).len() ==> #[trigger] input_error(
                nodes,
                bag,
                n,
                ordered_keys(n.inputs)[b],
            ) is None,
    decreases ordered_keys(n.inputs).len() - from,
{
    if from < ordered_keys(n.inputs).len() {
        lemma_no_input_before(nodes, bag, n, from + 1);
    }
}

/// The first input of the nodes from `from` on that is wrong.
proof fn lemma_first_wiring(
    nodes: Seq<FlowNodeView>,
    bag: Option<Map<Seq<char>, TopicView>>,
    from: int,
) -> (at: (int, int))
    requires
        0 <= from,
        first_wiring_error(nodes, bag, from) is Some,
    ensures
        from <= at.0 < nodes.len(),
        0 <= at.1 < ordered_keys(nodes[at.0].inputs).len(),
        input_error(nodes, bag, nodes[at.0], ordered_keys(nodes[at.0].inputs)[at.1])
            == first_wiring_error(nodes, bag, from),
        forall|b: int|
            0 <= b < at.1 ==> #[trigger] input_error(
                nodes,
                bag,
                nodes[at.0],
                ordered_keys(nodes[at.0].inputs)[b],
            ) is None,
        forall|a: int, b: int|
            from <= a < at.0 && 0 <= b < ordered_keys(nodes[a].inputs).len()
                ==> #[trigger] input_error(
                nodes,
                bag,
                nodes[a],
                ordered_keys(nodes[a].inputs)[b],
            ) is None,
    decreases nodes.len() - from,
{
    if first_input_error(nodes, bag, nodes[from], 0) is Some {
        (from, lemma_first_input(nodes, bag, nodes[from], 0))
    } else {
        lemma_no_input_before(nodes, bag, nodes[from], 0);
        lemma_first_wiring(nodes, bag, from + 1)
    }
}

proof fn lemma_input_valid(
    nodes: Seq<FlowNodeView>,
    bag: Option<Map<Seq<char>, TopicView>>,
    n: FlowNodeView,
    name: Seq<char>,
)
    requires
        ids_are_fine(nodes, nodes.len() as int),
        input_error(nodes, bag, n, name) is None,
    ensures
        valid_input(nodes, bag, name, n.inputs[name]),
{
    let r = n.inputs[name].reference()->0;
    lemma_resolves(nodes, n.id, r);
}

proof fn lemma_tells(
    nodes: Seq<FlowNodeView>,
    bag: Option<Map<Seq<char>, TopicView>>,
    n: FlowNodeView,
    name: Seq<char>,
)
    requires
        input_error(nodes, bag, n, name) is Some,
    ensures
        tells_fault(nodes, bag, n, name, input_error(nodes, bag, n, name)->0),
{
    let x = n.inputs[name];
    if name != "done"@ && name != "result"@ && x.reference() is Some {
        let r = x.reference()->0;
        assert(written_as(x, r));
        if r.len() > 0 && r[0] == '/' {
            let lines = ordered_keys(bag->0).map_values(|k: Seq<char>| topic_line(k, bag->0[k]));
            let available = topic_lines(bag->0);
            sorting_keeps_texts_and_orders_them(lines, 0, 0);
            assert forall|a: int, b: int| 0 <= a < b < available.len() implies available[a]
                == available[b] || #[trigger] text_lt(available[a], available[b]) by {
                sorting_keeps_texts_and_orders_them(lines, a, b);
            }
        } else {
            lemma_tells_reference(nodes, n.id, r);
        }
    }
}

proof fn lemma_tells_reference(nodes: Seq<FlowNodeView>, by: Seq<char>, r: Seq<char>)
    requires
        node_reference_error(nodes, by, r) is Some,
    ensures
        match node_reference_error(nodes, by, r)->0 {
            PreflightErrorView::BadReference { reference } => reference == r && !r.contains('/'),
            PreflightErrorView::UnknownNode { node, by: told } => {
                &&& told == by
                &&& !node.contains('/')
                &&& exists|output: Seq<char>| r == #[trigger] (node + seq!['/'] + output)
                &&& forall|m: int| 0 <= m < nodes.len() ==> #[trigger] nodes[m].id != node
            },
            PreflightErrorView::NoSuchOutput { node, output, by: told } => {
                &&& told == by
                &&& !node.contains('/')
                &&& r == node + seq!['/'] + output
                &&& exists|m: int|
                    0 <= m < nodes.len() && #[trigger] nodes[m].id == node
                        && !nodes[m].outputs.contains(output)
            },
            _ => false,
        },
{
    a_text_is_cut_at_its_first_mark(r, '/');
    match cut_at_first(r, '/') {
        None => {},
        Some((node, output)) => {
            let all = ids(nodes);
            all.index_of_first_ensures(node);
            assert(r == node + seq!['/'] + output);
            match all.index_of_first(node) {
                None => {
                    assert forall|m: int| 0 <= m < nodes.len() implies #[trigger] nodes[m].id
                        != node by {
                        assert(all[m] == nodes[m].id);
                        assert(all.contains(all[m]));
                    }
                },
                Some(m) => {
                    assert(nodes[m].id == node);
                },
            }
        },
    }
}

/// What is said of an error names what it is about.
pub proof fn an_error_names_what_it_is_about(
    a: Seq<char>,
    b: Seq<char>,
    c: Seq<char>,
    list: Seq<Seq<char>>,
)
    ensures
        (PreflightErrorView::BagNotFound { bag: a }).message() == "bag not found: "@ + a,
        (PreflightErrorView::ReservedNode { node: a }).message() == "node id `"@ + a
            + "` is reserved"@,
        (PreflightErrorView::DuplicateNode { node: a }).message() == "duplicate node id `"@ + a
            + "`"@,
        (PreflightErrorView::ReservedInput { input: a, node: b }).message() == "input name `"@ + a
            + "` is reserved (node `"@ + b + "`)"@,
        (PreflightErrorView::TopicNotInBag {
            topic: a,
            node: b,
            input: c,
            available: list,
        }).message() == "topic `"@ + a + "` (node `"@ + b + "`, input `"@ + c
            + "`) is not in the bag.\navailable topics:\n"@ + joined(list, "\n"@),
        (PreflightErrorView::BadReference { reference: a }).message() == "bad node reference `"@ + a
            + "` — expected `node_id/output`"@,
        (PreflightErrorView::UnknownNode { node: a, by: b }).message() == "unknown node `"@ + a
            + "` referenced by `"@ + b + "`"@,
        (PreflightErrorView::NoSuchOutput { node: a, output: b, by: c }).message() == "node `"@ + a
            + "` has no output `"@ + b + "` (referenced by `"@ + c + "`)"@,
{
}

/// The model of an error has the fields of the error.
pub proof fn the_model_of_an_error_is_the_error(error: PreflightError)
    ensures
        match error {
            PreflightError::BagNotFound { bag } => error@ == (PreflightErrorView::BagNotFound {
                bag: bag@,
            }),
            PreflightError::ReservedNode { node } => error@ == (PreflightErrorView::ReservedNode {
                node: node@,
            }),
            PreflightError::DuplicateNode { node } => error@
                == (PreflightErrorView::DuplicateNode { node: node@ }),
            PreflightError::ReservedInput { input, node } => error@
                == (PreflightErrorView::ReservedInput { input: input@, node: node@ }),
            PreflightError::TopicOrNode => error@ == PreflightErrorView::TopicOrNode,
            PreflightError::TopicNotInBag { topic, node, input, available } => {
                &&& error@ matches PreflightErrorView::TopicNotInBag {
                    topic: t,
                    node: n,
                    input: i,
                    available: a,
                }
                &&& t == topic@
                &&& n == node@
                &&& i == input@
                &&& a == available@.map_values(|s: String| s@)
            },
            PreflightError::BadReference { reference } => error@
                == (PreflightErrorView::BadReference { reference: reference@ }),
            PreflightError::UnknownNode { node, by } => error@ == (PreflightErrorView::UnknownNode {
                node: node@,
                by: by@,
            }),
            PreflightError::NoSuchOutput { node, output, by } => error@
                == (PreflightErrorView::NoSuchOutput { node: node@, output: output@, by: by@ }),
            PreflightError::NoTopics => error@ == PreflightErrorView::NoTopics,
        },
{
}

} // verus!

//! Preflight: checking a flow and building the dataflow that runs it.
use crate::check::{
    bag_topics, check_ids, check_wiring, first_wiring_error, input_error, lemma_no_wiring_error,
    opt_topics, refers_to_topic, MetaTopic, TopicInfo, TopicView,
};
use crate::dataflow::{DoraFlow, DoraInput, DoraNodeDef};
use crate::error::PreflightError;
use crate::flow::{
    node_views, output_of_topic, sanitize_topic, Flow, FlowInput, FlowInputView, FlowNode,
    FlowNodeView, FlowView,
};
use crate::json::{json_of_texts, texts_of_json, write_counts, write_text_maps, write_texts};
use crate::number::decimal_text;
use crate::paths::{abs, path_in};
use crate::plan::{
    count_of, dataflow_of, done_input, edge, expected_counts, flow_error, input_subscribes,
    known_topics, meta_topics, node_env, node_inputs, node_wiring, plan_of, pylib_of, queue_of,
    report_inputs, report_node, result_edge, result_name, source_node, source_outputs,
    subscribes, subscriptions, topic_counts, user_node, wiring, workdir_of, Plan, Site, SiteView,
    DEFAULT_QUEUE, DONE_QUEUE, REPORT_ID, SOURCE_ID,
};
use crate::text::{copy_texts, join_texts, joined, texts};
use crate::text_map::{
    copy_text_map, lemma_push_contains, lists_keys, ordered_keys, TextMap,
};
use vstd::prelude::*;

verus! {

/// Every input of every node refers to something.
spec fn references_set(nodes: Seq<FlowNodeView>) -> bool {
    forall|i: int, name: Seq<char>|
        0 <= i < nodes.len() && #[trigger] nodes[i].inputs.contains_key(name)
            ==> nodes[i].inputs[name].reference() is Some
}

#[verifier::rlimit(40)]
fn collect_subscriptions(nodes: &Vec<FlowNode>) -> (topics: TextMap<String>)
    requires
        references_set(node_views(nodes@)),
    ensures
        topics@ == subscriptions(node_views(nodes@)),
{
    let ghost views = node_views(nodes@);
    let mut topics: TextMap<String> = TextMap::new();
    let mut i: usize = 0;
    assert(topics@ =~= subscriptions(views.take(0)));
    while i < nodes.len()
        invariant
            i <= nodes.len(),
            views == node_views(nodes@),
            references_set(views),
            topics@ == subscriptions(views.take(i as int)),
        decreases nodes.len() - i,
    {
        let n = &nodes[i];
        assert(views[i as int] == n@);
        let ghost before = topics@;
        let count = n.inputs.len();
        let ghost keys = ordered_keys(n@.inputs);
        let mut j: usize = 0;
        while j < count
            invariant
                i < nodes.len(),
                views == node_views(nodes@),
                references_set(views),
                views[i as int] == n@,
                keys == ordered_keys(n@.inputs),
                lists_keys(keys, n@.inputs),
                j <= count,
                count == keys.len(),
                before == subscriptions(views.take(i as int)),
                forall|t: Seq<char>| #[trigger]
                    topics@.contains_key(t) <==> before.contains_key(t) || exists|b: int|
                        0 <= b < j && #[trigger] input_subscribes(n@, keys[b], t),
                forall|t: Seq<char>| #[trigger]
                    topics@.contains_key(t) ==> topics@[t] == output_of_topic(t),
            decreases count - j,
        {
            let ghost so_far = topics@;
            assert(keys.contains(keys[j as int]));
            assert(views[i as int].inputs.contains_key(keys[j as int]));
            let reference = reference_text(n.inputs.value_at(j));
            if refers_to_topic(reference.as_str()) {
                let output = sanitize_topic(reference.as_str());
                assert(input_subscribes(n@, keys[j as int], reference@));
                topics.insert(reference, output);
            }
            assert forall|t: Seq<char>| #[trigger]
                topics@.contains_key(t) <==> before.contains_key(t) || exists|b: int|
                    0 <= b < j + 1 && #[trigger] input_subscribes(n@, keys[b], t) by {
                if so_far.contains_key(t) && !before.contains_key(t) {
                    let b = choose|b: int| 0 <= b < j && #[trigger]
                        input_subscribes(n@, keys[b], t);
                    assert(0 <= b < j + 1 && input_subscribes(n@, keys[b], t));
                }
                if exists|b: int| 0 <= b < j + 1 && #[trigger] input_subscribes(n@, keys[b], t) {
                    let b = choose|b: int| 0 <= b < j + 1 && #[trigger]
                        input_subscribes(n@, keys[b], t);
                    if b < j {
                        assert(so_far.contains_key(t));
                    }
                }
            }
            j += 1;
        }
        proof {
            let taken = views.take(i as int);
            let longer = views.take(i + 1);
            assert(longer =~= taken.push(n@));
            assert forall|t: Seq<char>| #[trigger] topics@.contains_key(t) <==> subscribes(
                longer,
                t,
            ) by {
                if before.contains_key(t) {
                    assert(subscribes(taken, t));
                    let (a, name) = choose|a: int, name: Seq<char>|
                        0 <= a < taken.len() && #[trigger] input_subscribes(taken[a], name, t);
                    assert(longer[a] == taken[a]);
                    assert(input_subscribes(longer[a], name, t));
                }
                if topics@.contains_key(t) && !before.contains_key(t) {
                    let b = choose|b: int| 0 <= b < count && #[trigger]
                        input_subscribes(n@, keys[b], t);
                    assert(input_subscribes(longer[i as int], keys[b], t));
                }
                if subscribes(longer, t) {
                    let (a, name) = choose|a: int, name: Seq<char>|
                        0 <= a < longer.len() && #[trigger] input_subscribes(longer[a], name, t);
                    if a < i {
                        assert(longer[a] == taken[a]);
                        assert(input_subscribes(taken[a], name, t));
                        assert(subscribes(taken, t));
                        assert(before.contains_key(t));
                    } else {
                        assert(keys.contains(name));
                        let b = choose|b: int| 0 <= b < keys.len() && keys[b] == name;
                        assert(input_subscribes(n@, keys[b], t));
                    }
                }
            }
            assert(topics@ =~= subscriptions(longer));
        }
        i += 1;
    }
    assert(views.take(i as int) =~= views);
    topics
}

/// The reference of an input that has one.
fn reference_text(input: &FlowInput) -> (reference: String)
    requires
        input@.reference() is Some,
    ensures
        reference@ == input@.reference()->0,
{
    match input.reference() {
        Ok(r) => r.to_owned(),
        Err(_) => String::new(),
    }
}

fn collect_node_wiring(n: &FlowNode) -> (refs: TextMap<String>)
    requires
        references_set(seq![n@]),
    ensures
        refs@ == node_wiring(n@),
{
    let mut refs: TextMap<String> = TextMap::new();
    let count = n.inputs.len();
    let ghost keys = ordered_keys(n@.inputs);
    let mut j: usize = 0;
    while j < count
        invariant
            references_set(seq![n@]),
            keys == ordered_keys(n@.inputs),
            lists_keys(keys, n@.inputs),
            j <= count,
            count == keys.len(),
            forall|k: Seq<char>| #[trigger]
                refs@.contains_key(k) <==> keys.take(j as int).contains(k),
            forall|k: Seq<char>| #[trigger]
                refs@.contains_key(k) ==> refs@[k] == n@.inputs[k].reference()->0,
        decreases count - j,
    {
        assert(keys.contains(keys[j as int]));
        assert(seq![n@][0].inputs.contains_key(keys[j as int]));
        let ghost so_far = refs@;
        refs.insert(n.inputs.key_at(j).clone(), reference_text(n.inputs.value_at(j)));
        assert(keys.take(j + 1) =~= keys.take(j as int).push(keys[j as int]));
        assert forall|k: Seq<char>| #[trigger]
            refs@.contains_key(k) <==> keys.take(j + 1).contains(k) by {
            lemma_push_contains(keys.take(j as int), keys[j as int], k);
            assert(so_far.contains_key(k) <==> keys.take(j as int).contains(k));
        }
        j += 1;
    }
    proof {
        assert(keys.take(j as int) =~= keys);
        assert forall|k: Seq<char>| #[trigger]
            refs@.contains_key(k) <==> n@.inputs.contains_key(k) by {
            assert(keys.contains(k) <==> n@.inputs.contains_key(k));
        }
        assert(refs@ =~= node_wiring(n@));
    }
    refs
}

proof fn lemma_empty_inputs(n: FlowNodeView)
    requires
        lists_keys(ordered_keys(n.inputs), n.inputs),
    ensures
        n.inputs.is_empty() <==> ordered_keys(n.inputs).len() == 0,
{
    let keys = ordered_keys(n.inputs);
    if keys.len() > 0 {
        assert(keys.contains(keys[0]));
        assert(n.inputs.contains_key(keys[0]));
        if n.inputs.is_empty() {
            assert(n.inputs.dom().contains(keys[0]));
            assert(!Map::<Seq<char>, FlowInputView>::empty().dom().contains(keys[0]));
        }
    } else {
        assert forall|k: Seq<char>| !n.inputs.dom().contains(k) by {
            assert(!keys.contains(k));
            assert(!n.inputs.contains_key(k));
        }
        assert(n.inputs =~= Map::<Seq<char>, FlowInputView>::empty());
    }
}

fn collect_wiring(nodes: &Vec<FlowNode>) -> (refs: TextMap<TextMap<String>>)
    requires
        references_set(node_views(nodes@)),
    ensures
        refs@ == wiring(node_views(nodes@)),
{
    let ghost views = node_views(nodes@);
    let mut refs: TextMap<TextMap<String>> = TextMap::new();
    let mut i: usize = 0;
    while i < nodes.len()
        invariant
            i <= nodes.len(),
            views == node_views(nodes@),
            references_set(views),
            refs@ == wiring(views.take(i as int)),
        decreases nodes.len() - i,
    {
        let n = &nodes[i];
        assert(views[i as int] == n@);
        assert(views.take(i + 1).drop_last() =~= views.take(i as int));
        assert(views.take(i + 1).last() == n@);
        let count = n.inputs.len();
        proof {
            lemma_empty_inputs(n@);
        }
        if count > 0 {
            assert forall|a: int, name: Seq<char>|
                0 <= a < 1 && #[trigger] seq![n@][a].inputs.contains_key(name) implies seq![
                n@,
            ][a].inputs[name].reference() is Some by {
                assert(views[i as int].inputs.contains_key(name));
            }
            refs.insert(n.id.clone(), collect_node_wiring(n));
        }
        i += 1;
    }
    assert(views.take(i as int) =~= views);
    refs
}

fn make_done_input() -> (input: DoraInput)
    ensures
        input@ == done_input(),
{
    let mut source = REPORT_ID.to_owned();
    source.append("/done");
    DoraInput { source, queue_size: DONE_QUEUE }
}

/// The queue size of an input: its own, else its node's, else the flow's,
/// else the built-in one.
pub fn effective_queue(
    input: Option<usize>,
    node: Option<usize>,
    flow: Option<usize>,
) -> (n: usize)
    ensures
        n == queue_of(input, node, flow),
{
    match input {
        Some(n) => n,
        None => match node {
            Some(n) => n,
            None => match flow {
                Some(n) => n,
                None => DEFAULT_QUEUE,
            },
        },
    }
}

fn make_edge(default_queue: Option<usize>, n: &FlowNode, input: &FlowInput) -> (e: DoraInput)
    requires
        input@.reference() is Some,
    ensures
        e@ == edge(default_queue, n@, input@),
{
    let reference = reference_text(input);
    let queue_size = effective_queue(input.queue_size(), n.queue_size, default_queue);
    if refers_to_topic(reference.as_str()) {
        let mut source = SOURCE_ID.to_owned();
        source.append("/");
        source.append(sanitize_topic(reference.as_str()).as_str());
        DoraInput { source, queue_size }
    } else {
        DoraInput { source: reference, queue_size }
    }
}

fn make_node_inputs(default_queue: Option<usize>, n: &FlowNode) -> (inputs: TextMap<DoraInput>)
    requires
        references_set(seq![n@]),
    ensures
        inputs@ == node_inputs(default_queue, n@),
{
    let mut inputs: TextMap<DoraInput> = TextMap::new();
    inputs.insert("done".to_owned(), make_done_input());
    let count = n.inputs.len();
    let ghost keys = ordered_keys(n@.inputs);
    let ghost whole = node_inputs(default_queue, n@);
    let mut j: usize = 0;
    while j < count
        invariant
            references_set(seq![n@]),
            keys == ordered_keys(n@.inputs),
            lists_keys(keys, n@.inputs),
            whole == node_inputs(default_queue, n@),
            j <= count,
            count == keys.len(),
            forall|k: Seq<char>| #[trigger]
                inputs@.contains_key(k) <==> k == "done"@ || keys.take(j as int).contains(k),
            forall|k: Seq<char>| #[trigger]
                inputs@.contains_key(k) ==> inputs@[k] == if keys.take(j as int).contains(k) {
                    edge(default_queue, n@, n@.inputs[k])
                } else {
                    done_input()
                },
        decreases count - j,
    {
        assert(keys.contains(keys[j as int]));
        assert(seq![n@][0].inputs.contains_key(keys[j as int]));
        let ghost so_far = inputs@;
        let e = make_edge(default_queue, n, n.inputs.value_at(j));
        inputs.insert(n.inputs.key_at(j).clone(), e);
        assert(keys.take(j + 1) =~= keys.take(j as int).push(keys[j as int]));
        assert forall|k: Seq<char>| #[trigger] inputs@.contains_key(k) <==> k == "done"@
            || keys.take(j + 1).contains(k) by {
            lemma_push_contains(keys.take(j as int), keys[j as int], k);
            assert(so_far.contains_key(k) <==> k == "done"@ || keys.take(j as int).contains(k));
        }
        assert forall|k: Seq<char>| #[trigger] inputs@.contains_key(k) implies inputs@[k]
            == if keys.take(j + 1).contains(k) {
            edge(default_queue, n@, n@.inputs[k])
        } else {
            done_input()
        } by {
            lemma_push_contains(keys.take(j as int), keys[j as int], k);
            if k != keys[j as int] {
                assert(so_far.contains_key(k));
            }
        }
        j += 1;
    }
    proof {
        assert(keys.take(j as int) =~= keys);
        assert forall|k: Seq<char>| #[trigger]
            inputs@.contains_key(k) <==> whole.contains_key(k) by {
            assert(keys.contains(k) <==> n@.inputs.contains_key(k));
        }
        assert forall|k: Seq<char>| #[trigger] inputs@.contains_key(k) implies inputs@[k]
            == whole[k] by {
            assert(keys.contains(k) <==> n@.inputs.contains_key(k));
            assert(whole.contains_key(k));
        }
        assert(inputs@ =~= whole);
    }
    inputs
}

/// The keys of a map in ascending order, with commas between them.
fn join_keys<V: View>(map: &TextMap<V>) -> (line: String)
    ensures
        line@ == joined(ordered_keys(map@), ","@),
{
    let mut names: Vec<String> = Vec::new();
    let count = map.len();
    let ghost keys = ordered_keys(map@);
    let mut j: usize = 0;
    while j < count
        invariant
            j <= count,
            keys == ordered_keys(map@),
            count == keys.len(),
            texts(names@) =~= keys.take(j as int),
        decreases count - j,
    {
        let ghost so_far = texts(names@);
        names.push(map.key_at(j).clone());
        assert(texts(names@) =~= so_far.push(keys[j as int]));
        assert(keys.take(j + 1) =~= keys.take(j as int).push(keys[j as int]));
        j += 1;
    }
    assert(keys.take(j as int) =~= keys);
    join_texts(&names, ",")
}

/// Where generated files go.
pub fn workdir_path(flow_dir: &str) -> (path: String)
    ensures
        path@ == workdir_of(flow_dir@),
{
    abs(flow_dir, ".bagflow")
}

/// Where the Python side of the framework goes.
pub fn pylib_path(flow_dir: &str) -> (path: String)
    ensures
        path@ == pylib_of(flow_dir@),
{
    abs(workdir_path(flow_dir).as_str(), "pylib")
}

fn make_node_env(flow_dir: &String, n: &FlowNode) -> (env: TextMap<String>)
    ensures
        env@ == node_env(flow_dir@, n@),
{
    proof {
        reveal_strlit("BAGFLOW_INPUTS");
        reveal_strlit("BAGFLOW_OUTPUTS");
        reveal_strlit("BAGFLOW_NODE_ID");
        reveal_strlit("PYTHONPATH");
    }
    let mut env = copy_text_map(&n.env);
    env.insert("BAGFLOW_INPUTS".to_owned(), join_keys(&n.inputs));
    env.insert("BAGFLOW_OUTPUTS".to_owned(), join_texts(&n.outputs, ","));
    env.insert("BAGFLOW_NODE_ID".to_owned(), n.id.clone());
    let mut python_path = pylib_path(flow_dir.as_str());
    match n.env.get("PYTHONPATH") {
        Some(own) => {
            python_path.append(":");
            python_path.append(own.as_str());
        },
        None => {},
    }
    env.insert("PYTHONPATH".to_owned(), python_path);
    env
}

fn make_user_node(flow_dir: &String, default_queue: Option<usize>, n: &FlowNode) -> (def:
    DoraNodeDef)
    requires
        references_set(seq![n@]),
    ensures
        def@ == user_node(flow_dir@, default_queue, n@),
{
    let inputs = make_node_inputs(default_queue, n);
    let mut outputs = copy_texts(&n.outputs);
    let ghost own = texts(outputs@);
    outputs.push("result".to_owned());
    assert(texts(outputs@) =~= own.push("result"@));
    DoraNodeDef {
        id: n.id.clone(),
        path: abs(flow_dir.as_str(), n.path.as_str()),
        inputs,
        outputs,
        env: make_node_env(flow_dir, n),
    }
}

fn make_source_outputs(topics: &TextMap<String>) -> (outputs: Vec<String>)
    ensures
        texts(outputs@) == source_outputs(topics@),
{
    let mut outputs: Vec<String> = Vec::new();
    let count = topics.len();
    let ghost pick = |t: Seq<char>| topics@[t];
    let ghost all = ordered_keys(topics@).map_values(pick);
    let mut j: usize = 0;
    while j < count
        invariant
            j <= count,
            count == ordered_keys(topics@).len(),
            pick == (|t: Seq<char>| topics@[t]),
            all == ordered_keys(topics@).map_values(pick),
            texts(outputs@) =~= all.take(j as int),
        decreases count - j,
    {
        let ghost so_far = texts(outputs@);
        outputs.push(topics.value_at(j).clone());
        assert(texts(outputs@) =~= so_far.push(all[j as int]));
        assert(all.take(j + 1) =~= all.take(j as int).push(all[j as int]));
        j += 1;
    }
    assert(all.take(j as int) =~= all);
    outputs.push("result".to_owned());
    assert(texts(outputs@) =~= all.push("result"@));
    outputs
}

#[verifier::rlimit(40)]
fn make_source_node(
    flow: &Flow,
    site: &Site,
    topics: &TextMap<String>,
) -> (def: DoraNodeDef)
    requires
        topics@ == subscriptions(flow@.nodes),
    ensures
        def@ == source_node(flow@, site@),
        texts_of_json(json_of_texts(topics@)) == Some(topics@),
{
    let mut inputs: TextMap<DoraInput> = TextMap::new();
    inputs.insert("done".to_owned(), make_done_input());
    assert(inputs@ =~= map!["done"@ => done_input()]);
    let bag = abs(site.flow_dir.as_str(), flow.bag.as_str());
    let mut env: TextMap<String> = TextMap::new();
    env.insert("BAGFLOW_BAG".to_owned(), bag);
    env.insert("BAGFLOW_TOPICS".to_owned(), write_texts(topics));
    assert(env@ =~= map![
        "BAGFLOW_BAG"@ => path_in(site@.flow_dir, flow@.bag),
        "BAGFLOW_TOPICS"@ => json_of_texts(topics@)
    ]);
    match flow.source.batch_rows {
        Some(n) => env.insert("BAGFLOW_BATCH_ROWS".to_owned(), decimal_text(n as u64)),
        None => {},
    }
    match flow.source.batch_bytes {
        Some(n) => env.insert("BAGFLOW_BATCH_BYTES".to_owned(), decimal_text(n as u64)),
        None => {},
    }
    DoraNodeDef {
        id: SOURCE_ID.to_owned(),
        path: abs(site.exe_dir.as_str(), "bagflow-source"),
        inputs,
        outputs: make_source_outputs(topics),
        env,
    }
}

fn make_result_edge(id: &str) -> (e: DoraInput)
    ensures
        e@ == result_edge(id@),
{
    let mut source = id.to_owned();
    source.append("/result");
    DoraInput { source, queue_size: DEFAULT_QUEUE }
}

fn make_result_name(id: &str) -> (name: String)
    ensures
        name@ == result_name(id@),
{
    let mut name = "result_".to_owned();
    name.append(id);
    name
}

fn make_report_inputs(nodes: &Vec<FlowNode>) -> (inputs: TextMap<DoraInput>)
    ensures
        inputs@ == report_inputs(node_views(nodes@)),
{
    let ghost views = node_views(nodes@);
    let mut inputs: TextMap<DoraInput> = TextMap::new();
    inputs.insert(make_result_name(SOURCE_ID), make_result_edge(SOURCE_ID));
    assert(inputs@ =~= report_inputs(views.take(0)));
    let mut i: usize = 0;
    while i < nodes.len()
        invariant
            i <= nodes.len(),
            views == node_views(nodes@),
            inputs@ == report_inputs(views.take(i as int)),
        decreases nodes.len() - i,
    {
        assert(views.take(i + 1).drop_last() =~= views.take(i as int));
        assert(views.take(i + 1).last() == nodes@[i as int]@);
        let id = nodes[i].id.as_str();
        inputs.insert(make_result_name(id), make_result_edge(id));
        i += 1;
    }
    assert(views.take(i as int) =~= views);
    inputs
}

fn make_expected(bag: Option<&TextMap<TopicInfo>>) -> (counts: TextMap<u64>)
    ensures
        counts@ == expected_counts(known_topics(opt_topics(bag))),
{
    let mut counts: TextMap<u64> = TextMap::new();
    let ghost whole = expected_counts(known_topics(opt_topics(bag)));
    match bag {
        None => {
            assert(counts@ =~= whole);
        },
        Some(b) => {
            let n = b.len();
            let ghost keys = ordered_keys(b@);
            let mut i: usize = 0;
            while i < n
                invariant
                    i <= n,
                    n == keys.len(),
                    keys == ordered_keys(b@),
                    lists_keys(keys, b@),
                    forall|k: Seq<char>| #[trigger]
                        counts@.contains_key(k) <==> keys.take(i as int).contains(k),
                    forall|k: Seq<char>| #[trigger]
                        counts@.contains_key(k) ==> counts@[k] == b@[k].count,
                decreases n - i,
            {
                let ghost so_far = counts@;
                counts.insert(b.key_at(i).clone(), b.value_at(i).count);
                assert(keys.take(i + 1) =~= keys.take(i as int).push(keys[i as int]));
                assert forall|k: Seq<char>| #[trigger]
                    counts@.contains_key(k) <==> keys.take(i + 1).contains(k) by {
                    lemma_push_contains(keys.take(i as int), keys[i as int], k);
                    assert(so_far.contains_key(k) <==> keys.take(i as int).contains(k));
                }
                i += 1;
            }
            proof {
                assert(keys.take(i as int) =~= keys);
                assert forall|k: Seq<char>| #[trigger]
                    counts@.contains_key(k) <==> b@.contains_key(k) by {
                    assert(keys.contains(k) <==> b@.contains_key(k));
                }
                assert(counts@ =~= whole);
            }
        },
    }
    counts
}

#[verifier::rlimit(40)]
fn make_report_node(
    flow: &Flow,
    site: &Site,
    bag: Option<&TextMap<TopicInfo>>,
) -> (def: DoraNodeDef)
    requires
        references_set(flow@.nodes),
    ensures
        def@ == report_node(flow@, site@, opt_topics(bag)),
{
    let inputs = make_report_inputs(&flow.nodes);
    let mut env: TextMap<String> = TextMap::new();
    env.insert(
        "BAGFLOW_REPORT".to_owned(),
        abs(site.flow_dir.as_str(), flow.report.as_str()),
    );
    env.insert("BAGFLOW_EXPECTED".to_owned(), write_counts(&make_expected(bag)));
    env.insert("BAGFLOW_WIRING".to_owned(), write_text_maps(&collect_wiring(&flow.nodes)));
    env.insert("BAGFLOW_BAGINFO".to_owned(), site.bag_info.clone());
    env.insert("BAGFLOW_INPUTS".to_owned(), join_keys(&inputs));
    let mut outputs: Vec<String> = Vec::new();
    outputs.push("done".to_owned());
    assert(texts(outputs@) =~= seq!["done"@]);
    let def = DoraNodeDef {
        id: REPORT_ID.to_owned(),
        path: abs(pylib_path(site.flow_dir.as_str()).as_str(), "report.py"),
        inputs,
        outputs,
        env,
    };
    assert(def@.env =~= report_node(flow@, site@, opt_topics(bag)).env);
    def
}

fn make_topics(topics: &TextMap<String>, bag: Option<&TextMap<TopicInfo>>) -> (list: Vec<
    (String, Option<u64>),
>)
    ensures
        topic_counts(list@) == ordered_keys(topics@).map_values(
            |t: Seq<char>| (t, count_of(opt_topics(bag), t)),
        ),
{
    let mut list: Vec<(String, Option<u64>)> = Vec::new();
    let n = topics.len();
    let ghost pick = |t: Seq<char>| (t, count_of(opt_topics(bag), t));
    let ghost all = ordered_keys(topics@).map_values(pick);
    let mut i: usize = 0;
    while i < n
        invariant
            i <= n,
            n == ordered_keys(topics@).len(),
            pick == (|t: Seq<char>| (t, count_of(opt_topics(bag), t))),
            all == ordered_keys(topics@).map_values(pick),
            topic_counts(list@) =~= all.take(i as int),
        decreases n - i,
    {
        let ghost so_far = topic_counts(list@);
        let topic = topics.key_at(i);
        let count = match bag {
            Some(b) => match b.get(topic.as_str()) {
                Some(info) => Some(info.count),
                None => None,
            },
            None => None,
        };
        list.push((topic.clone(), count));
        assert(topic_counts(list@) =~= so_far.push(all[i as int]));
        assert(all.take(i + 1) =~= all.take(i as int).push(all[i as int]));
        i += 1;
    }
    assert(all.take(i as int) =~= all);
    list
}

proof fn lemma_references_set(nodes: Seq<FlowNode>, bag: Option<Map<Seq<char>, TopicView>>)
    requires
        first_wiring_error(node_views(nodes), bag, 0) is None,
        forall|i: int|
            0 <= i < nodes.len() ==> lists_keys(
                ordered_keys(#[trigger] node_views(nodes)[i].inputs),
                node_views(nodes)[i].inputs,
            ),
    ensures
        references_set(node_views(nodes)),
{
    let views = node_views(nodes);
    lemma_no_wiring_error(views, bag, 0);
    assert forall|i: int, name: Seq<char>|
        0 <= i < views.len() && #[trigger] views[i].inputs.contains_key(
            name,
        ) implies views[i].inputs[name].reference() is Some by {
        let keys = ordered_keys(views[i].inputs);
        assert(lists_keys(keys, views[i].inputs));
        assert(keys.contains(name));
        let j = choose|j: int| 0 <= j < keys.len() && keys[j] == name;
        assert(input_error(views, bag, views[i], ordered_keys(views[i].inputs)[j]) is None);
    }
}

/// The source is given its topics as one JSON text.
#[verifier::rlimit(40)]
pub proof fn lemma_topics_text(flow: FlowView, site: SiteView)
    ensures
        source_node(flow, site).env.contains_key("BAGFLOW_TOPICS"@),
        source_node(flow, site).env["BAGFLOW_TOPICS"@] == json_of_texts(
            subscriptions(flow.nodes),
        ),
{
    reveal_strlit("BAGFLOW_TOPICS");
    reveal_strlit("BAGFLOW_BAG");
    reveal_strlit("BAGFLOW_BATCH_ROWS");
    reveal_strlit("BAGFLOW_BATCH_BYTES");
    assert("BAGFLOW_TOPICS"@.len() == 14);
    assert("BAGFLOW_BATCH_ROWS"@.len() == 18);
    assert("BAGFLOW_BATCH_BYTES"@.len() == 19);
}

/// Checks a flow and turns it into a dataflow. `meta` lists the topics of the
/// bag, where the bag has metadata.
#[verifier::rlimit(40)]
pub fn preflight(flow: &Flow, site: &Site, meta: Option<&Vec<MetaTopic>>) -> (r: Result<
    Plan,
    PreflightError,
>)
    ensures
        match r {
            Ok(plan) => flow_error(flow@, site@, meta_topics(meta)) is None && plan@ == plan_of(
                flow@,
                site@,
                meta_topics(meta),
            ),
            Err(e) => flow_error(flow@, site@, meta_topics(meta)) == Some(e@),
        },
        r matches Ok(plan) ==> texts_of_json(plan@.nodes[0].env["BAGFLOW_TOPICS"@]) == Some(
            subscriptions(flow@.nodes),
        ),
{
    if !site.bag_found {
        return Err(
            PreflightError::BagNotFound {
                bag: abs(site.flow_dir.as_str(), flow.bag.as_str()),
            },
        );
    }
    let listed = match meta {
        Some(list) => Some(bag_topics(list)),
        None => None,
    };
    let bag = listed.as_ref();
    assert(opt_topics(bag) == meta_topics(meta));
    match check_ids(&flow.nodes) {
        Ok(_) => {},
        Err(e) => return Err(e),
    }
    match check_wiring(&flow.nodes, bag) {
        Ok(_) => {},
        Err(e) => return Err(e),
    }
    proof {
        lemma_references_set(flow.nodes@, opt_topics(bag));
    }
    let topics = collect_subscriptions(&flow.nodes);
    if topics.len() == 0 {
        assert forall|t: Seq<char>| !#[trigger] subscribes(flow@.nodes, t) by {
            assert(ordered_keys(topics@).contains(t) <==> topics@.contains_key(t));
        }
        return Err(PreflightError::NoTopics);
    }
    assert(subscribes(flow@.nodes, ordered_keys(topics@)[0])) by {
        assert(ordered_keys(topics@).contains(ordered_keys(topics@)[0]));
        assert(topics@.contains_key(ordered_keys(topics@)[0]));
    }
    let mut nodes: Vec<DoraNodeDef> = Vec::new();
    nodes.push(make_source_node(flow, site, &topics));
    let ghost make = |n: FlowNodeView| user_node(site@.flow_dir, flow@.default_queue, n);
    let ghost views = flow@.nodes;
    let ghost made = seq![source_node(flow@, site@)];
    assert(nodes@.map_values(|n: DoraNodeDef| n@) =~= made + views.take(0).map_values(make));
    let mut i: usize = 0;
    while i < flow.nodes.len()
        invariant
            i <= flow.nodes.len(),
            views == flow@.nodes,
            references_set(views),
            make == (|n: FlowNodeView| user_node(site@.flow_dir, flow@.default_queue, n)),
            made == seq![source_node(flow@, site@)],
            nodes@.map_values(|n: DoraNodeDef| n@) == made + views.take(i as int).map_values(make),
        decreases flow.nodes.len() - i,
    {
        let n = &flow.nodes[i];
        assert(views[i as int] == n@);
        assert forall|a: int, name: Seq<char>|
            0 <= a < 1 && #[trigger] seq![n@][a].inputs.contains_key(name) implies seq![
            n@,
        ][a].inputs[name].reference() is Some by {
            assert(views[i as int].inputs.contains_key(name));
        }
        let ghost so_far = nodes@.map_values(|n: DoraNodeDef| n@);
        nodes.push(make_user_node(&site.flow_dir, flow.defaults.queue_size, n));
        assert(nodes@.map_values(|n: DoraNodeDef| n@) =~= so_far.push(make(n@)));
        assert(views.take(i + 1).map_values(make) =~= views.take(i as int).map_values(make).push(
            make(n@),
        ));
        assert(so_far.push(make(n@)) =~= made + views.take(i + 1).map_values(make));
        i += 1;
    }
    assert(views.take(i as int) =~= views);
    let ghost so_far = nodes@.map_values(|n: DoraNodeDef| n@);
    nodes.push(make_report_node(flow, site, bag));
    assert(nodes@.map_values(|n: DoraNodeDef| n@) =~= so_far.push(
        report_node(flow@, site@, opt_topics(bag)),
    ));
    proof {
        lemma_topics_text(flow@, site@);
        assert(dataflow_of(flow@, site@, opt_topics(bag))[0] == source_node(flow@, site@));
    }
    Ok(
        Plan {
            dataflow: DoraFlow { nodes },
            report_path: abs(site.flow_dir.as_str(), flow.report.as_str()),
            topics: make_topics(&topics, bag),
            workdir: workdir_path(site.flow_dir.as_str()),
        },
    )
}

} // verus!

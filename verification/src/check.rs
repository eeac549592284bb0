//! The checks of a flow against the metadata of its bag.
use crate::error::{PreflightError, PreflightErrorView};
use crate::flow::{node_views, FlowNode, FlowNodeView};
use crate::number::{decimal, decimal_text};
use crate::text::{
    begins_with, contains_text, cut_at_first, cut_once, same_text, sort_texts, sorted_texts, texts,
};
use crate::text_map::{lists_keys, ordered_keys, TextMap};
use vstd::prelude::*;

verus! {

/// A topic as the metadata of a bag lists it.
#[derive(Debug)]
pub struct MetaTopic {
    pub name: String,
    /// The message type.
    pub kind: String,
    pub message_count: u64,
}

/// What a bag holds of one topic.
#[derive(Debug)]
pub struct TopicInfo {
    /// The message type.
    pub kind: String,
    pub count: u64,
}

/// The model of a [`TopicInfo`].
pub struct TopicView {
    pub kind: Seq<char>,
    pub count: u64,
}

impl View for TopicInfo {
    type V = TopicView;

    open spec fn view(&self) -> TopicView {
        TopicView { kind: self.kind@, count: self.count }
    }
}

/// The topics of a bag by name, from a listing. Of two entries with the same
/// name the later one counts.
pub open spec fn topics_by_name(list: Seq<MetaTopic>) -> Map<Seq<char>, TopicView>
    decreases list.len(),
{
    if list.len() == 0 {
        Map::empty()
    } else {
        topics_by_name(list.drop_last()).insert(
            list.last().name@,
            TopicView { kind: list.last().kind@, count: list.last().message_count },
        )
    }
}

/// The topics of a bag by name.
pub fn bag_topics(list: &Vec<MetaTopic>) -> (topics: TextMap<TopicInfo>)
    ensures
        topics@ == topics_by_name(list@),
{
    let mut topics: TextMap<TopicInfo> = TextMap::new();
    let mut i: usize = 0;
    while i < list.len()
        invariant
            i <= list.len(),
            topics@ == topics_by_name(list@.take(i as int)),
        decreases list.len() - i,
    {
        assert(list@.take(i + 1).drop_last() =~= list@.take(i as int));
        topics.insert(
            list[i].name.clone(),
            TopicInfo { kind: list[i].kind.clone(), count: list[i].message_count },
        );
        i += 1;
    }
    assert(list@.take(i as int) =~= list@);
    topics
}

/// A line that describes a topic of a bag.
pub open spec fn topic_line(name: Seq<char>, info: TopicView) -> Seq<char> {
    "  "@ + name + "  ["@ + info.kind + "] ("@ + decimal(info.count as nat) + " msgs)"@
}

/// The topics of a bag, one line each, in ascending order of line.
pub open spec fn topic_lines(bag: Map<Seq<char>, TopicView>) -> Seq<Seq<char>> {
    sorted_texts(ordered_keys(bag).map_values(|k: Seq<char>| topic_line(k, bag[k])))
}

fn list_topics(bag: &TextMap<TopicInfo>) -> (lines: Vec<String>)
    ensures
        texts(lines@) == topic_lines(bag@),
{
    let mut lines: Vec<String> = Vec::new();
    let n = bag.len();
    let ghost line_of = |k: Seq<char>| topic_line(k, bag@[k]);
    let ghost all = ordered_keys(bag@).map_values(line_of);
    let mut i: usize = 0;
    while i < n
        invariant
            i <= n,
            n == ordered_keys(bag@).len(),
            line_of == (|k: Seq<char>| topic_line(k, bag@[k])),
            all == ordered_keys(bag@).map_values(line_of),
            texts(lines@) =~= all.take(i as int),
        decreases n - i,
    {
        let ghost so_far = texts(lines@);
        let info = bag.value_at(i);
        let mut line = "  ".to_owned();
        line.append(bag.key_at(i).as_str());
        line.append("  [");
        line.append(info.kind.as_str());
        line.append("] (");
        line.append(decimal_text(info.count).as_str());
        line.append(" msgs)");
        assert(line@ =~= all[i as int]);
        lines.push(line);
        assert(texts(lines@) =~= so_far.push(all[i as int]));
        assert(all.take(i + 1) =~= all.take(i as int).push(all[i as int]));
        i += 1;
    }
    assert(all.take(i as int) =~= all);
    sort_texts(&lines)
}

/// The ids of a list of nodes.
pub open spec fn ids(nodes: Seq<FlowNodeView>) -> Seq<Seq<char>> {
    nodes.map_values(|n: FlowNodeView| n.id)
}

/// What is wrong with the id of node `i`, given the nodes before it.
pub open spec fn id_error(nodes: Seq<FlowNodeView>, i: int) -> Option<PreflightErrorView> {
    let id = nodes[i].id;
    if "bagflow"@.is_prefix_of(id) {
        Some(PreflightErrorView::ReservedNode { node: id })
    } else if ids(nodes).take(i).contains(id) {
        Some(PreflightErrorView::DuplicateNode { node: id })
    } else {
        None
    }
}

/// The first thing that is wrong with the ids of the nodes from `i` on.
pub open spec fn first_id_error(nodes: Seq<FlowNodeView>, i: int) -> Option<PreflightErrorView>
    decreases nodes.len() - i,
{
    if i >= nodes.len() {
        None
    } else {
        match id_error(nodes, i) {
            Some(e) => Some(e),
            None => first_id_error(nodes, i + 1),
        }
    }
}

/// Whether the ids of the nodes are distinct and none is reserved.
pub fn check_ids(nodes: &Vec<FlowNode>) -> (r: Result<(), PreflightError>)
    ensures
        match r {
            Ok(_) => first_id_error(node_views(nodes@), 0) is None,
            Err(e) => first_id_error(node_views(nodes@), 0) == Some(e@),
        },
{
    let ghost views = node_views(nodes@);
    let mut seen: Vec<String> = Vec::new();
    let mut i: usize = 0;
    while i < nodes.len()
        invariant
            i <= nodes.len(),
            views == node_views(nodes@),
            texts(seen@) =~= ids(views).take(i as int),
            first_id_error(views, 0) == first_id_error(views, i as int),
        decreases nodes.len() - i,
    {
        let ghost so_far = texts(seen@);
        let id = &nodes[i].id;
        assert(views[i as int].id == id@);
        if begins_with(id.as_str(), "bagflow") {
            return Err(PreflightError::ReservedNode { node: id.clone() });
        }
        if contains_text(&seen, id.as_str()) {
            return Err(PreflightError::DuplicateNode { node: id.clone() });
        }
        seen.push(id.clone());
        assert(texts(seen@) =~= so_far.push(id@));
        assert(ids(views).take(i + 1) =~= ids(views).take(i as int).push(id@));
        i += 1;
    }
    Ok(())
}

/// Whether a reference is to a topic.
pub open spec fn is_topic(reference: Seq<char>) -> bool {
    reference.len() > 0 && reference[0] == '/'
}

/// Whether a reference is to a topic.
pub fn refers_to_topic(reference: &str) -> (topic: bool)
    ensures
        topic == is_topic(reference@),
{
    proof {
        reveal_strlit("/");
        if is_topic(reference@) {
            assert("/"@ =~= reference@.subrange(0, 1));
        }
        if "/"@.is_prefix_of(reference@) {
            assert(reference@.subrange(0, 1)[0] == '/');
        }
    }
    begins_with(reference, "/")
}

/// What is wrong with a reference to an output of a node, which node `by`
/// makes.
pub open spec fn node_reference_error(
    nodes: Seq<FlowNodeView>,
    by: Seq<char>,
    reference: Seq<char>,
) -> Option<PreflightErrorView> {
    match cut_at_first(reference, '/') {
        None => Some(PreflightErrorView::BadReference { reference }),
        Some((node, output)) => match ids(nodes).index_of_first(node) {
            None => Some(PreflightErrorView::UnknownNode { node, by }),
            Some(i) => if nodes[i].outputs.contains(output) {
                None
            } else {
                Some(PreflightErrorView::NoSuchOutput { node, output, by })
            },
        },
    }
}

/// What is wrong with input `name` of node `n`. Topics are looked up in `bag`
/// where the bag has metadata.
pub open spec fn input_error(
    nodes: Seq<FlowNodeView>,
    bag: Option<Map<Seq<char>, TopicView>>,
    n: FlowNodeView,
    name: Seq<char>,
) -> Option<PreflightErrorView> {
    if name == "done"@ || name == "result"@ {
        Some(PreflightErrorView::ReservedInput { input: name, node: n.id })
    } else {
        match n.inputs[name].reference() {
            None => Some(PreflightErrorView::TopicOrNode),
            Some(r) => if is_topic(r) {
                match bag {
                    Some(b) => if b.contains_key(r) {
                        None
                    } else {
                        Some(
                            PreflightErrorView::TopicNotInBag {
                                topic: r,
                                node: n.id,
                                input: name,
                                available: topic_lines(b),
                            },
                        )
                    },
                    None => None,
                }
            } else {
                node_reference_error(nodes, n.id, r)
            },
        }
    }
}

/// The first thing that is wrong with the inputs of node `n`, taken in
/// ascending order of name, from position `j` on.
pub open spec fn first_input_error(
    nodes: Seq<FlowNodeView>,
    bag: Option<Map<Seq<char>, TopicView>>,
    n: FlowNodeView,
    j: int,
) -> Option<PreflightErrorView>
    decreases ordered_keys(n.inputs).len() - j,
{
    if j >= ordered_keys(n.inputs).len() {
        None
    } else {
        match input_error(nodes, bag, n, ordered_keys(n.inputs)[j]) {
            Some(e) => Some(e),
            None => first_input_error(nodes, bag, n, j + 1),
        }
    }
}

/// The first thing that is wrong with the inputs of the nodes from `i` on.
pub open spec fn first_wiring_error(
    nodes: Seq<FlowNodeView>,
    bag: Option<Map<Seq<char>, TopicView>>,
    i: int,
) -> Option<PreflightErrorView>
    decreases nodes.len() - i,
{
    if i >= nodes.len() {
        None
    } else {
        match first_input_error(nodes, bag, nodes[i], 0) {
            Some(e) => Some(e),
            None => first_wiring_error(nodes, bag, i + 1),
        }
    }
}

fn find_node(nodes: &Vec<FlowNode>, id: &str) -> (found: Option<usize>)
    ensures
        match found {
            Some(i) => i < nodes.len() && ids(node_views(nodes@)).index_of_first(id@) == Some(
                i as int,
            ),
            None => ids(node_views(nodes@)).index_of_first(id@) is None,
        },
{
    let ghost all = ids(node_views(nodes@));
    proof {
        all.index_of_first_ensures(id@);
    }
    let mut i: usize = 0;
    while i < nodes.len()
        invariant
            i <= nodes.len(),
            all == ids(node_views(nodes@)),
            forall|j: int| 0 <= j < i ==> #[trigger] all[j] != id@,
        decreases nodes.len() - i,
    {
        assert(all[i as int] == nodes@[i as int].id@);
        if same_text(nodes[i].id.as_str(), id) {
            proof {
                all.index_of_first_ensures(id@);
                assert(all.contains(id@));
            }
            return Some(i);
        }
        i += 1;
    }
    None
}

fn check_node_reference(nodes: &Vec<FlowNode>, by: &String, reference: &str) -> (r: Result<
    (),
    PreflightError,
>)
    ensures
        match r {
            Ok(_) => node_reference_error(node_views(nodes@), by@, reference@) is None,
            Err(e) => node_reference_error(node_views(nodes@), by@, reference@) == Some(e@),
        },
{
    let ghost views = node_views(nodes@);
    let (node, output) = match cut_once(reference, '/') {
        None => return Err(PreflightError::BadReference { reference: reference.to_owned() }),
        Some(parts) => parts,
    };
    let i = match find_node(nodes, node.as_str()) {
        None => return Err(PreflightError::UnknownNode { node, by: by.clone() }),
        Some(i) => i,
    };
    assert(views[i as int].outputs == texts(nodes@[i as int].outputs@));
    if contains_text(&nodes[i].outputs, output.as_str()) {
        Ok(())
    } else {
        Err(PreflightError::NoSuchOutput { node, output, by: by.clone() })
    }
}

/// The models of the topics of a bag that has metadata.
pub open spec fn opt_topics(bag: Option<&TextMap<TopicInfo>>) -> Option<Map<Seq<char>, TopicView>> {
    match bag {
        Some(b) => Some(b@),
        None => None,
    }
}

fn check_input(
    nodes: &Vec<FlowNode>,
    bag: Option<&TextMap<TopicInfo>>,
    n: &FlowNode,
    j: usize,
) -> (r: Result<(), PreflightError>)
    requires
        j < ordered_keys(n@.inputs).len(),
    ensures
        match r {
            Ok(_) => input_error(
                node_views(nodes@),
                opt_topics(bag),
                n@,
                ordered_keys(n@.inputs)[j as int],
            ) is None,
            Err(e) => input_error(
                node_views(nodes@),
                opt_topics(bag),
                n@,
                ordered_keys(n@.inputs)[j as int],
            ) == Some(e@),
        },
{
    let name = n.inputs.key_at(j);
    if same_text(name.as_str(), "done") || same_text(name.as_str(), "result") {
        return Err(PreflightError::ReservedInput { input: name.clone(), node: n.id.clone() });
    }
    let input = n.inputs.value_at(j);
    let reference = match input.reference() {
        Ok(r) => r,
        Err(e) => return Err(e),
    };
    if refers_to_topic(reference) {
        match bag {
            Some(b) => {
                if !b.contains_key(reference) {
                    return Err(
                        PreflightError::TopicNotInBag {
                            topic: reference.to_owned(),
                            node: n.id.clone(),
                            input: name.clone(),
                            available: list_topics(b),
                        },
                    );
                }
            },
            None => {},
        }
        Ok(())
    } else {
        check_node_reference(nodes, &n.id, reference)
    }
}

/// Whether every input of every node has a free name and refers to a topic of
/// the bag or an output of a node.
pub fn check_wiring(nodes: &Vec<FlowNode>, bag: Option<&TextMap<TopicInfo>>) -> (r: Result<
    (),
    PreflightError,
>)
    ensures
        match r {
            Ok(_) => first_wiring_error(node_views(nodes@), opt_topics(bag), 0) is None,
            Err(e) => first_wiring_error(node_views(nodes@), opt_topics(bag), 0) == Some(e@),
        },
        r is Ok ==> forall|i: int|
            0 <= i < nodes.len() ==> lists_keys(
                ordered_keys(#[trigger] node_views(nodes@)[i].inputs),
                node_views(nodes@)[i].inputs,
            ),
{
    let ghost views = node_views(nodes@);
    let ghost topics = opt_topics(bag);
    let mut i: usize = 0;
    while i < nodes.len()
        invariant
            i <= nodes.len(),
            views == node_views(nodes@),
            topics == opt_topics(bag),
            first_wiring_error(views, topics, 0) == first_wiring_error(views, topics, i as int),
            forall|a: int|
                0 <= a < i ==> lists_keys(
                    ordered_keys(#[trigger] views[a].inputs),
                    views[a].inputs,
                ),
        decreases nodes.len() - i,
    {
        let n = &nodes[i];
        assert(views[i as int] == n@);
        let count = n.inputs.len();
        let mut j: usize = 0;
        while j < count
            invariant
                i < nodes.len(),
                views == node_views(nodes@),
                topics == opt_topics(bag),
                views[i as int] == n@,
                j <= count,
                count == ordered_keys(n@.inputs).len(),
                first_wiring_error(views, topics, 0) == first_wiring_error(
                    views,
                    topics,
                    i as int,
                ),
                first_input_error(views, topics, n@, 0) == first_input_error(
                    views,
                    topics,
                    n@,
                    j as int,
                ),
            decreases count - j,
        {
            match check_input(nodes, bag, n, j) {
                Ok(_) => {},
                Err(e) => return Err(e),
            }
            j += 1;
        }
        i += 1;
    }
    Ok(())
}

/// Where no wiring error is found from `i` on, no input from `i` on has one.
pub proof fn lemma_no_wiring_error(
    nodes: Seq<FlowNodeView>,
    bag: Option<Map<Seq<char>, TopicView>>,
    i: int,
)
    requires
        0 <= i,
        first_wiring_error(nodes, bag, i) is None,
    ensures
        forall|a: int, j: int|
            i <= a < nodes.len() && 0 <= j < ordered_keys(nodes[a].inputs).len()
                ==> #[trigger] input_error(
                nodes,
                bag,
                nodes[a],
                ordered_keys(nodes[a].inputs)[j],
            ) is None,
    decreases nodes.len() - i,
{
    if i < nodes.len() {
        lemma_no_input_error(nodes, bag, nodes[i], 0);
        lemma_no_wiring_error(nodes, bag, i + 1);
    }
}

proof fn lemma_no_input_error(
    nodes: Seq<FlowNodeView>,
    bag: Option<Map<Seq<char>, TopicView>>,
    n: FlowNodeView,
    j: int,
)
    requires
        0 <= j,
        first_input_error(nodes, bag, n, j) is None,
    ensures
        forall|b: int|
            j <= b < ordered_keys(n.inputs).len() ==> #[trigger] input_error(
                nodes,
                bag,
                n,
                ordered_keys(n.inputs)[b],
            ) is None,
    decreases ordered_keys(n.inputs).len() - j,
{
    if j < ordered_keys(n.inputs).len() {
        lemma_no_input_error(nodes, bag, n, j + 1);
    }
}

/// The topics of a bag are those that its metadata lists.
pub proof fn a_bag_has_the_topics_that_are_listed(list: Seq<MetaTopic>, name: Seq<char>)
    ensures
        topics_by_name(list).contains_key(name) <==> exists|i: int|
            0 <= i < list.len() && #[trigger] list[i].name@ == name,
    decreases list.len(),
{
    if list.len() > 0 {
        let rest = list.drop_last();
        let n = list.len() - 1;
        a_bag_has_the_topics_that_are_listed(rest, name);
        if topics_by_name(rest).contains_key(name) {
            let i = choose|i: int| 0 <= i < rest.len() && #[trigger] rest[i].name@ == name;
            assert(list[i].name@ == name);
        }
        if list[n].name@ != name && (exists|i: int|
            0 <= i < list.len() && #[trigger] list[i].name@ == name) {
            let i = choose|i: int| 0 <= i < list.len() && #[trigger] list[i].name@ == name;
            assert(rest[i].name@ == name);
        }
    }
}

/// A topic has the kind and the count of the last entry with its name, as they
/// stand there.
pub proof fn a_topic_is_its_last_entry(list: Seq<MetaTopic>, i: int)
    requires
        0 <= i < list.len(),
        forall|j: int| i < j < list.len() ==> #[trigger] list[j].name@ != list[i].name@,
    ensures
        topics_by_name(list).contains_key(list[i].name@),
        topics_by_name(list)[list[i].name@].kind == list[i].kind@,
        topics_by_name(list)[list[i].name@].count == list[i].message_count,
    decreases list.len(),
{
    let rest = list.drop_last();
    let n = list.len() - 1;
    if i < n {
        assert(list[n].name@ != list[i].name@);
        assert forall|j: int| i < j < rest.len() implies #[trigger] rest[j].name@
            != rest[i].name@ by {
            assert(list[j].name@ != list[i].name@);
        }
        a_topic_is_its_last_entry(rest, i);
    }
}

/// The model of a topic has the fields of the topic.
pub proof fn the_model_of_a_topic_is_the_topic(info: TopicInfo)
    ensures
        info@.kind == info.kind@,
        info@.count == info.count,
{
}

/// A topic is shown with its name, its kind and its count.
pub proof fn a_topic_line_shows_its_topic(name: Seq<char>, info: TopicView)
    ensures
        topic_line(name, info) == seq![' ', ' '] + name + seq![' ', ' ', '['] + info.kind + seq![
            ']',
            ' ',
            '(',
        ] + decimal(info.count as nat) + seq![' ', 'm', 's', 'g', 's', ')'],
{
    reveal_strlit("  ");
    reveal_strlit("  [");
    reveal_strlit("] (");
    reveal_strlit(" msgs)");
    assert("  "@ =~= seq![' ', ' ']);
    assert("  ["@ =~= seq![' ', ' ', '[']);
    assert("] ("@ =~= seq![']', ' ', '(']);
    assert(" msgs)"@ =~= seq![' ', 'm', 's', 'g', 's', ')']);
}

} // verus!

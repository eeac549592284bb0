use bagflow::check::MetaTopic;
use bagflow::dataflow::DoraNodeDef;
use bagflow::flow::{
    default_report, sanitize_topic, Defaults, Flow, FlowInput, FlowNode, SourceCfg,
};
use bagflow::number::setting;
use bagflow::plan::{Plan, Site};
use bagflow::preflight::preflight;
use bagflow::run::{check_lines, start_args, timeout_message, wait_step, work_files, Wait};
use bagflow::source::source_config;
use bagflow::text_map::TextMap;

fn list(items: &[&str]) -> Vec<String> {
    items.iter().map(|s| s.to_string()).collect()
}

fn node(id: &str, inputs: Vec<(&str, FlowInput)>, outputs: &[&str]) -> FlowNode {
    let mut map: TextMap<FlowInput> = TextMap::new();
    for (name, input) in inputs {
        map.insert(name.to_string(), input);
    }
    FlowNode {
        id: id.to_string(),
        path: format!("{id}.py"),
        inputs: map,
        outputs: list(outputs),
        env: TextMap::new(),
        queue_size: None,
    }
}

fn short(reference: &str) -> FlowInput {
    FlowInput::Short(reference.to_string())
}

fn flow(nodes: Vec<FlowNode>) -> Flow {
    Flow {
        bag: "bag".to_string(),
        report: "out/report.json".to_string(),
        defaults: Defaults { queue_size: None },
        source: SourceCfg { batch_rows: None, batch_bytes: None },
        nodes,
    }
}

fn site() -> Site {
    Site {
        flow_dir: "/flows".to_string(),
        exe_dir: "/opt/bin".to_string(),
        bag_found: true,
        bag_info: "{}".to_string(),
    }
}

fn topic(name: &str, kind: &str, message_count: u64) -> MetaTopic {
    MetaTopic { name: name.to_string(), kind: kind.to_string(), message_count }
}

fn bag() -> Vec<MetaTopic> {
    vec![topic("/camera/image", "Image", 120), topic("/imu", "Imu", 900)]
}

fn pipeline() -> Flow {
    flow(vec![
        node("grayscale", vec![("images", short("/camera/image"))], &["gray"]),
        node("video", vec![("frames", short("grayscale/gray")), ("imu", short("/imu"))], &[]),
    ])
}

fn planned(flow: &Flow) -> Plan {
    preflight(flow, &site(), Some(&bag())).unwrap()
}

fn refused(flow: &Flow) -> String {
    preflight(flow, &site(), Some(&bag())).unwrap_err().message()
}

fn env<'a>(node: &'a DoraNodeDef, name: &str) -> Option<&'a str> {
    node.env.get(name).map(String::as_str)
}

fn sources(node: &DoraNodeDef) -> Vec<(&str, &str, usize)> {
    node.inputs
        .entries()
        .iter()
        .map(|(k, v)| (k.as_str(), v.source.as_str(), v.queue_size))
        .collect()
}

#[test]
fn topics_become_output_names() {
    assert_eq!(sanitize_topic("/camera/color/image_raw/compressed"), "camera__color__image_raw__compressed");
    assert_eq!(sanitize_topic("/imu"), "imu");
    assert_eq!(sanitize_topic("///a//b/"), "a____b__");
    assert_eq!(sanitize_topic("/"), "_root");
    assert_eq!(sanitize_topic(""), "_root");
    assert_eq!(sanitize_topic("plain"), "plain");
}

#[test]
fn topics_of_the_usual_form_do_not_share_an_output() {
    assert_ne!(sanitize_topic("/a/b"), sanitize_topic("/a_b"));
    assert_eq!(sanitize_topic("/a/b"), sanitize_topic("/a__b"));
}

#[test]
fn the_report_has_a_default_place() {
    assert_eq!(default_report(), "report.json");
}

#[test]
fn inputs_refer_to_one_thing() {
    let long = |topic: Option<&str>, node: Option<&str>| FlowInput::Long {
        topic: topic.map(str::to_string),
        node: node.map(str::to_string),
        queue_size: Some(3),
    };
    assert_eq!(short("/imu").reference().unwrap(), "/imu");
    assert_eq!(long(Some("/imu"), None).reference().unwrap(), "/imu");
    assert_eq!(long(None, Some("a/b")).reference().unwrap(), "a/b");
    for input in [long(Some("/imu"), Some("a/b")), long(None, None)] {
        let error = input.reference().unwrap_err();
        assert_eq!(error.message(), "input must set exactly one of `topic` or `node`");
    }
    assert_eq!(short("/imu").queue_size(), None);
    assert_eq!(long(Some("/imu"), None).queue_size(), Some(3));
}

#[test]
fn a_pipeline_becomes_a_dataflow() {
    let plan = planned(&pipeline());
    assert_eq!(plan.report_path, "/flows/out/report.json");
    assert_eq!(plan.workdir, "/flows/.bagflow");
    assert_eq!(
        plan.topics,
        [("/camera/image".to_string(), Some(120)), ("/imu".to_string(), Some(900))]
    );
    let ids: Vec<&str> = plan.dataflow.nodes.iter().map(|n| n.id.as_str()).collect();
    assert_eq!(ids, ["bagflow_source", "grayscale", "video", "bagflow_report"]);

    let source = &plan.dataflow.nodes[0];
    assert_eq!(source.path, "/opt/bin/bagflow-source");
    assert_eq!(source.outputs, ["camera__image", "imu", "result"]);
    assert_eq!(sources(source), [("done", "bagflow_report/done", 100)]);
    assert_eq!(env(source, "BAGFLOW_BAG"), Some("/flows/bag"));
    assert_eq!(
        env(source, "BAGFLOW_TOPICS"),
        Some(r#"{"/camera/image":"camera__image","/imu":"imu"}"#)
    );
    assert_eq!(env(source, "BAGFLOW_BATCH_ROWS"), None);
    assert_eq!(env(source, "BAGFLOW_BATCH_BYTES"), None);

    let video = &plan.dataflow.nodes[2];
    assert_eq!(video.path, "/flows/video.py");
    assert_eq!(video.outputs, ["result"]);
    assert_eq!(
        sources(video),
        [
            ("done", "bagflow_report/done", 100),
            ("frames", "grayscale/gray", 256),
            ("imu", "bagflow_source/imu", 256),
        ]
    );
    assert_eq!(env(video, "BAGFLOW_INPUTS"), Some("frames,imu"));
    assert_eq!(env(video, "BAGFLOW_OUTPUTS"), Some(""));
    assert_eq!(env(video, "BAGFLOW_NODE_ID"), Some("video"));
    assert_eq!(env(video, "PYTHONPATH"), Some("/flows/.bagflow/pylib"));
    assert_eq!(plan.dataflow.nodes[1].outputs, ["gray", "result"]);
    assert_eq!(env(&plan.dataflow.nodes[1], "BAGFLOW_OUTPUTS"), Some("gray"));

    let report = &plan.dataflow.nodes[3];
    assert_eq!(report.path, "/flows/.bagflow/pylib/report.py");
    assert_eq!(report.outputs, ["done"]);
    assert_eq!(
        sources(report),
        [
            ("result_bagflow_source", "bagflow_source/result", 256),
            ("result_grayscale", "grayscale/result", 256),
            ("result_video", "video/result", 256),
        ]
    );
    assert_eq!(env(report, "BAGFLOW_REPORT"), Some("/flows/out/report.json"));
    assert_eq!(env(report, "BAGFLOW_EXPECTED"), Some(r#"{"/camera/image":120,"/imu":900}"#));
    assert_eq!(
        env(report, "BAGFLOW_WIRING"),
        Some(r#"{"grayscale":{"images":"/camera/image"},"video":{"frames":"grayscale/gray","imu":"/imu"}}"#)
    );
    assert_eq!(env(report, "BAGFLOW_BAGINFO"), Some("{}"));
    assert_eq!(
        env(report, "BAGFLOW_INPUTS"),
        Some("result_bagflow_source,result_grayscale,result_video")
    );
}

#[test]
fn json_texts_are_escaped() {
    let mut plain = pipeline();
    plain.nodes[0].inputs.insert("quoted".to_string(), short("/a\"b\\c\n"));
    let plan = preflight(&plain, &site(), None).unwrap();
    assert_eq!(
        env(&plan.dataflow.nodes[0], "BAGFLOW_TOPICS"),
        Some(r#"{"/a\"b\\c\n":"a\"b\\c\n","/camera/image":"camera__image","/imu":"imu"}"#)
    );
}

#[test]
fn every_edge_starts_at_an_output() {
    let plan = planned(&pipeline());
    let nodes = &plan.dataflow.nodes;
    for node in nodes {
        for (_, input) in node.inputs.entries() {
            let (id, output) = input.source.split_once('/').unwrap();
            let from = nodes.iter().find(|n| n.id == id).unwrap();
            assert!(from.outputs.iter().any(|o| o == output), "{}", input.source);
        }
    }
}

#[test]
fn topics_without_metadata_have_no_counts() {
    let plan = preflight(&pipeline(), &site(), None).unwrap();
    assert_eq!(plan.topics, [("/camera/image".to_string(), None), ("/imu".to_string(), None)]);
    assert_eq!(env(&plan.dataflow.nodes[3], "BAGFLOW_EXPECTED"), Some("{}"));
    let unknown = flow(vec![node("a", vec![("x", short("/not/in/the/bag"))], &[])]);
    assert!(preflight(&unknown, &site(), None).is_ok());
}

#[test]
fn of_two_listings_of_a_topic_the_later_counts() {
    let twice = vec![topic("/imu", "Imu", 1), topic("/camera/image", "I", 2), topic("/imu", "Imu", 3)];
    let plan = preflight(&pipeline(), &site(), Some(&twice)).unwrap();
    assert_eq!(plan.topics[1], ("/imu".to_string(), Some(3)));
}

#[test]
fn a_shared_topic_has_one_output() {
    let shared = flow(vec![
        node("a", vec![("x", short("/imu")), ("y", short("/imu"))], &[]),
        node("b", vec![("x", short("/imu"))], &[]),
    ]);
    let plan = planned(&shared);
    assert_eq!(plan.dataflow.nodes[0].outputs, ["imu", "result"]);
    assert_eq!(sources(&plan.dataflow.nodes[2])[1], ("x", "bagflow_source/imu", 256));
}

#[test]
fn the_nearest_queue_size_wins() {
    let input = |queue_size| FlowInput::Long {
        topic: Some("/imu".to_string()),
        node: None,
        queue_size,
    };
    let mut sized = flow(vec![
        node("a", vec![("own", input(Some(64))), ("node", input(None))], &[]),
        node("b", vec![("flow", input(None))], &[]),
    ]);
    sized.nodes[0].queue_size = Some(128);
    assert_eq!(sources(&planned(&sized).dataflow.nodes[2])[1].2, 256);
    sized.defaults.queue_size = Some(32);
    let plan = planned(&sized);
    assert_eq!(sources(&plan.dataflow.nodes[1])[1], ("node", "bagflow_source/imu", 128));
    assert_eq!(sources(&plan.dataflow.nodes[1])[2], ("own", "bagflow_source/imu", 64));
    assert_eq!(sources(&plan.dataflow.nodes[2])[1].2, 32);
    assert_eq!(sources(&plan.dataflow.nodes[2])[0].2, 100);
}

#[test]
fn node_environments_are_kept() {
    let mut with_env = pipeline();
    let vars = [("OUT_DIR", "out"), ("PYTHONPATH", "/mine"), ("BAGFLOW_INPUTS", "none")];
    for (k, v) in vars {
        with_env.nodes[0].env.insert(k.to_string(), v.to_string());
    }
    let plan = planned(&with_env);
    let gray = &plan.dataflow.nodes[1];
    assert_eq!(env(gray, "OUT_DIR"), Some("out"));
    assert_eq!(env(gray, "PYTHONPATH"), Some("/flows/.bagflow/pylib:/mine"));
    assert_eq!(env(gray, "BAGFLOW_INPUTS"), Some("images"));
}

#[test]
fn nodes_without_inputs_are_not_wired() {
    let mut idle = pipeline();
    idle.nodes.push(node("idle", vec![], &["x"]));
    let plan = planned(&idle);
    assert_eq!(
        env(&plan.dataflow.nodes[4], "BAGFLOW_WIRING"),
        Some(r#"{"grayscale":{"images":"/camera/image"},"video":{"frames":"grayscale/gray","imu":"/imu"}}"#)
    );
    assert_eq!(sources(&plan.dataflow.nodes[3]), [("done", "bagflow_report/done", 100)]);
}

#[test]
fn absolute_paths_stay() {
    let mut absolute = pipeline();
    absolute.bag = "/data/run".to_string();
    absolute.report = "/reports/run.json".to_string();
    absolute.nodes[0].path = "/usr/bin/gray".to_string();
    let plan = planned(&absolute);
    assert_eq!(env(&plan.dataflow.nodes[0], "BAGFLOW_BAG"), Some("/data/run"));
    assert_eq!(plan.report_path, "/reports/run.json");
    assert_eq!(plan.dataflow.nodes[1].path, "/usr/bin/gray");
}

#[test]
fn bag_and_report_can_be_redirected() {
    let same = planned(&pipeline().redirected(None, None));
    assert_eq!(same.report_path, "/flows/out/report.json");
    let other = pipeline().redirected(
        Some("/data/incoming/run_xxx".to_string()),
        Some("/data/reports/run_xxx.json".to_string()),
    );
    let plan = planned(&other);
    assert_eq!(plan.report_path, "/data/reports/run_xxx.json");
    assert_eq!(env(&plan.dataflow.nodes[0], "BAGFLOW_BAG"), Some("/data/incoming/run_xxx"));
    assert_eq!(env(&plan.dataflow.nodes[3], "BAGFLOW_REPORT"), Some("/data/reports/run_xxx.json"));
    assert_eq!(sources(&plan.dataflow.nodes[2]), sources(&same.dataflow.nodes[2]));
}

#[test]
fn a_missing_bag_is_refused() {
    let mut nowhere = site();
    nowhere.bag_found = false;
    let error = preflight(&pipeline(), &nowhere, None).unwrap_err();
    assert_eq!(error.message(), "bag not found: /flows/bag");
}

#[test]
fn reserved_and_repeated_ids_are_refused() {
    let mut reserved = pipeline();
    reserved.nodes[1].id = "bagflow_extra".to_string();
    assert_eq!(refused(&reserved), "node id `bagflow_extra` is reserved");
    let mut repeated = pipeline();
    repeated.nodes[1].id = "grayscale".to_string();
    assert_eq!(refused(&repeated), "duplicate node id `grayscale`");
}

#[test]
fn reserved_inputs_are_refused() {
    for name in ["done", "result"] {
        let reserved = flow(vec![node("a", vec![(name, short("/imu"))], &[])]);
        assert_eq!(refused(&reserved), format!("input name `{name}` is reserved (node `a`)"));
    }
}

#[test]
fn ambiguous_inputs_are_refused() {
    let neither = FlowInput::Long { topic: None, node: None, queue_size: None };
    let ambiguous = flow(vec![node("a", vec![("x", neither)], &[])]);
    assert_eq!(refused(&ambiguous), "input must set exactly one of `topic` or `node`");
}

#[test]
fn unknown_topics_are_refused() {
    let unknown = flow(vec![node("a", vec![("x", short("/gps"))], &[])]);
    assert_eq!(
        refused(&unknown),
        "topic `/gps` (node `a`, input `x`) is not in the bag.\navailable topics:\n  /camera/image  [Image] (120 msgs)\n  /imu  [Imu] (900 msgs)"
    );
}

#[test]
fn bad_references_are_refused() {
    let refer = |reference: &str| {
        let mut bad = pipeline();
        bad.nodes[1].inputs.insert("frames".to_string(), short(reference));
        refused(&bad)
    };
    assert_eq!(refer("gray"), "bad node reference `gray` — expected `node_id/output`");
    assert_eq!(refer("sepia/gray"), "unknown node `sepia` referenced by `video`");
    assert_eq!(
        refer("grayscale/color"),
        "node `grayscale` has no output `color` (referenced by `video`)"
    );
}

#[test]
fn a_flow_without_topics_is_refused() {
    let message = "no rostopic inputs — at least one node must subscribe to a bag topic";
    assert_eq!(refused(&flow(vec![])), message);
    let chained = flow(vec![
        node("a", vec![], &["x"]),
        node("b", vec![("in", short("a/x"))], &[]),
    ]);
    assert_eq!(refused(&chained), message);
}

#[test]
fn ids_are_checked_before_wiring() {
    let both = flow(vec![
        node("a", vec![("done", short("/gps"))], &[]),
        node("a", vec![], &[]),
    ]);
    assert_eq!(refused(&both), "duplicate node id `a`");
}

#[test]
fn nodes_can_be_listed_in_any_order() {
    let mut turned = pipeline();
    turned.nodes.reverse();
    let (one, other) = (planned(&pipeline()), planned(&turned));
    assert_eq!(one.topics, other.topics);
    assert_eq!(one.dataflow.nodes.len(), other.dataflow.nodes.len());
    for n in &one.dataflow.nodes {
        let m = other.dataflow.nodes.iter().find(|m| m.id == n.id).unwrap();
        assert_eq!((&n.path, &n.outputs), (&m.path, &m.outputs));
        assert_eq!(sources(n), sources(m));
        assert_eq!(n.env.entries(), m.env.entries());
    }
    turned.nodes[0].inputs.insert("x".to_string(), short("/gps"));
    assert!(preflight(&turned, &site(), Some(&bag())).is_err());
    turned.nodes.reverse();
    assert!(preflight(&turned, &site(), Some(&bag())).is_err());
}

#[test]
fn the_source_reads_what_preflight_writes() {
    let mut sized = pipeline();
    sized.source.batch_rows = Some(16);
    sized.source.batch_bytes = Some(1 << 20);
    let plan = planned(&sized);
    let source = &plan.dataflow.nodes[0];
    assert_eq!(setting(env(source, "BAGFLOW_BATCH_ROWS"), 64), 16);
    let config = source_config(
        env(source, "BAGFLOW_BAG"),
        env(source, "BAGFLOW_TOPICS"),
        env(source, "BAGFLOW_BATCH_ROWS"),
        env(source, "BAGFLOW_BATCH_BYTES"),
    )
    .unwrap();
    assert_eq!(config.bag, "/flows/bag");
    assert_eq!(config.batch_rows, 16);
    assert_eq!(config.batch_bytes, 1 << 20);
    let topics: Vec<(&str, &str)> =
        config.topics.entries().iter().map(|(k, v)| (k.as_str(), v.as_str())).collect();
    assert_eq!(topics, [("/camera/image", "camera__image"), ("/imu", "imu")]);
}

#[test]
fn a_check_prints_topics_and_report() {
    let mut lines = check_lines(&planned(&pipeline()));
    assert_eq!(
        lines,
        [
            "preflight OK — subscribed topics:",
            "  /camera/image (120 msgs)",
            "  /imu (900 msgs)",
            "report: /flows/out/report.json",
        ]
    );
    lines = check_lines(&preflight(&pipeline(), &site(), None).unwrap());
    assert_eq!(lines[1], "  /camera/image (count unknown)");
}

#[test]
fn generated_files_have_their_places() {
    let plan = planned(&pipeline());
    let work = work_files(&plan, "helper".into(), "report".into(), "nodes: []".into());
    assert_eq!(work.package_dir, "/flows/.bagflow/pylib/bagflow");
    assert_eq!(work.dataflow, "/flows/.bagflow/dataflow.yml");
    let files: Vec<(&str, &str)> =
        work.files.iter().map(|f| (f.path.as_str(), f.text.as_str())).collect();
    assert_eq!(
        files,
        [
            ("/flows/.bagflow/pylib/bagflow/__init__.py", "helper"),
            (plan.dataflow.nodes[3].path.as_str(), "report"),
            ("/flows/.bagflow/dataflow.yml", "nodes: []"),
        ]
    );
}

#[test]
fn generated_files_can_be_written_again() {
    let plan = planned(&pipeline());
    let mut disk = std::collections::BTreeMap::new();
    let mut write = || {
        let work = work_files(&plan, "helper".into(), "report".into(), "nodes: []".into());
        for file in work.files {
            disk.insert(file.path, file.text);
        }
        (work.dataflow, disk.clone())
    };
    let once = write();
    assert_eq!(once.1.len(), 3);
    assert_eq!(once.1[&plan.dataflow.nodes[3].path], "report");
    assert_eq!(write(), once);
}

#[test]
fn a_run_starts_attached_or_detached() {
    assert_eq!(start_args("/w/dataflow.yml", true), ["start", "/w/dataflow.yml", "--detach"]);
    assert_eq!(start_args("/w/dataflow.yml", false), ["start", "/w/dataflow.yml", "--attach"]);
}

#[test]
fn a_report_is_waited_for_one_hour() {
    let hour = 3_600_000_000_000;
    assert_eq!(wait_step(false, 0), Wait::Pause);
    assert_eq!(wait_step(false, hour), Wait::Pause);
    assert_eq!(wait_step(false, hour + 1), Wait::TimedOut);
    assert_eq!(wait_step(true, hour + 1), Wait::Done);
    assert_eq!(timeout_message("/r.json"), "timed out waiting for /r.json");
}

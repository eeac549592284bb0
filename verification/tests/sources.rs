use bagflow::batch::Column;
use bagflow::params::{eos_params, Param, Params};
use bagflow::source::{
    ends_source, mcap_files, source_config, Body, LogTimeError, Source, SourceError, SourceEvent,
    TopicBatch,
};
use bagflow::text_map::TextMap;

fn list(items: &[&str]) -> Vec<String> {
    items.iter().map(|s| s.to_string()).collect()
}

fn topics() -> TextMap<String> {
    let mut map = TextMap::new();
    map.insert("/imu".to_string(), "imu".to_string());
    map.insert("/camera/image".to_string(), "camera__image".to_string());
    map
}

fn batch(topic: &str, rows: usize, log_time: Column<(i64, i64)>) -> TopicBatch {
    TopicBatch { topic: topic.to_string(), rows, log_time, size: 1000 }
}

fn pairs(params: &Params) -> Vec<(&str, Param)> {
    params.entries().iter().map(|(k, v)| (k.as_str(), *v)).collect()
}

#[test]
fn a_bag_file_is_its_own_recording() {
    assert_eq!(mcap_files("/data/a.db3", true, &list(&[])).unwrap(), ["/data/a.db3"]);
}

#[test]
fn recordings_of_a_directory_come_in_order() {
    let names = list(&[
        "run_1.mcap", "metadata.yaml", "run_0.mcap", ".mcap", "mcap", "a.mcap.zst", "run_10.mcap",
        "..mcap", "x.MCAP", "amcap",
    ]);
    assert_eq!(
        mcap_files("/data/run", false, &names).unwrap(),
        ["/data/run/..mcap", "/data/run/run_0.mcap", "/data/run/run_1.mcap", "/data/run/run_10.mcap"]
    );
}

#[test]
fn extensions_are_those_of_std() {
    for name in ["a.mcap", ".mcap", "..mcap", "a..mcap", "mcap", "a.mcap.", "é.mcap", "a.Mcap"] {
        let std = std::path::Path::new(name).extension().is_some_and(|x| x == "mcap");
        assert_eq!(mcap_files("b", false, &list(&[name])).is_ok(), std, "{name}");
    }
}

#[test]
fn a_directory_without_recordings_is_refused() {
    let error = mcap_files("/data/run", false, &list(&["metadata.yaml"])).unwrap_err();
    assert_eq!(error.message(), "no .mcap files in /data/run");
}

#[test]
fn the_source_has_defaults() {
    let config = source_config(Some("/bag"), Some("{}"), None, Some("many")).unwrap();
    assert_eq!(config.bag, "/bag");
    assert_eq!(config.topics.len(), 0);
    assert_eq!(config.batch_rows, 64);
    assert_eq!(config.batch_bytes, 8 << 20);
}

#[test]
fn topics_are_read_from_json() {
    let text = r#" { "/b" : "second", "/a":"first", "/b":"third\n" } "#;
    let config = source_config(Some("/bag"), Some(text), None, None).unwrap();
    let read: Vec<(&str, &str)> =
        config.topics.entries().iter().map(|(k, v)| (k.as_str(), v.as_str())).collect();
    assert_eq!(read, [("/a", "first"), ("/b", "third\n")]);
}

#[test]
fn each_source_error_occurs() {
    assert!(matches!(source_config(None, None, None, None), Err(SourceError::BagNotSet)));
    assert!(matches!(source_config(Some("/b"), None, None, None), Err(SourceError::TopicsNotSet)));
    assert_eq!(SourceError::BagNotSet.message().unwrap(), "BAGFLOW_BAG not set");
    assert_eq!(SourceError::TopicsNotSet.message().unwrap(), "BAGFLOW_TOPICS not set");
    assert!(source_config(Some("/b"), Some("x"), None, None).unwrap_err().message().is_none());
    for text in ["", "[]", r#"{"/a":1}"#, r#"{"/a":"x""#, r#"{"/a":"x"} y"#] {
        let r = source_config(Some("/b"), Some(text), None, None);
        assert!(matches!(r, Err(SourceError::BadTopics(_))), "{text}");
    }
}

#[test]
fn batches_of_subscribed_topics_are_sent() {
    let mut source = Source::new(topics());
    let sent = source.take(&batch("/imu", 3, Column::Usable((10, 30)))).unwrap().unwrap();
    assert_eq!(sent.output, "imu");
    assert_eq!(
        pairs(&sent.params),
        [("rows", Param::Integer(3)), ("t0", Param::Integer(10)), ("t1", Param::Integer(30))]
    );
    assert!(source.take(&batch("/gps", 3, Column::Usable((1, 2)))).unwrap().is_none());
    assert!(source.take(&batch("/gps", 3, Column::Absent)).unwrap().is_none());
    assert!(source.take(&batch("/imu", 0, Column::OtherType)).unwrap().is_none());
    let end = source.finish();
    assert_eq!((end.rows, end.topics, end.bytes), (3, 1, 1000));
}

#[test]
fn batches_need_their_times() {
    let mut source = Source::new(topics());
    let absent = source.take(&batch("/imu", 3, Column::Absent)).unwrap_err();
    assert_eq!(absent, LogTimeError::Absent);
    assert_eq!(absent.message(), "no log_time column");
    let other = source.take(&batch("/imu", 3, Column::OtherType)).unwrap_err();
    assert_eq!(other, LogTimeError::OtherType);
    assert_eq!(other.message(), "log_time is not a timestamp column");
    assert_eq!(source.finish().rows, 0);
}

#[test]
fn rows_are_counted_by_topic() {
    let mut source = Source::new(topics());
    for (name, rows) in [("/imu", 3), ("/camera/image", 2), ("/imu", 4), ("/gps", 9)] {
        let b = batch(name, rows, Column::Usable((0, 1)));
        assert!(source.has_room(&b));
        source.take(&b).unwrap();
    }
    let end = source.finish();
    assert_eq!((end.rows, end.topics, end.bytes), (9, 2, 3000));
    match &end.messages[2].body {
        Body::Texts(lines) => {
            assert_eq!(lines, &[r#"{"_bagflow_source":{"/camera/image":2,"/imu":7}}"#])
        }
        Body::NoBinaries => panic!("no record"),
    }
}

#[test]
fn counts_have_an_upper_end() {
    let mut source = Source::new(topics());
    let mut b = batch("/imu", 1, Column::Usable((0, 1)));
    b.size = u64::MAX;
    assert!(source.has_room(&b));
    source.take(&b).unwrap();
    assert!(!source.has_room(&b));
    b.size = 0;
    assert!(source.has_room(&b));
    b.rows = usize::MAX;
    assert!(!source.has_room(&b));
    b.topic = "/gps".to_string();
    assert!(source.has_room(&b));
    assert!(source.take(&b).unwrap().is_none());
}

#[test]
fn every_output_is_ended() {
    let end = Source::new(topics()).finish();
    let outputs: Vec<&str> = end.messages.iter().map(|m| m.output.as_str()).collect();
    assert_eq!(outputs, ["camera__image", "imu", "result", "result"]);
    let eos = eos_params();
    assert_eq!(pairs(&eos), [("eos", Param::Bool(true))]);
    let ended: Vec<&str> = end
        .messages
        .iter()
        .filter(|m| m.params.entries() == eos.entries())
        .map(|m| m.output.as_str())
        .collect();
    assert_eq!(ended, ["camera__image", "imu", "result"]);
    assert!(matches!(end.messages[0].body, Body::NoBinaries));
    assert_eq!(end.messages[2].params.len(), 0);
    match (&end.messages[2].body, &end.messages[3].body) {
        (Body::Texts(record), Body::Texts(none)) => {
            assert_eq!(record, &[r#"{"_bagflow_source":{}}"#]);
            assert!(none.is_empty());
        }
        _ => panic!("the result holds texts"),
    }
}

#[test]
fn the_source_waits_for_done() {
    assert!(ends_source(&SourceEvent::Input("done".to_string())));
    assert!(ends_source(&SourceEvent::Stop));
    assert!(!ends_source(&SourceEvent::Input("images".to_string())));
    assert!(!ends_source(&SourceEvent::Other));
}

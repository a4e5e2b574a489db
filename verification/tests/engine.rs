use hash_graph::messages::{Addressed, AgentMessageReference, MessageMap};
use hash_graph::metaversion::{BufferChange, Metaversion};
use hash_graph::packages::{
    get_analysis_source, source_from, AnalysisSourceError, Creator, JsInitTask, MessageTarget,
    SimPackageArgs,
};
use hash_graph::worker::{Config, Worker};

#[test]
fn worker_keeps_its_index() {
    let w = Worker::new(7);
    assert_eq!(w.index(), 7);
    assert_eq!(Worker::new(0).index(), 0);
    assert_eq!(Worker::new(usize::MAX).index(), usize::MAX);
    assert!(Worker::new(1) < Worker::new(2));
    assert_eq!(Worker::new(3), Worker::new(3));
}

#[test]
fn config_holds_the_allocation() {
    let config = Config { worker_allocation: vec![Worker::new(0), Worker::new(1)], num_workers: 2 };
    assert_eq!(config.worker_allocation[1].index(), 1);
    assert_eq!(config.num_workers, 2);
}

#[test]
fn metaversion_starts_as_given() {
    let m = Metaversion::new(3, 5);
    assert_eq!(m.memory(), 3);
    assert_eq!(m.batch(), 5);
    let d = Metaversion::default();
    assert_eq!(d.memory(), 0);
    assert_eq!(d.batch(), 0);
}

#[test]
fn metaversion_increments() {
    let mut m = Metaversion::new(3, 5);
    m.increment();
    assert_eq!((m.memory(), m.batch()), (4, 6));
    m.increment_batch();
    assert_eq!((m.memory(), m.batch()), (4, 7));
    let mut n = Metaversion::new(0, 0);
    n.update(&m);
    assert_eq!((n.memory(), n.batch()), (4, 7));
}

#[test]
fn metaversion_follows_a_change() {
    let mut m = Metaversion::new(1, 1);
    m.increment_with(&BufferChange::new(false, false));
    assert_eq!((m.memory(), m.batch()), (1, 1));
    m.increment_with(&BufferChange::new(true, false));
    assert_eq!((m.memory(), m.batch()), (1, 2));
    m.increment_with(&BufferChange::new(false, true));
    assert_eq!((m.memory(), m.batch()), (2, 3));
    m.increment_with(&BufferChange::new(true, true));
    assert_eq!((m.memory(), m.batch()), (3, 4));
    let mut top = Metaversion::new(u32::MAX - 1, u32::MAX - 1);
    top.increment();
    assert_eq!((top.memory(), top.batch()), (u32::MAX, u32::MAX));
    top.increment_with(&BufferChange::new(false, false));
    assert_eq!((top.memory(), top.batch()), (u32::MAX, u32::MAX));
}

#[test]
fn buffer_change_reads_back() {
    let c = BufferChange::new(true, false);
    assert!(c.shifted());
    assert!(!c.resized());
}

#[test]
fn message_reference_reads_back() {
    let r = AgentMessageReference::new(1, 2, 3);
    assert_eq!(r.batch_index, 1);
    assert_eq!(r.agent_index, 2);
    assert_eq!(r.message_index, 3);
}

fn addressed(recipients: &[&str], reference: AgentMessageReference) -> Addressed {
    Addressed { recipients: recipients.iter().map(|s| s.to_string()).collect(), reference }
}

#[test]
fn message_map_groups_by_recipient_in_order() {
    let a = AgentMessageReference::new(0, 0, 0);
    let b = AgentMessageReference::new(0, 1, 0);
    let c = AgentMessageReference::new(1, 0, 2);
    let map = MessageMap::new(&vec![
        addressed(&["alice", "bob"], a),
        addressed(&["bob"], b),
        addressed(&[], AgentMessageReference::new(9, 9, 9)),
        addressed(&["carol", "alice"], c),
    ]);
    assert_eq!(map.get_msg_refs("alice"), &[a, c]);
    assert_eq!(map.get_msg_refs("bob"), &[a, b]);
    assert_eq!(map.get_msg_refs("carol"), &[c]);
    assert_eq!(map.get_msg_refs("dave"), &[]);
    assert_eq!(map.get_msg_refs(""), &[]);
}

#[test]
fn message_map_keeps_duplicate_recipients() {
    let a = AgentMessageReference::new(0, 0, 0);
    let map = MessageMap::new(&vec![addressed(&["alice", "alice"], a)]);
    assert_eq!(map.get_msg_refs("alice"), &[a, a]);
}

#[test]
fn message_map_of_nothing_is_empty() {
    let map = MessageMap::new(&vec![]);
    assert_eq!(map.get_msg_refs("alice"), &[]);
}

#[test]
fn js_init_task_starts_on_the_javascript_runner() {
    let task = JsInitTask { initial_state_source: "const init = () => [];".to_string() };
    let message = task.start_message();
    assert_eq!(message.target, MessageTarget::JavaScript);
    assert_eq!(message.payload.initial_state_source, "const init = () => [];");
}

fn package(name: &str, data: serde_json::Value) -> SimPackageArgs {
    SimPackageArgs { name: name.to_string(), data }
}

#[test]
fn analysis_source_is_the_data_of_the_analysis_package() {
    let packages = vec![
        package("other", serde_json::Value::String("not this".to_string())),
        package("analysis", serde_json::Value::String("{\"outputs\":{}}".to_string())),
        package("analysis", serde_json::Value::String("nor this".to_string())),
    ];
    assert_eq!(get_analysis_source(&packages), Ok("{\"outputs\":{}}".to_string()));
    assert_eq!(Creator::new().analysis_source(&packages), Ok("{\"outputs\":{}}".to_string()));
}

#[test]
fn analysis_source_must_be_a_string() {
    for data in [
        serde_json::Value::Null,
        serde_json::Value::Bool(true),
        serde_json::Value::from(3),
        serde_json::Value::Array(vec![serde_json::Value::String("x".to_string())]),
    ] {
        let packages = vec![
            package("analysis", data),
            package("analysis", serde_json::Value::String("later".to_string())),
        ];
        assert_eq!(get_analysis_source(&packages), Err(AnalysisSourceError::NotAString));
    }
    assert_eq!(
        AnalysisSourceError::NotAString.to_string(),
        "Analysis source must be a string"
    );
}

#[test]
fn analysis_source_may_be_missing() {
    assert_eq!(get_analysis_source(&[]), Err(AnalysisSourceError::NotFound));
    let packages = vec![package("Analysis", serde_json::Value::String("x".to_string()))];
    assert_eq!(get_analysis_source(&packages), Err(AnalysisSourceError::NotFound));
    assert_eq!(AnalysisSourceError::NotFound.to_string(), "Did not find analysis source");
}

#[test]
fn analysis_source_may_be_the_empty_string() {
    let packages = vec![package("analysis", serde_json::Value::String(String::new()))];
    assert_eq!(get_analysis_source(&packages), Ok(String::new()));
}

#[test]
fn source_from_text() {
    assert_eq!(source_from(Some("abc".to_string())), Ok("abc".to_string()));
    assert_eq!(source_from(None), Err(AnalysisSourceError::NotAString));
}

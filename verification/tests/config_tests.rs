use tangled::config::Config;
use tangled::config_inner::ConfigInner;
use tangled::indexing_mode::IndexingMode;
use tangled::request_loop::{SpinTime, WakeType};

#[test]
fn wake_type_default_is_request() {
    assert_eq!(WakeType::default(), WakeType::Request);
    assert_ne!(WakeType::RequestSpin(Some(SpinTime::Seconds(3))), WakeType::Request);
}

#[test]
fn config_inner_default_is_insertion_heavy() {
    let c: ConfigInner<u8> = ConfigInner::default();
    assert!(format!("{:?}", c).contains("InsertionHeavy"));
    let a: ConfigInner<u8> = ConfigInner::new(IndexingMode::AppendHeavy);
    assert!(format!("{:?}", a).contains("AppendHeavy"));
}

#[test]
fn config_new_uses_available_parallelism() {
    let c: Config<u8> = Config::new(2, IndexingMode::AppendHeavy, WakeType::SlowSpin, 8);
    let text = format!("{:?}", c);
    assert!(text.contains("max_thread_count: 8"));
    assert!(text.contains("SlowSpin"));
    assert!(text.contains("AppendHeavy"));
}

#[test]
fn config_default_values() {
    let c: Config<u8> = Config::with_parallelism(4);
    let text = format!("{:?}", c);
    assert!(text.contains("loop_type: Request"));
    assert!(text.contains("max_thread_count: 4"));
    assert!(text.contains("InsertionHeavy"));
}

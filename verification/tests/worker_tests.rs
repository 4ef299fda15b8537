use crossbeam_channel::{unbounded, RecvError};
use tangled::borrow::{get_command, handle_reply, push_command, push_outcome, read_outcome, WorkerError};
use tangled::commands::{IndexType, ReqOrder, RequestRequirements, TangledCommands};
use tangled::config_inner::ConfigInner;
use tangled::handle::RefHandle;
use tangled::indexing_mode::IndexingMode;
use tangled::borrow_state::BorrowState;
use tangled::tangled::Tangled;
use tangled::tangled_indexing::TangledIndex;
use tangled::tangled_inner::TangledInner;
use tangled::worker::Worker;

#[test]
fn handle_reply_maps_failure_to_none() {
    assert_eq!(handle_reply::<u8>(Ok(Some(3))), Some(3));
    assert_eq!(handle_reply::<u8>(Ok(None)), None);
    assert_eq!(handle_reply::<u8>(Err(RecvError)), None);
}

#[test]
fn get_command_shape() {
    let (tx, _rx) = unbounded::<Option<u8>>();
    match get_command(5, tx) {
        TangledCommands::Get { request_requirements, index, order, .. } => {
            assert_eq!(request_requirements, RequestRequirements::Nothing);
            assert_eq!(index, IndexType::Direct(5));
            assert!(matches!(order, ReqOrder::Relaxed));
        }
        _ => panic!("wrong command"),
    }
    match push_command(9u8) {
        TangledCommands::Push { value, .. } => assert_eq!(value, 9),
        _ => panic!("wrong command"),
    }
}

#[test]
fn worker_get_on_disconnected_owner() {
    let (tx, rx) = unbounded::<TangledCommands<u8>>();
    drop(rx);
    let w = Worker::new(tx);
    assert_eq!(w.borrow().get(0), Err(WorkerError::Disconnected));
}

#[test]
fn worker_push_delivers_command() {
    let (tx, rx) = unbounded::<TangledCommands<u8>>();
    let mut w = Worker::new(tx);
    assert_eq!(w.borrow_mut().push(7), Ok(()));
    match rx.try_recv() {
        Ok(TangledCommands::Push { value, .. }) => assert_eq!(value, 7),
        _ => panic!("no push received"),
    }
    drop(rx);
    assert_eq!(w.borrow_mut().push(8), Err(WorkerError::Disconnected));
}

#[test]
fn tangled_inner_new_is_empty() {
    let (tx, _rx) = unbounded::<TangledCommands<u8>>();
    let _inner: TangledInner<u8> = TangledInner::new(ConfigInner::new(IndexingMode::AppendHeavy), tx);
}

#[test]
fn flat_to_indextype_on_empty_prefix() {
    let idx: TangledIndex<u8> = TangledIndex::new(IndexingMode::AppendHeavy);
    assert_eq!(idx.flat_to_indextype(7), (IndexType::Rough(0), IndexType::Direct(7)));
    let _ins: TangledIndex<u8> = TangledIndex::new(IndexingMode::InsertionHeavy);
}

#[test]
fn value_handle_bundles_parts() {
    let t = Tangled::from(vec![1u8]);
    let v = 5u8;
    let _h = RefHandle::new(&t, BorrowState::Shared(1), &v);
}

#[test]
fn read_outcome_cases() {
    assert_eq!(read_outcome::<u8>(None), Err(WorkerError::Disconnected));
    assert_eq!(read_outcome::<u8>(Some(Ok(Some(4)))), Ok(Some(4)));
    assert_eq!(read_outcome::<u8>(Some(Ok(None))), Ok(None));
    assert_eq!(read_outcome::<u8>(Some(Err(RecvError))), Ok(None));
}

#[test]
fn push_outcome_cases() {
    assert_eq!(push_outcome(true), Ok(()));
    assert_eq!(push_outcome(false), Err(WorkerError::Disconnected));
}

#[test]
fn flat_to_indextype_on_prefix_table() {
    let mut idx: TangledIndex<u8> = TangledIndex::new(IndexingMode::AppendHeavy);
    idx.set_append_table(vec![2, 5, 9]);
    assert_eq!(idx.flat_to_indextype(2), (IndexType::Rough(0), IndexType::Direct(2)));
    assert_eq!(idx.flat_to_indextype(5), (IndexType::Rough(1), IndexType::Direct(3)));
    assert_eq!(idx.flat_to_indextype(9), (IndexType::Rough(2), IndexType::Direct(4)));
}

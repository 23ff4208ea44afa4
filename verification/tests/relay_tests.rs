use ruuvitag_upload::relay::{Outcome, Relay, RelayAction, exit_code};
use ruuvitag_upload::store::StoreScan;

fn names(v: &[&str]) -> Vec<String> {
    v.iter().map(|s| s.to_string()).collect()
}

#[test]
fn test_no_sink_emits_and_finishes() {
    let (mut relay, action) = Relay::start(false);
    assert_eq!(action, RelayAction::EmitFresh);
    let action = relay.on_result(true);
    assert_eq!(action, RelayAction::Finish(Outcome::Delivered));
    assert_eq!(exit_code(Outcome::Delivered), 0);
}

#[test]
fn test_unreachable_sink_caches_fresh_batch() {
    let (mut relay, action) = Relay::start(true);
    assert_eq!(action, RelayAction::ScanStore);
    let action = relay.on_listing(&StoreScan::Missing);
    assert_eq!(action, RelayAction::UploadFresh);
    // the sink cannot be reached: the fresh batch goes to the store
    let action = relay.on_result(false);
    assert_eq!(action, RelayAction::PersistFresh);
    let action = relay.on_result(true);
    assert_eq!(action, RelayAction::Finish(Outcome::CachedLocally));
    // delivery failure with successful caching is not a process error
    assert_eq!(exit_code(Outcome::CachedLocally), 0);
}

#[test]
fn test_pending_then_fresh_in_order() {
    let (mut relay, action) = Relay::start(true);
    assert_eq!(action, RelayAction::ScanStore);
    let action = relay.on_listing(&StoreScan::Listed(names(&["1234.json"])));
    assert_eq!(action, RelayAction::UploadPending(1234));
    let action = relay.on_result(true);
    assert_eq!(action, RelayAction::RemovePending(1234));
    let action = relay.on_result(true);
    assert_eq!(action, RelayAction::UploadFresh);
    let action = relay.on_result(true);
    assert_eq!(action, RelayAction::Finish(Outcome::Delivered));
}

#[test]
fn test_pending_drained_oldest_first() {
    let (mut relay, _) = Relay::start(true);
    let action = relay.on_listing(&StoreScan::Listed(names(&["20.json", "10.json"])));
    assert_eq!(action, RelayAction::UploadPending(10));
    assert_eq!(relay.on_result(true), RelayAction::RemovePending(10));
    assert_eq!(relay.on_result(true), RelayAction::UploadPending(20));
    assert_eq!(relay.on_result(true), RelayAction::RemovePending(20));
    assert_eq!(relay.on_result(true), RelayAction::UploadFresh);
    assert_eq!(relay.on_result(true), RelayAction::Finish(Outcome::Delivered));
}

#[test]
fn test_drain_failure_skips_fresh_attempt_and_caches() {
    let (mut relay, _) = Relay::start(true);
    let action = relay.on_listing(&StoreScan::Listed(names(&["1234.json"])));
    assert_eq!(action, RelayAction::UploadPending(1234));
    // the pending delivery failed: the drain aborts and the fresh batch is
    // cached without a delivery attempt of its own
    let action = relay.on_result(false);
    assert_eq!(action, RelayAction::PersistFresh);
    let action = relay.on_result(true);
    assert_eq!(action, RelayAction::Finish(Outcome::CachedLocally));
}

#[test]
fn test_unreadable_store_caches_fresh_batch() {
    let (mut relay, _) = Relay::start(true);
    let action = relay.on_listing(&StoreScan::Failed);
    assert_eq!(action, RelayAction::PersistFresh);
    let action = relay.on_result(true);
    assert_eq!(action, RelayAction::Finish(Outcome::CachedLocally));
}

#[test]
fn test_cache_failure_is_fatal() {
    let (mut relay, _) = Relay::start(true);
    let _ = relay.on_listing(&StoreScan::Missing);
    let _ = relay.on_result(false);
    let action = relay.on_result(false);
    assert_eq!(action, RelayAction::Finish(Outcome::FatalIoFailure));
    assert_eq!(exit_code(Outcome::FatalIoFailure), 1);
}

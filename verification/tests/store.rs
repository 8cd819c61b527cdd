use koshelf::store::{SiteStore, UpdateNotifier};

#[test]
fn publish_increments_revision() {
    let mut notifier = UpdateNotifier::new(
        "serve_2026-03-11T11:00:00Z".to_string(),
        "2026-03-11T11:00:00Z".to_string(),
    );

    let first = notifier.publish("2026-03-11T11:01:00Z".to_string());
    assert_eq!(first.revision_epoch, "serve_2026-03-11T11:00:00Z");
    assert_eq!(first.revision, 1);

    let second = notifier.publish("2026-03-11T11:02:00Z".to_string());
    assert_eq!(second.revision, 2);
}

#[test]
fn initial_state_has_zero_revision() {
    let notifier = UpdateNotifier::new("serve_epoch".to_string(), "2026-03-11T11:00:00Z".to_string());

    let initial = notifier.latest();

    assert_eq!(initial.revision_epoch, "serve_epoch");
    assert_eq!(initial.revision, 0);
    assert_eq!(initial.generated_at, "2026-03-11T11:00:00Z");
}

#[test]
fn latest_follows_publish() {
    let mut notifier = UpdateNotifier::new("e".to_string(), "t0".to_string());
    notifier.publish("t1".to_string());
    let latest = notifier.latest();
    assert_eq!(latest.revision, 1);
    assert_eq!(latest.generated_at, "t1");
}

#[test]
fn site_store_gives_back_what_was_replaced() {
    let mut store: SiteStore<String> = SiteStore::new();
    assert!(store.get().is_none());
    store.replace("first".to_string());
    assert_eq!(store.get().as_deref().map(|s| s.as_str()), Some("first"));
    store.replace("second".to_string());
    assert_eq!(store.get().as_deref().map(|s| s.as_str()), Some("second"));
}

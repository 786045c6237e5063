use librmrfd::{Rmrfd, RmrfdBuilder, RmrfdError};

#[test]
fn rmrfd_smoke() {
    let rmrfd: Rmrfd<()> = Rmrfd::<()>::build()
        .with_min_blockcount(64)
        .with_inventory_threads(1)
        .start();
    assert!(!rmrfd.is_armed());
}

#[test]
fn every_setting_but_arm_disarms() {
    let armed: Rmrfd<()> = RmrfdBuilder::default().arm(true).start();
    assert!(armed.is_armed());
    let rmrfd: Rmrfd<()> = RmrfdBuilder::default().arm(true).with_gather_threads(8).start();
    assert!(!rmrfd.is_armed());
    let rmrfd: Rmrfd<()> = RmrfdBuilder::default().arm(true).with_inventory_backlog(8).start();
    assert!(!rmrfd.is_armed());
    let rmrfd: Rmrfd<()> = RmrfdBuilder::default().arm(true).with_inventory_threads(2).start();
    assert!(!rmrfd.is_armed());
    let rmrfd: Rmrfd<()> = RmrfdBuilder::default().arm(true).with_min_blockcount(1).start();
    assert!(!rmrfd.is_armed());
    let rmrfd: Rmrfd<()> = RmrfdBuilder::default()
        .arm(true)
        .add_dir(b"/tmp/x", true, 3)
        .unwrap()
        .start();
    assert!(!rmrfd.is_armed());
    let rmrfd: Rmrfd<()> = RmrfdBuilder::default().with_gather_threads(8).arm(true).arm(false).start();
    assert!(!rmrfd.is_armed());
}

#[test]
fn only_directories_are_registered() {
    let r = RmrfdBuilder::default().add_dir(b"/etc/passwd", false, 1);
    assert!(matches!(r, Err(RmrfdError::NotADirectory)));
    let rmrfd: Rmrfd<()> = RmrfdBuilder::default()
        .add_dir(b"/srv/a", true, 10)
        .unwrap()
        .add_dir(b"/srv/b", true, 11)
        .unwrap()
        .add_dir(b"/srv/a", true, 12)
        .unwrap()
        .start();
    assert_eq!(rmrfd.watched_device(b"/srv/a"), Some(12));
    assert_eq!(rmrfd.watched_device(b"/srv/b"), Some(11));
    assert_eq!(rmrfd.watched_device(b"/srv/c"), None);
}

#[test]
fn the_daemon_starts_idle_with_the_configured_filter() {
    let rmrfd: Rmrfd<()> = RmrfdBuilder::default()
        .with_min_blockcount(1024)
        .with_gather_threads(3)
        .with_inventory_backlog(7)
        .start();
    let (mut gatherer, inventory) = rmrfd.into_parts();
    assert_eq!(gatherer.num_threads(), 3);
    assert_eq!(gatherer.inventory_backlog(), 7);
    assert!(gatherer.next_work().is_none());
    assert!(inventory.is_empty());
}

use librmrfd::inventory_gatherer::{directory_priority, ROOT_PRIORITY};
use librmrfd::{
    DirEntry, DirectoryGatherMessage, EntryAction, EntryMetadata, ErrorKind, InternedName,
    Inventory, InventoryEntriesMessage, InventoryGatherer, InventoryKey, ObjectPath, Order,
    QueueEntry, SimpleType, WorkEvent, WorkState, WorkerStep,
};
use std::sync::Arc;

#[test]
fn inventory_smoke() {
    let inventory = Inventory::new(64);
    assert!(inventory.is_empty());
    assert!(!inventory.is_done());
}

#[test]
fn inventory_gatherer_smoke() {
    let gatherer: InventoryGatherer<()> = InventoryGatherer::new(64, 1, 128);
    assert_eq!(gatherer.num_threads(), 1);
    assert_eq!(gatherer.inventory_backlog(), 128);
    assert_eq!(gatherer.pending_entries(), 0);
    assert!(gatherer.can_queue());
}

#[test]
fn priority_packs_depth_and_inode() {
    assert_eq!(directory_priority(0, 0), 0xffff_0000_0000_0000);
    assert_eq!(directory_priority(1, 42), 0xfffe_0000_0000_002a);
    assert_eq!(directory_priority(0xffff, 7), 7);
    assert_eq!(directory_priority(3, 0x0000_ffff_ffff_ffff), 0xfffc_ffff_ffff_ffff);
    assert_eq!(ROOT_PRIORITY, u64::MAX);
}

#[test]
fn deeper_directories_and_smaller_inodes_come_first() {
    assert!(directory_priority(5, 1_000_000) < directory_priority(4, 1));
    assert!(directory_priority(2, 10) < directory_priority(2, 11));
    assert!(directory_priority(1, 0x0000_ffff_ffff_ffff) < ROOT_PRIORITY);
    assert!(directory_priority(0, 0x0000_ffff_ffff_ffff) <= ROOT_PRIORITY);
}

#[test]
fn inventory_keys_are_ordered_by_blocks_then_inode() {
    let small = InventoryKey::new(8, 900);
    let big = InventoryKey::new(1024, 1);
    let big_later = InventoryKey::new(1024, 2);
    assert!(small < big);
    assert!(big < big_later);
    assert!(big_later > small);
    assert!(big == InventoryKey::new(1024, 1));
    assert_eq!(small.compare(&big), Order::Less);
    assert_eq!(big_later.compare(&big), Order::Greater);
    assert_eq!(big.compare(&big), Order::Equal);
}

#[test]
fn gather_message_carries_the_parent_handle() {
    let message: DirectoryGatherMessage<u32> = DirectoryGatherMessage::new_dir(ObjectPath::new(b"d"));
    assert!(matches!(
        message,
        DirectoryGatherMessage::TraverseDirectory { parent_dir: None, .. }
    ));
    let message = message.with_parent(Arc::new(17));
    match message {
        DirectoryGatherMessage::TraverseDirectory { path, parent_dir } => {
            assert_eq!(path.to_pathbuf(), b"d".to_vec());
            assert_eq!(*parent_dir.unwrap(), 17);
        }
    }
}

#[test]
fn a_broken_entry_is_an_error() {
    let mut gatherer: InventoryGatherer<u8> = InventoryGatherer::new(64, 1, 1);
    let r = gatherer.process_entry(None, Arc::new(0), ObjectPath::new(b"/r"));
    assert_eq!(r, Err(ErrorKind::InvalidEntry));
    assert!(gatherer.next_work().is_none());
}

#[test]
fn a_directory_entry_is_queued_with_its_parent_handle() {
    let mut gatherer: InventoryGatherer<u8> = InventoryGatherer::new(64, 1, 1);
    let entry = DirEntry { name: b"sub".to_vec(), file_type: Some(SimpleType::Dir), inode: 99 };
    let r = gatherer.process_entry(Some(&entry), Arc::new(5), ObjectPath::new(b"/r"));
    assert_eq!(r, Ok(EntryAction::Queued));
    let guard = gatherer.next_work().unwrap();
    match guard.entry() {
        QueueEntry::Item(DirectoryGatherMessage::TraverseDirectory { path, parent_dir }, prio) => {
            assert_eq!(path.to_pathbuf(), b"/r/sub".to_vec());
            assert_eq!(**parent_dir.as_ref().unwrap(), 5);
            assert_eq!(*prio, 0xfffe_0000_0000_0063);
        }
        _ => panic!("expected a directory"),
    }
    match gatherer.worker_step(&guard) {
        WorkerStep::OpenAt { parent, path } => {
            assert_eq!(*parent, 5);
            assert_eq!(path.name().as_bytes(), b"sub");
        }
        _ => panic!("expected a relative open"),
    }
    gatherer.finish(guard);
    let guard = gatherer.next_work().unwrap();
    assert!(matches!(
        gatherer.worker_step(&guard),
        WorkerStep::Emit(InventoryEntriesMessage::Done)
    ));
    gatherer.finish(guard);
    assert!(gatherer.next_work().is_none());
}

#[test]
fn other_entries_need_their_metadata() {
    let mut gatherer: InventoryGatherer<u8> = InventoryGatherer::new(64, 1, 1);
    for file_type in [None, Some(SimpleType::File), Some(SimpleType::Symlink), Some(SimpleType::Other)] {
        let entry = DirEntry { name: b"f".to_vec(), file_type, inode: 1 };
        let r = gatherer.process_entry(Some(&entry), Arc::new(0), ObjectPath::new(b"/r"));
        assert_eq!(r, Ok(EntryAction::Stat));
    }
    assert!(gatherer.next_work().is_none());
}

#[test]
fn metadata_is_filtered_by_block_count() {
    let mut gatherer: InventoryGatherer<u8> = InventoryGatherer::new(64, 1, 1);
    let entry = DirEntry { name: b"f".to_vec(), file_type: Some(SimpleType::File), inode: 11 };
    let root = ObjectPath::new(b"/r");

    let r = gatherer.process_metadata(&entry, root.clone(), None);
    assert!(matches!(r, Err(ErrorKind::StatFailed)));

    let small = EntryMetadata { dev: Some(3), blocks: Some(63) };
    assert!(matches!(gatherer.process_metadata(&entry, root.clone(), Some(small)), Ok(None)));

    let unknown = EntryMetadata { dev: Some(3), blocks: None };
    assert!(matches!(gatherer.process_metadata(&entry, root.clone(), Some(unknown)), Ok(None)));
    assert_eq!(gatherer.pending_entries(), 0);

    let exact = EntryMetadata { dev: Some(3), blocks: Some(64) };
    match gatherer.process_metadata(&entry, root.clone(), Some(exact)) {
        Ok(Some(InventoryEntriesMessage::Entry(dev, key, path))) => {
            assert_eq!(dev, 3);
            assert_eq!(key, InventoryKey::new(64, 11));
            assert_eq!(path.to_pathbuf(), b"/r/f".to_vec());
        }
        _ => panic!("expected an entry"),
    }
    assert_eq!(gatherer.pending_entries(), 1);

    let no_device = EntryMetadata { dev: None, blocks: Some(5000) };
    match gatherer.process_metadata(&entry, root, Some(no_device)) {
        Ok(Some(InventoryEntriesMessage::Entry(dev, key, _))) => {
            assert_eq!(dev, 0);
            assert_eq!(key, InventoryKey::new(5000, 11));
        }
        _ => panic!("expected an entry"),
    }
    assert_eq!(gatherer.pending_entries(), 2);
    gatherer.entry_consumed();
    assert_eq!(gatherer.pending_entries(), 1);
}

#[test]
fn a_submitted_root_is_opened_by_its_full_path() {
    let mut gatherer: InventoryGatherer<u8> = InventoryGatherer::new(0, 1, 1);
    gatherer.load_dir_recursive(ObjectPath::new(b"/srv").subobject(InternedName::new(b"tree")));
    let guard = gatherer.next_work().unwrap();
    assert_eq!(guard.entry().priority(), Some(&u64::MAX));
    match gatherer.worker_step(&guard) {
        WorkerStep::Open { path, full_path } => {
            assert_eq!(full_path, b"/srv/tree".to_vec());
            assert_eq!(path.depth(), 1);
        }
        _ => panic!("expected an absolute open"),
    }
    gatherer.finish(guard);
}

#[test]
fn errors_are_counted_and_described() {
    let mut gatherer: InventoryGatherer<u8> = InventoryGatherer::new(0, 1, 1);
    let message = gatherer.send_error(ObjectPath::new(b"/x"), ErrorKind::OpenFailed);
    match message {
        InventoryEntriesMessage::Error(path, kind) => {
            assert_eq!(path.to_pathbuf(), b"/x".to_vec());
            assert_eq!(kind, ErrorKind::OpenFailed);
        }
        _ => panic!("expected an error"),
    }
    assert_eq!(gatherer.pending_entries(), 1);
    assert_eq!(ErrorKind::InvalidEntry.describe(), "Invalid directory entry");
    assert_eq!(ErrorKind::OpenFailed.describe(), "Could not open");
    assert_eq!(ErrorKind::StatFailed.describe(), "Failed get metadata");
    assert_eq!(ErrorKind::EnumerationFailed.describe(), "Could not iterate");
    assert_eq!(ErrorKind::ChannelClosed.describe(), "Output channel closed");
    assert!(ErrorKind::StatFailed.is_recoverable());
    assert!(ErrorKind::EnumerationFailed.is_recoverable());
    assert!(!ErrorKind::ChannelClosed.is_recoverable());
}

#[test]
fn inventory_drops_what_is_below_the_minimum() {
    let mut inventory = Inventory::new(64);
    assert!(!inventory.insert(1, InventoryKey::new(63, 5), ObjectPath::new(b"small")));
    assert!(inventory.is_empty());
    assert!(inventory.insert(1, InventoryKey::new(64, 5), ObjectPath::new(b"enough")));
    assert_eq!(inventory.len(), 1);
    for (_, key) in inventory.deletion_order() {
        assert!(key.blocks >= 64);
    }
}

#[test]
fn inventory_groups_hard_links_under_one_key() {
    let mut inventory = Inventory::new(0);
    let key = InventoryKey::new(1024, 77);
    inventory.insert(8, key, ObjectPath::new(b"/root").subobject(InternedName::new(b"a")));
    inventory.insert(
        8,
        key,
        ObjectPath::new(b"/root")
            .subobject(InternedName::new(b"dir"))
            .subobject(InternedName::new(b"b")),
    );
    // the same path again is not another alias
    inventory.insert(8, key, ObjectPath::new(b"/root").subobject(InternedName::new(b"a")));
    // the same inode on another device is another object
    inventory.insert(9, key, ObjectPath::new(b"/mnt").subobject(InternedName::new(b"a")));
    assert_eq!(inventory.len(), 2);
    let list = inventory.objects(8, key).unwrap();
    assert_eq!(list.len(), 2);
    assert_eq!(list.get(0).unwrap().to_pathbuf(), b"/root/a".to_vec());
    assert_eq!(list.get(1).unwrap().to_pathbuf(), b"/root/dir/b".to_vec());
    assert_eq!(inventory.objects(9, key).unwrap().len(), 1);
    assert!(inventory.objects(8, InventoryKey::new(1024, 78)).is_none());
    assert!(inventory.objects(7, key).is_none());
}

#[test]
fn deletion_order_puts_the_largest_first_on_every_device() {
    let mut inventory = Inventory::new(0);
    let objects: [(u64, u64, u64); 6] =
        [(1, 10, 5), (2, 500, 1), (1, 700, 9), (1, 10, 4), (2, 20, 3), (1, 700, 2)];
    for (device, blocks, ino) in objects.iter() {
        inventory.insert(*device, InventoryKey::new(*blocks, *ino), ObjectPath::new(b"p"));
    }
    assert_eq!(
        inventory.deletion_order(),
        vec![
            (2, InventoryKey::new(500, 1)),
            (2, InventoryKey::new(20, 3)),
            (1, InventoryKey::new(700, 9)),
            (1, InventoryKey::new(700, 2)),
            (1, InventoryKey::new(10, 5)),
            (1, InventoryKey::new(10, 4)),
        ]
    );
}

#[test]
fn inventory_receives_the_output_of_the_gatherer() {
    let mut inventory = Inventory::new(64);
    let done = inventory.receive(InventoryEntriesMessage::Entry(
        1,
        InventoryKey::new(100, 2),
        ObjectPath::new(b"kept"),
    ));
    assert!(!done);
    let done = inventory.receive(InventoryEntriesMessage::Entry(
        1,
        InventoryKey::new(1, 3),
        ObjectPath::new(b"dropped"),
    ));
    assert!(!done);
    let done = inventory.receive(InventoryEntriesMessage::Error(
        ObjectPath::new(b"locked"),
        ErrorKind::OpenFailed,
    ));
    assert!(!done);
    assert!(!inventory.is_done());
    assert!(inventory.receive(InventoryEntriesMessage::Done));
    assert!(inventory.is_done());
    assert_eq!(inventory.len(), 1);
    assert_eq!(inventory.error_count(), 1);
    let (path, kind) = inventory.error_at(0).unwrap();
    assert_eq!(path.to_pathbuf(), b"locked".to_vec());
    assert_eq!(kind, ErrorKind::OpenFailed);
    assert!(inventory.error_at(1).is_none());
}

#[test]
fn a_directory_goes_back_on_the_queue_when_descriptors_run_out() {
    let mut gatherer: InventoryGatherer<u8> = InventoryGatherer::new(0, 1, 1);
    let entry = DirEntry { name: b"sub".to_vec(), file_type: Some(SimpleType::Dir), inode: 9 };
    gatherer
        .process_entry(Some(&entry), Arc::new(5), ObjectPath::new(b"/r"))
        .unwrap();
    let guard = gatherer.next_work().unwrap();
    let path = match gatherer.worker_step(&guard) {
        WorkerStep::OpenAt { path, .. } => path,
        _ => panic!("expected a relative open"),
    };
    assert!(gatherer.open_failed(&guard, path.clone(), true).is_none());
    assert_eq!(gatherer.pending_entries(), 0);
    gatherer.finish(guard);
    // the same directory comes again, with the same priority and handle
    let guard = gatherer.next_work().unwrap();
    match guard.entry() {
        QueueEntry::Item(DirectoryGatherMessage::TraverseDirectory { path, parent_dir }, prio) => {
            assert_eq!(path.to_pathbuf(), b"/r/sub".to_vec());
            assert_eq!(**parent_dir.as_ref().unwrap(), 5);
            assert_eq!(*prio, 0xfffe_0000_0000_0009);
        }
        _ => panic!("expected a directory"),
    }
    // any other failure is reported
    match gatherer.open_failed(&guard, path, false) {
        Some(InventoryEntriesMessage::Error(path, kind)) => {
            assert_eq!(path.to_pathbuf(), b"/r/sub".to_vec());
            assert_eq!(kind, ErrorKind::OpenFailed);
        }
        _ => panic!("expected an error"),
    }
    assert_eq!(gatherer.pending_entries(), 1);
    gatherer.finish(guard);
    let guard = gatherer.next_work().unwrap();
    assert!(guard.entry().is_drained());
    // the marker is not a directory: nothing to queue again
    gatherer.requeue(&guard);
    gatherer.finish(guard);
    assert!(gatherer.next_work().is_none());
}

#[test]
fn the_gatherer_interns_the_names_it_sees() {
    let mut gatherer: InventoryGatherer<u8> = InventoryGatherer::new(0, 1, 1);
    assert_eq!(gatherer.interned_names(), 0);
    let root = ObjectPath::new(b"/r");
    for name in [&b"a"[..], b"b", b"a", b"a", b"c", b"b"] {
        let entry = DirEntry { name: name.to_vec(), file_type: Some(SimpleType::Dir), inode: 1 };
        gatherer.process_entry(Some(&entry), Arc::new(0), root.clone()).unwrap();
    }
    assert_eq!(gatherer.interned_names(), 3);
    let file = DirEntry { name: b"d".to_vec(), file_type: None, inode: 2 };
    let metadata = EntryMetadata { dev: Some(1), blocks: Some(1) };
    gatherer.process_metadata(&file, root, Some(metadata)).unwrap();
    assert_eq!(gatherer.interned_names(), 4);
}

#[test]
fn work_states_follow_the_two_paths_from_the_queue() {
    let state = WorkState::Queued;
    assert!(!state.is_final());
    let opened = state.advance(WorkEvent::Opened).unwrap();
    assert_eq!(opened, WorkState::Opened);
    let listing = opened.advance(WorkEvent::Listing).unwrap();
    assert_eq!(listing, WorkState::Enumerating);
    assert!(!listing.is_final());
    let finished = listing.advance(WorkEvent::EndOfDirectory).unwrap();
    assert_eq!(finished, WorkState::Finished);
    assert!(finished.is_final());

    assert_eq!(state.advance(WorkEvent::OpenFailed), Some(WorkState::FailedOpen));
    assert_eq!(opened.advance(WorkEvent::ListFailed), Some(WorkState::FailedEnumerate));
    assert!(WorkState::FailedOpen.is_final());
    assert!(WorkState::FailedEnumerate.is_final());

    assert_eq!(state.advance(WorkEvent::Listing), None);
    assert_eq!(state.advance(WorkEvent::EndOfDirectory), None);
    assert_eq!(opened.advance(WorkEvent::Opened), None);
    assert_eq!(listing.advance(WorkEvent::ListFailed), None);
    for event in [
        WorkEvent::Opened,
        WorkEvent::OpenFailed,
        WorkEvent::Listing,
        WorkEvent::ListFailed,
        WorkEvent::EndOfDirectory,
    ] {
        assert_eq!(finished.advance(event), None);
        assert_eq!(WorkState::FailedOpen.advance(event), None);
        assert_eq!(WorkState::FailedEnumerate.advance(event), None);
    }
}

use dh_vmm::kvm::KvmError;
use dh_vmm::dirty::{harvest_entry, DirtyPageSet, DIRTY_GFN_F_DIRTY, DIRTY_GFN_F_RESET};

#[test]
fn page_set_inserts_iterates_ascending_and_clears() {
    let mut s = DirtyPageSet::new(128 * 1024 * 1024);
    assert!(s.is_empty());
    for idx in [9u64, 2, 5, 2, 32767] {
        s.insert(idx).unwrap();
    }
    assert_eq!(s.len(), 4);
    assert!(s.contains(2) && s.contains(5) && s.contains(9) && s.contains(32767));
    assert!(!s.contains(3));
    assert_eq!(s.iter(), vec![2, 5, 9, 32767]);
    assert!(s.insert(32768).is_err());
    s.clear();
    assert!(s.is_empty());
    assert_eq!(s.iter().len(), 0);
}

#[test]
fn page_set_handles_non_page_multiple_ram() {
    let s = DirtyPageSet::new(4096 * 3 + 1);
    assert_eq!(s.pages(), 4);
}

#[test]
fn insert_reports_whether_the_page_was_new() {
    let mut s = DirtyPageSet::new(4096 * 100);
    assert_eq!(s.insert(7).unwrap(), true);
    assert_eq!(s.insert(7).unwrap(), false);
    assert_eq!(s.len(), 1);
}

#[test]
fn harvest_entry_marks_dirty_pages_and_stops_on_unpublished_entries() {
    let mut s = DirtyPageSet::new(4096 * 16);
    assert_eq!(harvest_entry(&mut s, DIRTY_GFN_F_DIRTY, 0, 3).unwrap(), true);
    assert!(s.contains(3));
    assert_eq!(harvest_entry(&mut s, DIRTY_GFN_F_RESET, 0, 5).unwrap(), false);
    assert!(!s.contains(5));
    assert_eq!(harvest_entry(&mut s, 0, 0, 6).unwrap(), false);
    assert_eq!(s.iter(), vec![3]);
}

#[test]
fn harvest_entry_refuses_foreign_slots_and_pages_beyond_ram() {
    let mut s = DirtyPageSet::new(4096 * 16);
    assert!(harvest_entry(&mut s, DIRTY_GFN_F_DIRTY, 1, 3).is_err());
    assert!(harvest_entry(&mut s, DIRTY_GFN_F_DIRTY, 0, 16).is_err());
    assert!(s.is_empty());
}

#[test]
fn count_follows_new_pages_and_matches_the_listing() {
    let mut s = DirtyPageSet::new(10 * 4096 + 1);
    assert_eq!(s.len(), 0);
    assert!(s.is_empty());
    assert_eq!(s.insert(3), Ok(true));
    assert_eq!(s.len(), 1);
    assert_eq!(s.insert(3), Ok(false));
    assert_eq!(s.len(), 1);
    assert_eq!(s.insert(10), Ok(true));
    assert_eq!(s.len(), 2);
    assert!(s.insert(11).is_err());
    assert_eq!(s.len(), 2);
    assert!(!s.contains(11) && s.contains(3) && !s.contains(4));
    assert_eq!(s.iter().len() as u64, s.len());
    assert_eq!(s.iter(), vec![3, 10]);
}

#[test]
fn refusals_name_the_page_and_the_slot() {
    let mut s = DirtyPageSet::new(16 * 4096);
    assert_eq!(
        s.insert(0x10),
        Err(KvmError::Memory("dirty gfn 0x10 beyond guest RAM (16 pages)".to_string()))
    );
    assert_eq!(
        harvest_entry(&mut s, DIRTY_GFN_F_DIRTY, 1, 0x2a),
        Err(KvmError::Memory("dirty ring entry for unexpected memslot 0x1 (gfn 0x2a)".to_string()))
    );
    assert_eq!(
        harvest_entry(&mut s, DIRTY_GFN_F_DIRTY, 0, 0x11),
        Err(KvmError::Memory("dirty gfn 0x11 beyond guest RAM (16 pages)".to_string()))
    );
    assert_eq!(s.len(), 0);
}

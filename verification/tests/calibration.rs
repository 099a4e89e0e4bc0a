use doc_photos::calibration::{CalibrationKey, CalibrationStore};

/// Millimetres to whole micrometres, as the settings window converts them.
fn um(mm: f64) -> u32 {
    (mm * 1000.0).round() as u32
}

fn key(name: &str, w_mm: f64, h_mm: f64, borderless: bool) -> CalibrationKey {
    CalibrationKey::new(name, um(w_mm), um(h_mm), borderless)
}

#[test]
fn key_distinguishes_paper_and_borderless() {
    let a = key("P", 100.0, 150.0, false);
    let b = key("P", 100.0, 150.0, true);
    let c = key("P", 210.0, 297.0, false);
    assert_ne!(a.to_storage_key(), b.to_storage_key());
    assert_ne!(a.to_storage_key(), c.to_storage_key());
}

#[test]
fn printer_names_with_separators_do_not_collide() {
    let a = key("A|100000x150000|false", 100.0, 150.0, false);
    let b = key("A", 100.0, 150.0, false);
    assert_ne!(a.to_storage_key(), b.to_storage_key());
}

#[test]
fn storage_key_spells_out_every_part() {
    assert_eq!(key("P", 210.0, 297.0, false).to_storage_key(), "P|210000x297000|false");
    assert_eq!(CalibrationKey::new("Q", 0, 7, true).to_storage_key(), "Q|0x7|true");
}

#[test]
fn missing_entry_returns_none() {
    let store: CalibrationStore<f64> = CalibrationStore::default();
    let key = key("nonexistent", 100.0, 150.0, false);
    assert!(store.get(&key).is_none());
}

#[test]
fn a_stored_calibration_is_read_back_under_its_key_only() {
    let mut store: CalibrationStore<(f64, f64)> = CalibrationStore::default();
    let a4 = key("Brother", 210.0, 297.0, false);
    let photo = key("Brother", 100.0, 150.0, false);
    store.set(&a4, (1.004, 0.998));
    assert_eq!(store.get(&a4), Some(&(1.004, 0.998)));
    assert!(store.get(&photo).is_none());
    store.set(&a4, (1.0, 1.0));
    assert_eq!(store.len(), 1);
    assert_eq!(store.get(&a4), Some(&(1.0, 1.0)));
    assert_eq!(store.get_raw("Brother|210000x297000|false"), Some(&(1.0, 1.0)));
    assert!(store.remove(&a4));
    assert!(!store.remove(&a4));
    assert!(store.is_empty());
}

#[test]
fn storage_keys_come_back_sorted() {
    let mut store: CalibrationStore<u8> = CalibrationStore::default();
    store.insert_raw("b|1x1|false", 1);
    store.insert_raw("a|1x1|false", 2);
    assert_eq!(store.storage_keys(), vec!["a|1x1|false", "b|1x1|false"]);
}

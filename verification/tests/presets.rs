use doc_photos::presets::{
    clamp_font_scale, default_count_setting, default_font_scale, default_paper, default_theme,
    default_true, wants_maximised, PresetError, PresetStore, FONT_SCALE_MAX, FONT_SCALE_MIN,
    MAX_NAME_LEN,
};

/// Everything a preset remembers, as the settings window keeps it.
#[derive(Debug, Clone, PartialEq, Default)]
struct Preset {
    spec_id: String,
    photo_width_mm: f64,
    photo_height_mm: f64,
    head_height_mm: f64,
    paper_id: String,
    count: u32,
    margin_mm: f64,
    gutter_mm: f64,
    align_top_left: bool,
    cut_marks: bool,
    replace_background: bool,
    background_rgb: [u8; 3],
    exposure_ev: f64,
    contrast: f64,
    temperature: f64,
    tint: f64,
    saved_at: String,
}

const NOW: &str = "2026-08-09T12:00:00Z";

fn sample() -> Preset {
    Preset {
        spec_id: "hr-passport-35x45".into(),
        photo_width_mm: 35.0,
        photo_height_mm: 45.0,
        head_height_mm: 33.75,
        paper_id: "10x15".into(),
        count: 8,
        margin_mm: 3.0,
        gutter_mm: 2.0,
        align_top_left: false,
        cut_marks: true,
        replace_background: true,
        background_rgb: [235, 235, 235],
        exposure_ev: 0.25,
        contrast: 0.1,
        temperature: -0.05,
        tint: 0.0,
        saved_at: NOW.into(),
    }
}

#[test]
fn nameless_presets_are_rejected() {
    let mut store = PresetStore::default();
    assert_eq!(store.set("", sample()), Err(PresetError::EmptyName));
    assert_eq!(store.set("   ", sample()), Err(PresetError::EmptyName));
    assert!(store.is_empty());
}

#[test]
fn names_are_trimmed_so_one_preset_cannot_hide_another() {
    let mut store = PresetStore::default();
    store.set("Putovnica", sample()).unwrap();
    store.set("  Putovnica  ", sample()).unwrap();
    assert_eq!(store.len(), 1, "whitespace created a duplicate");
}

#[test]
fn an_overlong_name_is_rejected() {
    let mut store = PresetStore::default();
    let long = "a".repeat(MAX_NAME_LEN + 1);
    assert_eq!(store.set(&long, sample()), Err(PresetError::NameTooLong { max: MAX_NAME_LEN }));
}

#[test]
fn saving_under_an_existing_name_replaces_it() {
    let mut store = PresetStore::default();
    store.set("A", sample()).unwrap();
    let mut changed = sample();
    changed.count = 99;
    store.set("A", changed.clone()).unwrap();
    assert_eq!(store.len(), 1);
    assert_eq!(store.get("A").unwrap().count, 99);
}

#[test]
fn removing_reports_whether_anything_went() {
    let mut store = PresetStore::default();
    store.set("A", sample()).unwrap();
    assert!(store.remove("A"));
    assert!(!store.remove("A"));
}

#[test]
fn names_come_back_sorted() {
    let mut store = PresetStore::default();
    for n in ["Viza", "Osobna", "Putovnica"] {
        store.set(n, sample()).unwrap();
    }
    assert_eq!(store.names(), vec!["Osobna", "Putovnica", "Viza"]);
}

#[test]
fn a_name_of_exactly_the_limit_is_accepted_and_counted_in_characters() {
    let mut store = PresetStore::default();
    // Sixty characters, more than sixty bytes.
    let name = "č".repeat(MAX_NAME_LEN);
    assert_eq!(store.set(&name, sample()), Ok(()));
    assert!(store.get(&name).is_some());
    // Unicode white space is trimmed too.
    store.set("\u{3000}Viza\u{a0}", sample()).unwrap();
    assert!(store.get("Viza").is_some());
    assert!(store.remove(" Viza "));
}

#[test]
fn a_lookup_is_for_the_exact_stored_name() {
    let mut store = PresetStore::default();
    store.set(" A ", sample()).unwrap();
    assert!(store.get("A").is_some());
    assert!(store.get(" A ").is_none());
}

#[test]
fn preset_errors_read_as_sentences() {
    assert_eq!(PresetError::EmptyName.describe(), "a preset needs a name");
    assert_eq!(
        PresetError::NameTooLong { max: 60 }.describe(),
        "preset name longer than 60 characters"
    );
    assert_eq!(PresetError::NotFound.describe(), "no preset by that name");
}

#[test]
fn sheet_settings_defaults() {
    assert_eq!(default_theme(), "light");
    assert_eq!(default_font_scale(), 100);
    assert_eq!(default_paper(), "10x15");
    assert_eq!(default_count_setting(), 6);
    assert!(default_true());
}

#[test]
fn font_scale_is_clamped_on_the_way_in() {
    assert_eq!(clamp_font_scale(0), FONT_SCALE_MIN);
    assert_eq!(clamp_font_scale(150), 150);
    assert_eq!(clamp_font_scale(1000), FONT_SCALE_MAX);
    assert_eq!((FONT_SCALE_MIN, FONT_SCALE_MAX), (50, 200));
}

#[test]
fn only_a_saved_yes_maximises_the_window() {
    assert!(wants_maximised(Some(true)));
    assert!(!wants_maximised(Some(false)));
    assert!(!wants_maximised(None));
}

use doc_photos::overrides::{effective, Overrides};

type Point = (f64, f64);
type Rect = (f64, f64, f64, f64);
type Edits = Overrides<Rect, Point, f64>;

const AUTO_CHIN: Point = (200.0, 312.0);
const AUTO_CROWN: Point = (200.0, 28.0);

fn edits() -> Edits {
    Edits::default()
}

#[test]
fn without_overrides_everything_is_automatic() {
    let o = edits();
    assert!(o.is_empty());
    let f = o.auto_flags();
    assert!(f.chin && f.crown && f.face_box && f.right_eye);
    assert_eq!(effective(&AUTO_CHIN, &o.chin), (200.0, 312.0));
}

#[test]
fn an_override_wins_and_clears_the_auto_flag() {
    let mut o = edits();
    o.chin = Some((205.0, 320.0));
    assert_eq!(effective(&AUTO_CHIN, &o.chin), (205.0, 320.0));
    assert!(!o.auto_flags().chin, "AUTO badge must switch off");
    assert!(o.auto_flags().crown);
}

#[test]
fn reset_restores_the_automatic_value() {
    let mut o = edits();
    o.chin = Some((999.0, 999.0));
    assert!(o.reset_field("chin"));
    assert_eq!(effective(&AUTO_CHIN, &o.chin), (200.0, 312.0));
    assert!(o.auto_flags().chin);
}

#[test]
fn resetting_an_unknown_field_is_reported() {
    let mut o = edits();
    assert!(!o.reset_field("no_such_field"));
}

#[test]
fn redetection_keeps_user_edits() {
    let mut o = edits();
    o.chin = Some((210.0, 330.0));
    // A new detection replaces only the automatic values.
    let new_chin: Point = (205.0, 315.0);
    let new_crown: Point = (205.0, 30.0);
    assert_eq!(effective(&new_chin, &o.chin), (210.0, 330.0));
    assert_eq!(effective(&new_crown, &o.crown), (205.0, 30.0));
    assert_eq!(effective(&AUTO_CROWN, &o.crown), (200.0, 28.0));
}

#[test]
fn anchors_report_estimated_only_while_untouched() {
    let mut o = edits();
    assert!(o.anchors_estimated());
    o.chin = Some((200.0, 315.0));
    assert!(!o.anchors_estimated());
}

#[test]
fn reset_all_clears_every_override() {
    let mut o = edits();
    o.chin = Some((1.0, 2.0));
    o.rotation_deg = Some(5.0);
    o.reset_all();
    assert!(o.is_empty());
}

#[test]
fn reset_of_one_field_keeps_the_others() {
    let mut o = edits();
    o.chin = Some((1.0, 2.0));
    o.crown = Some((3.0, 4.0));
    o.face_box = Some((0.0, 0.0, 10.0, 10.0));
    assert!(o.reset_field("crown"));
    assert_eq!(o.crown, None);
    assert_eq!(o.chin, Some((1.0, 2.0)));
    assert_eq!(o.face_box, Some((0.0, 0.0, 10.0, 10.0)));
    assert!(!o.is_empty());
}

#[test]
fn every_named_field_can_be_reset() {
    let names = [
        "face_box",
        "chin",
        "crown",
        "right_eye",
        "left_eye",
        "crop_rect",
        "rotation_deg",
        "head_height_mm",
    ];
    let mut o = edits();
    o.face_box = Some((0.0, 0.0, 1.0, 1.0));
    o.chin = Some((1.0, 1.0));
    o.crown = Some((1.0, 1.0));
    o.right_eye = Some((1.0, 1.0));
    o.left_eye = Some((1.0, 1.0));
    o.crop_rect = Some((0.0, 0.0, 1.0, 1.0));
    o.rotation_deg = Some(3.0);
    o.head_height_mm = Some(33.0);
    for n in names {
        assert!(!o.is_empty());
        assert!(o.reset_field(n), "{} should be known", n);
    }
    assert!(o.is_empty());
}

#[test]
fn an_unknown_name_changes_nothing() {
    let mut o = edits();
    o.head_height_mm = Some(34.0);
    assert!(!o.reset_field("Chin"));
    assert!(!o.reset_field(""));
    assert_eq!(o.head_height_mm, Some(34.0));
    assert!(!o.auto_flags().head_height_mm);
}

//! Non-destructive editing: automatic values and user overrides kept apart.
//!
//! Detection produces parameters, never pixels. Anything the user changes is
//! kept as an `Option` beside the automatic value, so a reset is just clearing
//! the option and a re-detection can replace the automatic layer without
//! discarding the user's work.

use vstd::prelude::*;
use crate::text::same_text;

verus! {

/// The rule that governs every control in the UI: an override wins if
/// present, otherwise the automatic value is used.
pub fn effective<T: Clone>(auto: &T, ovr: &Option<T>) -> (r: T)
    ensures
        match ovr {
            Some(v) => cloned(*v, r),
            None => cloned(*auto, r),
        },
{
    match ovr {
        Some(v) => v.clone(),
        None => auto.clone(),
    }
}

/// Which fields are currently automatic, so the UI can show an AUTO badge.
#[derive(Debug, Clone, Copy, PartialEq, Eq, Structural)]
pub struct AutoFlags {
    pub face_box: bool,
    pub chin: bool,
    pub crown: bool,
    pub right_eye: bool,
    pub left_eye: bool,
    pub crop_rect: bool,
    pub rotation_deg: bool,
    pub head_height_mm: bool,
}

/// The fields a control can reset.
#[derive(Debug, Clone, Copy, PartialEq, Eq, Structural)]
pub enum OverrideField {
    FaceBox,
    Chin,
    Crown,
    RightEye,
    LeftEye,
    CropRect,
    RotationDeg,
    HeadHeightMm,
}

/// The field a reset button names, if it names one.
pub open spec fn field_named(name: Seq<char>) -> Option<OverrideField> {
    if name == "face_box"@ {
        Some(OverrideField::FaceBox)
    } else if name == "chin"@ {
        Some(OverrideField::Chin)
    } else if name == "crown"@ {
        Some(OverrideField::Crown)
    } else if name == "right_eye"@ {
        Some(OverrideField::RightEye)
    } else if name == "left_eye"@ {
        Some(OverrideField::LeftEye)
    } else if name == "crop_rect"@ {
        Some(OverrideField::CropRect)
    } else if name == "rotation_deg"@ {
        Some(OverrideField::RotationDeg)
    } else if name == "head_height_mm"@ {
        Some(OverrideField::HeadHeightMm)
    } else {
        None
    }
}

/// User edits. Every field is optional; `None` means "use the automatic
/// value". `R` is a rectangle, `P` a point and `A` a scalar (an angle or a
/// length).
pub struct Overrides<R, P, A> {
    pub face_box: Option<R>,
    pub chin: Option<P>,
    pub crown: Option<P>,
    pub right_eye: Option<P>,
    pub left_eye: Option<P>,
    pub crop_rect: Option<R>,
    pub rotation_deg: Option<A>,
    pub head_height_mm: Option<A>,
}

impl<R, P, A> Overrides<R, P, A> {
    /// Whether the user has overridden `f`.
    pub open spec fn is_set(self, f: OverrideField) -> bool {
        match f {
            OverrideField::FaceBox => self.face_box is Some,
            OverrideField::Chin => self.chin is Some,
            OverrideField::Crown => self.crown is Some,
            OverrideField::RightEye => self.right_eye is Some,
            OverrideField::LeftEye => self.left_eye is Some,
            OverrideField::CropRect => self.crop_rect is Some,
            OverrideField::RotationDeg => self.rotation_deg is Some,
            OverrideField::HeadHeightMm => self.head_height_mm is Some,
        }
    }

    /// No field is overridden.
    pub open spec fn untouched(self) -> bool {
        &&& self.face_box is None
        &&& self.chin is None
        &&& self.crown is None
        &&& self.right_eye is None
        &&& self.left_eye is None
        &&& self.crop_rect is None
        &&& self.rotation_deg is None
        &&& self.head_height_mm is None
    }

    /// These edits with `f` handed back to the automatic value.
    pub open spec fn cleared(self, f: OverrideField) -> Self {
        match f {
            OverrideField::FaceBox => Overrides { face_box: None, ..self },
            OverrideField::Chin => Overrides { chin: None, ..self },
            OverrideField::Crown => Overrides { crown: None, ..self },
            OverrideField::RightEye => Overrides { right_eye: None, ..self },
            OverrideField::LeftEye => Overrides { left_eye: None, ..self },
            OverrideField::CropRect => Overrides { crop_rect: None, ..self },
            OverrideField::RotationDeg => Overrides { rotation_deg: None, ..self },
            OverrideField::HeadHeightMm => Overrides { head_height_mm: None, ..self },
        }
    }

    /// Edits with nothing overridden.
    pub fn none() -> (o: Self)
        ensures
            o.untouched(),
    {
        Overrides {
            face_box: None,
            chin: None,
            crown: None,
            right_eye: None,
            left_eye: None,
            crop_rect: None,
            rotation_deg: None,
            head_height_mm: None,
        }
    }

    /// Whether the user has changed anything at all.
    pub fn is_empty(&self) -> (r: bool)
        ensures
            r == self.untouched(),
    {
        self.face_box.is_none() && self.chin.is_none() && self.crown.is_none()
            && self.right_eye.is_none() && self.left_eye.is_none() && self.crop_rect.is_none()
            && self.rotation_deg.is_none() && self.head_height_mm.is_none()
    }

    /// Clear one field by name, for the per-control reset button.
    ///
    /// Returns false for an unknown name, and changes nothing then, so a UI
    /// typo surfaces instead of silently doing nothing.
    pub fn reset_field(&mut self, field: &str) -> (known: bool)
        ensures
            known == field_named(field@) is Some,
            match field_named(field@) {
                Some(f) => *final(self) == old(self).cleared(f),
                None => *final(self) == *old(self),
            },
            field@ == "face_box"@ ==> *final(self) == (Overrides { face_box: None, ..*old(self) }),
            field@ == "chin"@ ==> *final(self) == (Overrides { chin: None, ..*old(self) }),
            field@ == "crown"@ ==> *final(self) == (Overrides { crown: None, ..*old(self) }),
            field@ == "right_eye"@ ==> *final(self) == (Overrides { right_eye: None, ..*old(self) }),
            field@ == "left_eye"@ ==> *final(self) == (Overrides { left_eye: None, ..*old(self) }),
            field@ == "crop_rect"@ ==> *final(self) == (Overrides { crop_rect: None, ..*old(self) }),
            field@ == "rotation_deg"@ ==> *final(self) == (Overrides { rotation_deg: None, ..*old(self) }),
            field@ == "head_height_mm"@ ==> *final(self) == (Overrides { head_height_mm: None, ..*old(self) }),
    {
    proof {
        lemma_field_names_differ();
    }
        if same_text(field, "face_box") {
            self.face_box = None;
        } else if same_text(field, "chin") {
            self.chin = None;
        } else if same_text(field, "crown") {
            self.crown = None;
        } else if same_text(field, "right_eye") {
            self.right_eye = None;
        } else if same_text(field, "left_eye") {
            self.left_eye = None;
        } else if same_text(field, "crop_rect") {
            self.crop_rect = None;
        } else if same_text(field, "rotation_deg") {
            self.rotation_deg = None;
        } else if same_text(field, "head_height_mm") {
            self.head_height_mm = None;
        } else {
            return false;
        }
        true
    }

    /// Hand every field back to the automatic value.
    pub fn reset_all(&mut self)
        ensures
            final(self).untouched(),
    {
        *self = Self::none();
    }

    /// Which fields are automatic, for the AUTO badges.
    pub fn auto_flags(&self) -> (flags: AutoFlags)
        ensures
            flags.face_box == !self.is_set(OverrideField::FaceBox),
            flags.chin == !self.is_set(OverrideField::Chin),
            flags.crown == !self.is_set(OverrideField::Crown),
            flags.right_eye == !self.is_set(OverrideField::RightEye),
            flags.left_eye == !self.is_set(OverrideField::LeftEye),
            flags.crop_rect == !self.is_set(OverrideField::CropRect),
            flags.rotation_deg == !self.is_set(OverrideField::RotationDeg),
            flags.head_height_mm == !self.is_set(OverrideField::HeadHeightMm),
    {
        AutoFlags {
            face_box: self.face_box.is_none(),
            chin: self.chin.is_none(),
            crown: self.crown.is_none(),
            right_eye: self.right_eye.is_none(),
            left_eye: self.left_eye.is_none(),
            crop_rect: self.crop_rect.is_none(),
            rotation_deg: self.rotation_deg.is_none(),
            head_height_mm: self.head_height_mm.is_none(),
        }
    }

    /// Whether the head anchors are still the estimated ones: neither the
    /// chin nor the crown has been placed by hand.
    pub fn anchors_estimated(&self) -> (r: bool)
        ensures
            r == (!self.is_set(OverrideField::Chin) && !self.is_set(OverrideField::Crown)),
    {
        self.chin.is_none() && self.crown.is_none()
    }
}

impl<R, P, A> Default for Overrides<R, P, A> {
    fn default() -> (o: Self)
        ensures
            o.untouched(),
    {
        Self::none()
    }
}

/// The eight field names are told apart by their length and first letter.
proof fn lemma_field_names_differ()
    ensures
        "face_box"@.len() == 8,
        "face_box"@[0] == 'f',
        "chin"@.len() == 4,
        "chin"@[0] == 'c',
        "crown"@.len() == 5,
        "crown"@[0] == 'c',
        "right_eye"@.len() == 9,
        "right_eye"@[0] == 'r',
        "left_eye"@.len() == 8,
        "left_eye"@[0] == 'l',
        "crop_rect"@.len() == 9,
        "crop_rect"@[0] == 'c',
        "rotation_deg"@.len() == 12,
        "rotation_deg"@[0] == 'r',
        "head_height_mm"@.len() == 14,
        "head_height_mm"@[0] == 'h',
{
    reveal_strlit("face_box");
    reveal_strlit("chin");
    reveal_strlit("crown");
    reveal_strlit("right_eye");
    reveal_strlit("left_eye");
    reveal_strlit("crop_rect");
    reveal_strlit("rotation_deg");
    reveal_strlit("head_height_mm");
}

/// A reset by name clears the field of that very name and keeps every
/// other edit: resetting "right_eye" clears the right eye and leaves the
/// left eye as the user placed it, and so on for each field.
pub proof fn law_reset_clears_the_named_field<R, P, A>(o: Overrides<R, P, A>)
    ensures
        forall|n: Seq<char>| (#[trigger] field_named(n)) is Some <==> (n == "face_box"@ || n == "chin"@
            || n == "crown"@ || n == "right_eye"@ || n == "left_eye"@ || n == "crop_rect"@ || n
            == "rotation_deg"@ || n == "head_height_mm"@),
        o.cleared(field_named("face_box"@)->0) == (Overrides { face_box: None, ..o }),
        o.cleared(field_named("chin"@)->0) == (Overrides { chin: None, ..o }),
        o.cleared(field_named("crown"@)->0) == (Overrides { crown: None, ..o }),
        o.cleared(field_named("right_eye"@)->0) == (Overrides { right_eye: None, ..o }),
        o.cleared(field_named("left_eye"@)->0) == (Overrides { left_eye: None, ..o }),
        o.cleared(field_named("crop_rect"@)->0) == (Overrides { crop_rect: None, ..o }),
        o.cleared(field_named("rotation_deg"@)->0) == (Overrides { rotation_deg: None, ..o }),
        o.cleared(field_named("head_height_mm"@)->0) == (Overrides { head_height_mm: None, ..o }),
{
    lemma_field_names_differ();
}

/// Resetting a control hands exactly that field back to the automatic value:
/// it is no longer overridden, and every other field keeps the user's edit.
pub proof fn law_reset_touches_only_its_field<R, P, A>(o: Overrides<R, P, A>, f: OverrideField)
    ensures
        !o.cleared(f).is_set(f),
        forall|g: OverrideField| g != f ==> #[trigger] o.cleared(f).is_set(g) == o.is_set(g),
{
}

/// Edits that override nothing leave every field automatic, so every AUTO
/// badge reads automatic.
pub proof fn law_untouched_edits_are_all_automatic<R, P, A>(o: Overrides<R, P, A>, f: OverrideField)
    requires
        o.untouched(),
    ensures
        !o.is_set(f),
{
}

} // verus!

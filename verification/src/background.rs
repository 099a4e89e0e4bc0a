//! The background-removal session: the mask the segmenter produced, the
//! user's brush strokes on top of it, and the edge threshold.
//!
//! The automatic mask is never modified by editing. What the UI sees is the
//! automatic mask thresholded, with the strokes painted over it, so that a
//! deliberate correction is never undone by moving a slider.

use vstd::prelude::*;
use crate::commands::{is_bare, UiError};
use crate::mask::{apply_threshold, threshold_curve, AlphaMask, MaskEdits};

verus! {

/// The threshold that leaves the model's own decision alone.
pub const NEUTRAL_THRESHOLD: u8 = 128;

pub open spec fn key_not_segmented() -> Seq<char> {
    "error.mask.not_segmented"@
}

/// One editing session. `S` is whatever a brush stroke holds.
#[verifier::reject_recursive_types(S)]
pub struct SegmentInner<S> {
    auto_mask: Option<AlphaMask>,
    edits: MaskEdits<S>,
    threshold: u8,
}

impl<S> SegmentInner<S> {
    /// The segmenter's output, if it has run.
    pub closed spec fn auto(&self) -> Option<AlphaMask> {
        self.auto_mask
    }

    /// The strokes, oldest first.
    pub closed spec fn strokes(&self) -> Seq<S> {
        self.edits.strokes@
    }

    /// The current edge threshold.
    pub closed spec fn edge(&self) -> u8 {
        self.threshold
    }

    /// Nothing segmented, nothing edited, the neutral threshold. A default of
    /// 0 would drive every mask to full coverage.
    pub fn new() -> (r: Self)
        ensures
            r.auto() is None,
            r.strokes().len() == 0,
            r.edge() == NEUTRAL_THRESHOLD,
    {
        SegmentInner { auto_mask: None, edits: MaskEdits::new(), threshold: NEUTRAL_THRESHOLD }
    }

    /// Whether the segmenter has produced a mask to edit.
    pub fn is_segmented(&self) -> (r: bool)
        ensures
            r == self.auto() is Some,
    {
        self.auto_mask.is_some()
    }

    /// A new automatic mask replaces the old one; strokes are deliberately
    /// kept, matching how re-detection keeps the user's overrides.
    pub fn set_auto_mask(&mut self, mask: AlphaMask)
        ensures
            final(self).auto() == Some(mask),
            final(self).strokes() == old(self).strokes(),
            final(self).edge() == old(self).edge(),
    {
        self.auto_mask = Some(mask);
    }

    /// Set the edge threshold. Refused, changing nothing, before anything
    /// has been segmented.
    pub fn set_threshold(&mut self, threshold: u8) -> (r: Result<(), UiError>)
        ensures
            old(self).auto() is None ==> r is Err && is_bare(r->Err_0, key_not_segmented())
                && final(self).edge() == old(self).edge(),
            old(self).auto() is Some ==> r is Ok && final(self).edge() == threshold,
            final(self).auto() == old(self).auto(),
            final(self).strokes() == old(self).strokes(),
    {
        if self.auto_mask.is_none() {
            return Err(UiError::new("error.mask.not_segmented"));
        }
        self.threshold = threshold;
        Ok(())
    }

    /// Add a stroke on top of the others. Refused before segmentation.
    pub fn add_stroke(&mut self, stroke: S) -> (r: Result<(), UiError>)
        ensures
            old(self).auto() is None ==> r is Err && is_bare(r->Err_0, key_not_segmented())
                && final(self).strokes() == old(self).strokes(),
            old(self).auto() is Some ==> r is Ok && final(self).strokes() == old(self).strokes().push(
                stroke,
            ),
            final(self).auto() == old(self).auto(),
            final(self).edge() == old(self).edge(),
    {
        if self.auto_mask.is_none() {
            return Err(UiError::new("error.mask.not_segmented"));
        }
        self.edits.push(stroke);
        Ok(())
    }

    /// Take back the most recent stroke, if there is one. Refused before
    /// segmentation.
    pub fn undo_stroke(&mut self) -> (r: Result<(), UiError>)
        ensures
            old(self).auto() is None ==> r is Err && is_bare(r->Err_0, key_not_segmented())
                && final(self).strokes() == old(self).strokes(),
            old(self).auto() is Some ==> r is Ok && final(self).strokes() == (if old(
                self,
            ).strokes().len() == 0 {
                old(self).strokes()
            } else {
                old(self).strokes().drop_last()
            }),
            final(self).auto() == old(self).auto(),
            final(self).edge() == old(self).edge(),
    {
        if self.auto_mask.is_none() {
            return Err(UiError::new("error.mask.not_segmented"));
        }
        let _ = self.edits.undo();
        Ok(())
    }

    /// Discard every stroke, back to the model's own output. Refused before
    /// segmentation.
    pub fn reset_edits(&mut self) -> (r: Result<(), UiError>)
        ensures
            old(self).auto() is None ==> r is Err && is_bare(r->Err_0, key_not_segmented())
                && final(self).strokes() == old(self).strokes(),
            old(self).auto() is Some ==> r is Ok && final(self).strokes().len() == 0,
            final(self).auto() == old(self).auto(),
            final(self).edge() == old(self).edge(),
    {
        if self.auto_mask.is_none() {
            return Err(UiError::new("error.mask.not_segmented"));
        }
        self.edits.clear();
        Ok(())
    }

    /// Forget the mask, so a newly loaded photo does not inherit it.
    pub fn clear(&mut self)
        ensures
            final(self).auto() is None,
            final(self).strokes().len() == 0,
            final(self).edge() == NEUTRAL_THRESHOLD,
    {
        self.auto_mask = None;
        self.edits.clear();
        self.threshold = NEUTRAL_THRESHOLD;
    }

    /// The strokes, oldest first, for painting over the thresholded mask.
    pub fn strokes_in_order(&self) -> (r: &[S])
        ensures
            r@ == self.strokes(),
    {
        self.edits.strokes.as_slice()
    }

    /// The automatic mask with the threshold applied: the base the strokes
    /// are painted on. `None` until something has been segmented.
    pub fn thresholded(&self) -> (r: Option<AlphaMask>)
        ensures
            self.auto() is None ==> r is None,
            self.auto() matches Some(a) ==> r matches Some(m) && m.width == a.width && m.height
                == a.height && m.data@.len() == a.data@.len() && forall|i: int|
                0 <= i < a.data@.len() ==> #[trigger] m.data@[i] == threshold_curve(
                    a.data@[i] as int,
                    self.edge() as int,
                ),
    {
        match &self.auto_mask {
            Some(a) => Some(apply_threshold(a, self.threshold)),
            None => None,
        }
    }
}

/// Little-endian bytes of `n`.
pub open spec fn le_bytes(n: u32) -> Seq<u8> {
    seq![
        (n % 256) as u8,
        ((n / 256) % 256) as u8,
        ((n / 65536) % 256) as u8,
        ((n / 16777216) % 256) as u8,
    ]
}

fn push_le(out: &mut Vec<u8>, n: u32)
    ensures
        final(out)@ == old(out)@ + le_bytes(n),
{
    out.push((n % 256) as u8);
    out.push(((n / 256) % 256) as u8);
    out.push(((n / 65536) % 256) as u8);
    out.push(((n / 16777216) % 256) as u8);
    proof {
        assert(out@ =~= old(out)@ + le_bytes(n));
    }
}

fn push_all(out: &mut Vec<u8>, bytes: &[u8])
    ensures
        final(out)@ == old(out)@ + bytes@,
{
    let ghost start = out@;
    let mut i: usize = 0;
    while i < bytes.len()
        invariant
            i <= bytes@.len(),
            out@ == start + bytes@.take(i as int),
        decreases bytes@.len() - i,
    {
        out.push(bytes[i]);
        i += 1;
        proof {
            assert(out@ =~= start + bytes@.take(i as int));
        }
    }
    proof {
        assert(bytes@.take(i as int) =~= bytes@);
    }
}

/// The bytes of a mask response: width, height, the subject ratio (four
/// bytes, already encoded), the backend name's length, all little-endian,
/// then the name, then the mask itself.
pub open spec fn mask_response_bytes(
    width: u32,
    height: u32,
    ratio: Seq<u8>,
    name: Seq<u8>,
    data: Seq<u8>,
) -> Seq<u8> {
    le_bytes(width) + le_bytes(height) + ratio + le_bytes(name.len() as u32) + name + data
}

/// Encode a mask for the UI. Sending it as a JSON number array instead
/// would inflate it threefold and cost more to parse than the segmentation
/// takes to run.
pub fn mask_response(mask: &AlphaMask, ratio_le: [u8; 4], backend: &[u8]) -> (out: Vec<u8>)
    requires
        backend@.len() <= u32::MAX,
    ensures
        out@ == mask_response_bytes(mask.width, mask.height, ratio_le@, backend@, mask.data@),
{
    let mut out: Vec<u8> = Vec::new();
    push_le(&mut out, mask.width);
    push_le(&mut out, mask.height);
    push_all(&mut out, &ratio_le);
    push_le(&mut out, backend.len() as u32);
    push_all(&mut out, backend);
    push_all(&mut out, mask.data.as_slice());
    out
}


impl<S> Default for SegmentInner<S> {
    fn default() -> (r: Self)
        ensures
            r.auto() is None,
            r.strokes().len() == 0,
            r.edge() == NEUTRAL_THRESHOLD,
    {
        SegmentInner::new()
    }
}

} // verus!

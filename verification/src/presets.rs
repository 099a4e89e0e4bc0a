//! Named sets of settings the user can save and recall, and the defaults the
//! sheet settings fall back to.
//!
//! A preset holds parameters only, never pixels and never a crop. What a
//! preset remembers is up to the caller; this module keeps the names honest:
//! trimmed, non-empty, bounded, unique and listed in sorted order.

use vstd::prelude::*;
use crate::store::KeyedStore;
use crate::text::{chars_of, is_white_space_spec, trim, trim_end_spec, trim_spec, trim_start_spec};
use vstd::string::StringExecFns;

verus! {

/// The longest name accepted. Long enough for "Putovnica RH — mat papir",
/// short enough that the list stays readable.
pub const MAX_NAME_LEN: usize = 60;

/// Bounds for the UI text scale, in percent.
pub const FONT_SCALE_MIN: u32 = 50;

pub const FONT_SCALE_MAX: u32 = 200;

/// Why a preset could not be saved or found.
#[derive(Debug, Clone, Copy, PartialEq, Eq, Structural)]
pub enum PresetError {
    EmptyName,
    NameTooLong { max: usize },
    NotFound,
}

impl PresetError {
    /// The message shown to the user.
    pub fn describe(&self) -> (s: String)
        ensures
            *self == PresetError::EmptyName ==> s@ == "a preset needs a name"@,
            *self == PresetError::NotFound ==> s@ == "no preset by that name"@,
            self is NameTooLong ==> s@ == "preset name longer than "@ + crate::calibration::decimal(
                self->max as nat,
            ) + " characters"@,
    {
        match self {
            PresetError::EmptyName => String::from_str("a preset needs a name"),
            PresetError::NameTooLong { max } => {
                let mut s = String::from_str("preset name longer than ");
                crate::calibration::push_decimal(&mut s, *max as u64);
                s.append(" characters");
                s
            },
            PresetError::NotFound => String::from_str("no preset by that name"),
        }
    }
}

/// The key a name is stored under: the name without surrounding white space.
pub open spec fn preset_key(name: Seq<char>) -> Seq<char> {
    trim_spec(name)
}

/// All saved presets, keyed by the trimmed name the user typed.
#[verifier::reject_recursive_types(P)]
pub struct PresetStore<P> {
    presets: KeyedStore<P>,
}

impl<P> PresetStore<P> {
    /// The store is in order.
    pub closed spec fn wf(&self) -> bool {
        self.presets.wf()
    }

    /// Each stored name with its preset.
    pub closed spec fn contents(&self) -> Map<Seq<char>, P> {
        self.presets.contents()
    }

    /// An empty store.
    pub fn new() -> (r: Self)
        ensures
            r.wf(),
            r.contents() == Map::<Seq<char>, P>::empty(),
    {
        PresetStore { presets: KeyedStore::new() }
    }

    /// The preset saved under exactly `name`.
    pub fn get(&self, name: &str) -> (r: Option<&P>)
        requires
            self.wf(),
        ensures
            match r {
                Some(p) => self.contents().contains_key(name@) && *p == self.contents()[name@],
                None => !self.contents().contains_key(name@),
            },
    {
        self.presets.get(name)
    }

    /// Save under `name`, trimmed, replacing any preset already using it.
    ///
    /// Rejects names that are empty once trimmed, since they would be
    /// invisible in the list, and names longer than [`MAX_NAME_LEN`].
    pub fn set(&mut self, name: &str, value: P) -> (r: Result<(), PresetError>)
        requires
            old(self).wf(),
        ensures
            final(self).wf(),
            preset_key(name@).len() == 0 ==> r == Err::<(), PresetError>(PresetError::EmptyName)
                && final(self).contents() == old(self).contents(),
            0 < preset_key(name@).len() <= MAX_NAME_LEN ==> r == Ok::<(), PresetError>(())
                && final(self).contents() == old(self).contents().insert(preset_key(name@), value),
            preset_key(name@).len() > MAX_NAME_LEN ==> r == Err::<(), PresetError>(
                PresetError::NameTooLong { max: MAX_NAME_LEN },
            ) && final(self).contents() == old(self).contents(),
    {
        let trimmed = trim(name);
        let n = chars_of(trimmed.as_str()).len();
        if n == 0 {
            return Err(PresetError::EmptyName);
        }
        if n > MAX_NAME_LEN {
            return Err(PresetError::NameTooLong { max: MAX_NAME_LEN });
        }
        self.presets.insert(trimmed.as_str(), value);
        Ok(())
    }

    /// File `value` under `name` exactly as a config file stored it.
    pub fn insert_stored(&mut self, name: &str, value: P)
        requires
            old(self).wf(),
        ensures
            final(self).wf(),
            final(self).contents() == old(self).contents().insert(name@, value),
    {
        self.presets.insert(name, value);
    }

    /// Remove the preset saved under `name`, trimmed; says whether one was.
    pub fn remove(&mut self, name: &str) -> (r: bool)
        requires
            old(self).wf(),
        ensures
            final(self).wf(),
            r == old(self).contents().contains_key(preset_key(name@)),
            final(self).contents() == old(self).contents().remove(preset_key(name@)),
    {
        let trimmed = trim(name);
        self.presets.remove(trimmed.as_str())
    }

    /// Names in sorted order, which is how the UI lists them.
    pub fn names(&self) -> (r: Vec<String>)
        requires
            self.wf(),
        ensures
            forall|i: int, j: int|
                0 <= i < j < r@.len() ==> crate::text::text_lt(#[trigger] r@[i]@, #[trigger] r@[j]@),
            forall|k: Seq<char>|
                self.contents().contains_key(k) <==> exists|i: int| 0 <= i < r@.len() && r@[i]@ == k,
    {
        self.presets.keys()
    }

    /// How many presets are saved.
    pub fn len(&self) -> (r: usize)
        requires
            self.wf(),
        ensures
            r == self.contents().len(),
    {
        self.presets.len()
    }

    /// Whether no preset is saved.
    pub fn is_empty(&self) -> (r: bool)
        requires
            self.wf(),
        ensures
            r == (self.contents().len() == 0),
    {
        self.presets.is_empty()
    }
}

/// Whether every character of `s` is white space.
pub open spec fn all_white_space(s: Seq<char>) -> bool {
    forall|i: int| 0 <= i < s.len() ==> #[trigger] is_white_space_spec(s[i])
}

proof fn lemma_trim_start_skips(a: Seq<char>, s: Seq<char>)
    requires
        all_white_space(a),
    ensures
        trim_start_spec(a + s) == trim_start_spec(s),
    decreases a.len(),
{
    if a.len() > 0 {
        assert((a + s).drop_first() =~= a.drop_first() + s);
        assert(is_white_space_spec((a + s)[0]));
        lemma_trim_start_skips(a.drop_first(), s);
    } else {
        assert(a + s =~= s);
    }
}

proof fn lemma_trim_end_skips(s: Seq<char>, b: Seq<char>)
    requires
        all_white_space(b),
    ensures
        trim_end_spec(s + b) == trim_end_spec(s),
    decreases b.len(),
{
    if b.len() > 0 {
        assert((s + b).drop_last() =~= s + b.drop_last());
        assert(is_white_space_spec((s + b).last()));
        lemma_trim_end_skips(s, b.drop_last());
    } else {
        assert(s + b =~= s);
    }
}

/// `trim_start` of `s + b` is `trim_start(s) + b` when `s` holds something
/// other than white space.
proof fn lemma_trim_start_append(s: Seq<char>, b: Seq<char>)
    requires
        !all_white_space(s),
    ensures
        trim_start_spec(s + b) == trim_start_spec(s) + b,
    decreases s.len(),
{
    assert(s.len() > 0);
    if is_white_space_spec(s[0]) {
        assert((s + b).drop_first() =~= s.drop_first() + b);
        assert(!all_white_space(s.drop_first())) by {
            let i = choose|i: int| 0 <= i < s.len() && !is_white_space_spec(s[i]);
            assert(s.drop_first()[i - 1] == s[i]);
        }
        lemma_trim_start_append(s.drop_first(), b);
    }
}

proof fn lemma_trim_start_all_white(s: Seq<char>)
    requires
        all_white_space(s),
    ensures
        trim_start_spec(s).len() == 0,
    decreases s.len(),
{
    if s.len() > 0 {
        lemma_trim_start_all_white(s.drop_first());
    }
}

/// Surrounding white space never makes a different preset: a name padded
/// with white space on either side is saved, found and removed under the
/// same key as the bare name.
pub proof fn law_padded_names_share_a_key(a: Seq<char>, name: Seq<char>, b: Seq<char>)
    requires
        all_white_space(a),
        all_white_space(b),
    ensures
        preset_key(a + name + b) == preset_key(name),
{
    lemma_trim_start_skips(a, name + b);
    assert(a + name + b =~= a + (name + b));
    if all_white_space(name) {
        lemma_trim_start_all_white(name);
        lemma_trim_start_skips(name, b);
        assert(b =~= seq![] + b);
        lemma_trim_start_skips(name, seq![]);
        assert(name + seq![] =~= name);
        assert(trim_start_spec(name + b) == trim_start_spec(b));
        lemma_trim_start_all_white(b);
        assert(trim_start_spec(b) == trim_start_spec(seq![])) by {
            assert(b + seq![] =~= b);
            lemma_trim_start_skips(b, seq![]);
        }
    } else {
        lemma_trim_start_append(name, b);
        lemma_trim_end_skips(trim_start_spec(name), b);
    }
}

/// One entry in the preset list.
#[derive(Debug, Clone, PartialEq)]
pub struct PresetSummary {
    pub name: String,
    pub saved_at: String,
}

/// The theme a fresh install starts with.
pub fn default_theme() -> (s: String)
    ensures
        s@ == "light"@,
{
    String::from_str("light")
}

/// The UI text scale a fresh install starts with, in percent.
pub fn default_font_scale() -> (n: u32)
    ensures
        n == 100,
{
    100
}

/// The paper a fresh install lays out for.
pub fn default_paper() -> (s: String)
    ensures
        s@ == "10x15"@,
{
    String::from_str("10x15")
}

/// How many copies go on a sheet until the user says otherwise.
pub fn default_count_setting() -> (n: u32)
    ensures
        n == 6,
{
    6
}

/// Cut marks are on until the user turns them off.
pub fn default_true() -> (b: bool)
    ensures
        b,
{
    true
}

/// A text scale as stored, brought into the range the UI can show.
pub fn clamp_font_scale(percent: u32) -> (r: u32)
    ensures
        FONT_SCALE_MIN <= r <= FONT_SCALE_MAX,
        FONT_SCALE_MIN <= percent <= FONT_SCALE_MAX ==> r == percent,
        percent < FONT_SCALE_MIN ==> r == FONT_SCALE_MIN,
        percent > FONT_SCALE_MAX ==> r == FONT_SCALE_MAX,
{
    if percent < FONT_SCALE_MIN {
        FONT_SCALE_MIN
    } else if percent > FONT_SCALE_MAX {
        FONT_SCALE_MAX
    } else {
        percent
    }
}

/// Whether the window should open maximised, given what the saved settings
/// say, or `None` when there were none to read. A missing or unreadable
/// config means the default window size.
pub fn wants_maximised(saved: Option<bool>) -> (r: bool)
    ensures
        r == (saved == Some(true)),
{
    match saved {
        Some(b) => b,
        None => false,
    }
}


impl<P> Default for PresetStore<P> {
    fn default() -> (r: Self)
        ensures
            r.wf(),
            r.contents() == Map::<Seq<char>, P>::empty(),
    {
        PresetStore::new()
    }
}

} // verus!

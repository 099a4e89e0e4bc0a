//! Document specifications: the enumerations a spec file is written in, the
//! layout defaults it carries, and the errors loading can report.

use vstd::prelude::*;
use vstd::string::StringExecFns;
use crate::store::KeyedStore;
use crate::text::same_text;

verus! {

/// Where a spec measures the crop from.
#[derive(Debug, Clone, Copy, PartialEq, Eq, Structural)]
pub enum Anchor {
    /// Measured upward from the chin line, as the Croatian template does.
    ChinLine,
    /// Measured from the bottom edge to the eye line, common elsewhere.
    EyeLine,
    /// Head simply centred in the frame.
    Frame,
}

/// What "head height" means for a given spec.
#[derive(Debug, Clone, Copy, PartialEq, Eq, Structural)]
pub enum HeadMeasure {
    /// Chin to the top of the skull, hair may exceed it.
    ChinToCrown,
    /// Chin to the top of the hair.
    ChinToTopOfHair,
}

/// How much the numbers in a spec can be trusted.
#[derive(Debug, Clone, Copy, PartialEq, Eq, Structural)]
pub enum Confidence {
    /// Taken from a named regulation with a source URL.
    Verified,
    /// Widely used values without a single authoritative source.
    Baseline,
    /// Contributed, unverified. Assumed when a spec does not say.
    Community,
}

impl Default for Confidence {
    fn default() -> (r: Self)
        ensures
            r == Confidence::Community,
    {
        Confidence::Community
    }
}

/// How strongly a failing rule counts.
#[derive(Debug, Clone, Copy, PartialEq, Eq, Structural)]
pub enum Severity {
    Error,
    Warning,
}

/// What a spec suggests for the sheet.
#[derive(Debug, Clone, PartialEq)]
pub struct LayoutDefaults {
    pub paper: Option<String>,
    pub count: u32,
    pub cut_marks: bool,
}

/// The copy count a spec implies when it names none.
pub fn default_count() -> (n: u32)
    ensures
        n == 1,
{
    1
}

impl Default for LayoutDefaults {
    fn default() -> (r: Self)
        ensures
            r.paper is None,
            r.count == 1,
            !r.cut_marks,
    {
        Self { paper: None, count: default_count(), cut_marks: false }
    }
}

/// The first colour marked as the default among `allowed`, if any is.
pub open spec fn first_default(allowed: Seq<([u8; 3], bool)>) -> Option<[u8; 3]>
    decreases allowed.len(),
{
    if allowed.len() == 0 {
        None
    } else if allowed[0].1 {
        Some(allowed[0].0)
    } else {
        first_default(allowed.drop_first())
    }
}

/// The light grey a spec gets when it names no background colour.
pub open spec fn fallback_background() -> [u8; 3] {
    [235u8, 235u8, 235u8]
}

/// The background a spec prefers: the first colour marked as the default,
/// else the first colour listed, else light grey.
pub open spec fn preferred_background(allowed: Seq<([u8; 3], bool)>) -> [u8; 3] {
    match first_default(allowed) {
        Some(c) => c,
        None => if allowed.len() > 0 {
            allowed[0].0
        } else {
            fallback_background()
        },
    }
}

/// The colour a spec prefers among its allowed backgrounds, each given as
/// its colour and whether it is marked as the default; light grey if it
/// names none.
pub fn preferred_colour(allowed: &[([u8; 3], bool)]) -> (c: [u8; 3])
    ensures
        c == preferred_background(allowed@),
{
    let mut i: usize = 0;
    assert(allowed@.subrange(0, allowed@.len() as int) =~= allowed@);
    while i < allowed.len()
        invariant
            i <= allowed@.len(),
            first_default(allowed@) == first_default(allowed@.subrange(i as int, allowed@.len() as int)),
        decreases allowed@.len() - i,
    {
        let ghost rest = allowed@.subrange(i as int, allowed@.len() as int);
        if allowed[i].1 {
            return allowed[i].0;
        }
        assert(rest.drop_first() =~= allowed@.subrange(i + 1, allowed@.len() as int));
        i = i + 1;
    }
    assert(allowed@.subrange(i as int, allowed@.len() as int) =~= Seq::<([u8; 3], bool)>::empty());
    if allowed.len() > 0 {
        allowed[0].0
    } else {
        [235u8, 235u8, 235u8]
    }
}

/// The name `names` gives for language `lang`: the first entry under that
/// language, if there is one.
pub open spec fn name_in(names: Seq<(String, String)>, lang: Seq<char>) -> Option<Seq<char>>
    decreases names.len(),
{
    if names.len() == 0 {
        None
    } else if names[0].0@ == lang {
        Some(names[0].1@)
    } else {
        name_in(names.drop_first(), lang)
    }
}

/// The name a spec shows: in the requested language, else in English, else
/// the spec's id.
pub open spec fn shown_name(names: Seq<(String, String)>, lang: Seq<char>, id: Seq<char>) -> Seq<
    char,
> {
    match name_in(names, lang) {
        Some(n) => n,
        None => match name_in(names, "en"@) {
            Some(n) => n,
            None => id,
        },
    }
}

/// The name `names` gives under `lang`, if it gives one.
fn find_name(names: &[(String, String)], lang: &str) -> (r: Option<String>)
    ensures
        r matches Some(n) ==> name_in(names@, lang@) == Some(n@),
        r is None ==> name_in(names@, lang@) is None,
{
    let mut i: usize = 0;
    assert(names@.subrange(0, names@.len() as int) =~= names@);
    while i < names.len()
        invariant
            i <= names@.len(),
            name_in(names@, lang@) == name_in(names@.subrange(i as int, names@.len() as int), lang@),
        decreases names@.len() - i,
    {
        let ghost rest = names@.subrange(i as int, names@.len() as int);
        if same_text(names[i].0.as_str(), lang) {
            return Some(names[i].1.clone());
        }
        assert(rest.drop_first() =~= names@.subrange(i + 1, names@.len() as int));
        i = i + 1;
    }
    assert(names@.subrange(i as int, names@.len() as int) =~= Seq::<(String, String)>::empty());
    None
}

/// A spec's name in the requested language, falling back to English and
/// then to the spec's id. `names` pairs each language with the name in it.
pub fn display_name(names: &[(String, String)], lang: &str, id: &str) -> (r: String)
    ensures
        r@ == shown_name(names@, lang@, id@),
{
    if let Some(n) = find_name(names, lang) {
        return n;
    }
    if let Some(n) = find_name(names, "en") {
        return n;
    }
    id.to_string()
}

/// Why a set of specs could not be loaded.
#[derive(Debug, Clone, PartialEq)]
pub enum SpecError {
    Parse(String),
    /// An `inherits` pointed at a spec that is not in the file.
    UnknownParent { spec: String, parent: String },
    /// Inheritance formed a cycle.
    CircularInheritance(String),
}

} // verus!

verus! {

/// A JSON value as spec loading reads it: text, an object, or any other
/// value carried through untouched as its JSON source text.
#[derive(Debug)]
pub enum Json {
    Text(String),
    Other(String),
    Object(Vec<(String, Json)>),
}

/// The mathematical form of a [`Json`] value.
pub enum JsonV {
    Text(Seq<char>),
    Other(Seq<char>),
    Object(Seq<(Seq<char>, JsonV)>),
}

impl Json {
    pub open spec fn view(self) -> JsonV
        decreases self,
    {
        match self {
            Json::Text(s) => JsonV::Text(s@),
            Json::Other(s) => JsonV::Other(s@),
            Json::Object(f) => JsonV::Object(
                Seq::new(
                    f@.len(),
                    |i: int|
                        if 0 <= i < f@.len() {
                            (f@[i].0@, f@[i].1.view())
                        } else {
                            (Seq::empty(), JsonV::Other(Seq::empty()))
                        },
                ),
            ),
        }
    }
}


/// Where `k` first occurs among `f`'s keys.
pub open spec fn find_key(f: Seq<(Seq<char>, JsonV)>, k: Seq<char>) -> Option<int>
    decreases f.len(),
{
    if f.len() == 0 {
        None
    } else if f[0].0 == k {
        Some(0)
    } else {
        match find_key(f.drop_first(), k) {
            Some(i) => Some(i + 1),
            None => None,
        }
    }
}

proof fn lemma_find_key_first(f: Seq<(Seq<char>, JsonV)>, k: Seq<char>, i: int)
    requires
        0 <= i < f.len(),
        f[i].0 == k,
        forall|j: int| 0 <= j < i ==> f[j].0 != k,
    ensures
        find_key(f, k) == Some(i),
    decreases i,
{
    if i > 0 {
        lemma_find_key_first(f.drop_first(), k, i - 1);
    }
}

proof fn lemma_find_key_none(f: Seq<(Seq<char>, JsonV)>, k: Seq<char>)
    requires
        forall|j: int| 0 <= j < f.len() ==> f[j].0 != k,
    ensures
        find_key(f, k) is None,
    decreases f.len(),
{
    if f.len() > 0 {
        lemma_find_key_none(f.drop_first(), k);
    }
}

/// `patch` laid over `base`: objects merge key by key, so a child can
/// override one field without restating its section; anything else replaces
/// wholesale, which is what an overridden array should do.
pub open spec fn merge_v(base: JsonV, patch: JsonV) -> JsonV
    decreases patch, 1nat,
{
    match patch {
        JsonV::Object(p) => match base {
            JsonV::Object(b) => JsonV::Object(merge_fields(b, p)),
            _ => patch,
        },
        _ => patch,
    }
}

/// The fields of `p` laid over `b`, in order.
pub open spec fn merge_fields(b: Seq<(Seq<char>, JsonV)>, p: Seq<(Seq<char>, JsonV)>) -> Seq<
    (Seq<char>, JsonV),
>
    decreases p, 0nat,
{
    if p.len() == 0 {
        b
    } else {
        let k = p[0].0;
        let b2 = match find_key(b, k) {
            Some(j) => b.update(j, (b[j].0, merge_v(b[j].1, p[0].1))),
            None => b.push(p[0]),
        };
        merge_fields(b2, p.subrange(1, p.len() as int))
    }
}


/// The view of an object's fields.
pub open spec fn fields_v(f: Seq<(String, Json)>) -> Seq<(Seq<char>, JsonV)> {
    Seq::new(f.len(), |i: int| (f[i].0@, f[i].1.view()))
}

proof fn lemma_object_view(f: Vec<(String, Json)>)
    ensures
        Json::Object(f).view() == JsonV::Object(fields_v(f@)),
{
    if let JsonV::Object(g) = Json::Object(f).view() {
        assert(g =~= fields_v(f@));
    }
}

impl Json {
    /// An independent copy of the whole value.
    pub fn copy(&self) -> (r: Json)
        ensures
            r.view() == self.view(),
        decreases self,
    {
        match self {
            Json::Text(s) => Json::Text(s.clone()),
            Json::Other(s) => Json::Other(s.clone()),
            Json::Object(f) => {
                let mut out: Vec<(String, Json)> = Vec::new();
                let mut i: usize = 0;
                while i < f.len()
                    invariant
                        *self == Json::Object(*f),
                        i <= f@.len(),
                        out@.len() == i,
                        forall|j: int|
                            0 <= j < i ==> #[trigger] fields_v(out@)[j] == fields_v(f@)[j],
                    decreases f@.len() - i,
                {
                    proof {
                        assert(decreases_to!(*self => (*self)->Object_0));
                        assert(decreases_to!(*f => f@));
                        assert(decreases_to!(f@ => f@[i as int]));
                        assert(decreases_to!(f@[i as int] => f@[i as int].1));
                    }
                    let v = f[i].1.copy();
                    let ghost prev = out@;
                    out.push((f[i].0.clone(), v));
                    proof {
                        assert(fields_v(out@)[i as int] == fields_v(f@)[i as int]);
                        assert forall|j: int| 0 <= j < i + 1 implies #[trigger] fields_v(out@)[j]
                            == fields_v(f@)[j] by {
                            if j < i {
                                assert(out@[j] == prev[j]);
                                assert(fields_v(prev)[j] == fields_v(f@)[j]);
                            }
                        }
                    }
                    i += 1;
                }
                proof {
                    lemma_object_view(out);
                    lemma_object_view(*f);
                    assert(fields_v(out@) =~= fields_v(f@));
                }
                Json::Object(out)
            },
        }
    }
}


/// Where `k` first occurs among the keys of `f`.
fn find_field(f: &Vec<(String, Json)>, k: &str) -> (r: Option<usize>)
    ensures
        r matches Some(i) ==> find_key(fields_v(f@), k@) == Some(i as int) && i < f@.len(),
        r is None ==> find_key(fields_v(f@), k@) is None,
{
    let mut i: usize = 0;
    while i < f.len()
        invariant
            i <= f@.len(),
            forall|j: int| 0 <= j < i ==> fields_v(f@)[j].0 != k@,
        decreases f@.len() - i,
    {
        if crate::text::same_text(f[i].0.as_str(), k) {
            proof {
                lemma_find_key_first(fields_v(f@), k@, i as int);
            }
            return Some(i);
        }
        i += 1;
    }
    proof {
        lemma_find_key_none(fields_v(f@), k@);
    }
    None
}

/// `patch` laid over `base`, as [`merge_v`] describes.
pub fn merge_into(base: Json, patch: &Json) -> (r: Json)
    ensures
        r.view() == merge_v(base.view(), patch.view()),
    decreases patch,
{
    match patch {
        Json::Object(p) => match base {
            Json::Object(b) => {
                let mut b = b;
                let ghost b0 = fields_v(b@);
                let ghost pv = fields_v(p@);
                proof {
                    lemma_object_view(b);
                    lemma_object_view(*p);
                    assert(pv.subrange(0, pv.len() as int) =~= pv);
                }
                let mut i: usize = 0;
                while i < p.len()
                    invariant
                        *patch == Json::Object(*p),
                        pv == fields_v(p@),
                        i <= p@.len(),
                        merge_fields(b0, pv) == merge_fields(
                            fields_v(b@),
                            pv.subrange(i as int, pv.len() as int),
                        ),
                    decreases p@.len() - i,
                {
                    let ghost bv = fields_v(b@);
                    let ghost rest = pv.subrange(i as int, pv.len() as int);
                    proof {
                        assert(rest.subrange(1, rest.len() as int) =~= pv.subrange(
                            i as int + 1,
                            pv.len() as int,
                        ));
                        assert(rest[0] == pv[i as int]);
                    }
                    match find_field(&b, p[i].0.as_str()) {
                        Some(j) => {
                            let (bk, bval) = b.remove(j);
                            proof {
                                assert(decreases_to!(*patch => (*patch)->Object_0));
                                assert(decreases_to!(p => p@));
                                assert(decreases_to!(p@ => p@[i as int]));
                                assert(decreases_to!(p@[i as int] => p@[i as int].1));
                            }
                            let m = merge_into(bval, &p[i].1);
                            b.insert(j, (bk, m));
                            proof {
                                assert(fields_v(b@) =~= bv.update(
                                    j as int,
                                    (bv[j as int].0, merge_v(bv[j as int].1, pv[i as int].1)),
                                ));
                            }
                        },
                        None => {
                            let v = p[i].1.copy();
                            b.push((p[i].0.clone(), v));
                            proof {
                                assert(fields_v(b@) =~= bv.push(pv[i as int]));
                            }
                        },
                    }
                    i += 1;
                }
                proof {
                    assert(pv.subrange(i as int, pv.len() as int).len() == 0);
                    lemma_object_view(b);
                    lemma_object_view(*p);
                }
                Json::Object(b)
            },
            _ => patch.copy(),
        },
        _ => patch.copy(),
    }
}


/// The text stored under `k`, when `j` is an object whose `k` is text.
pub open spec fn text_of(j: JsonV, k: Seq<char>) -> Option<Seq<char>> {
    match j {
        JsonV::Object(f) => match find_key(f, k) {
            Some(i) => match f[i].1 {
                JsonV::Text(t) => Some(t),
                _ => None,
            },
            None => None,
        },
        _ => None,
    }
}

/// The parent a spec names, if it names one as text.
pub open spec fn inherits_of(j: JsonV) -> Option<Seq<char>> {
    text_of(j, "inherits"@)
}

/// `f` with `k` set to `v`, in place where `k` already is.
pub open spec fn set_field_v(f: Seq<(Seq<char>, JsonV)>, k: Seq<char>, v: JsonV) -> Seq<
    (Seq<char>, JsonV),
> {
    match find_key(f, k) {
        Some(i) => f.update(i, (k, v)),
        None => f.push((k, v)),
    }
}

/// `f` without its field `k`.
pub open spec fn remove_field_v(f: Seq<(Seq<char>, JsonV)>, k: Seq<char>) -> Seq<
    (Seq<char>, JsonV),
> {
    match find_key(f, k) {
        Some(i) => f.remove(i),
        None => f,
    }
}

/// A merged spec given the child's own identity: its `id`, and no
/// `inherits` left over.
pub open spec fn finish_v(j: JsonV, id: Seq<char>) -> JsonV {
    match j {
        JsonV::Object(f) => JsonV::Object(
            remove_field_v(set_field_v(f, "id"@, JsonV::Text(id)), "inherits"@),
        ),
        _ => j,
    }
}

/// The ids of a chain, joined by arrows.
pub open spec fn join_chain(s: Seq<Seq<char>>) -> Seq<char>
    decreases s.len(),
{
    if s.len() == 0 {
        Seq::empty()
    } else if s.len() == 1 {
        s[0]
    } else {
        join_chain(s.drop_last()) + " -> "@ + s.last()
    }
}

/// The mathematical form of a [`SpecError`].
pub enum SpecFault {
    Parse(Seq<char>),
    UnknownParent(Seq<char>, Seq<char>),
    Circular(Seq<char>),
}

impl SpecError {
    pub open spec fn view(&self) -> SpecFault {
        match self {
            SpecError::Parse(m) => SpecFault::Parse(m@),
            SpecError::UnknownParent { spec, parent } => SpecFault::UnknownParent(spec@, parent@),
            SpecError::CircularInheritance(id) => SpecFault::Circular(id@),
        }
    }

    /// The message shown to the user.
    pub fn describe(&self) -> (s: String)
        ensures
            (match self.view() {
                SpecFault::Parse(m) => s@ == "could not parse specs: "@ + m,
                SpecFault::UnknownParent(c, p) => s@ == "spec "@ + c + " inherits from unknown spec "@
                    + p,
                SpecFault::Circular(id) => s@ == "circular inheritance at "@ + id,
            }),
    {
        match self {
            SpecError::Parse(m) => {
                let mut s = String::from_str("could not parse specs: ");
                s.append(m.as_str());
                s
            },
            SpecError::UnknownParent { spec, parent } => {
                let mut s = String::from_str("spec ");
                s.append(spec.as_str());
                s.append(" inherits from unknown spec ");
                s.append(parent.as_str());
                s
            },
            SpecError::CircularInheritance(id) => {
                let mut s = String::from_str("circular inheritance at ");
                s.append(id.as_str());
                s
            },
        }
    }
}

/// Resolving `id` against the specs `m`, having already passed through
/// `seen`, with `fuel` the number of specs not yet passed through.
///
/// A spec without a parent is itself. One with a parent is the parent,
/// resolved, with the spec laid over it, keeping the spec's own id. Meeting
/// a spec a second time is a cycle; naming a spec that is not there is an
/// unknown parent.
pub open spec fn resolve_spec(
    m: Map<Seq<char>, JsonV>,
    id: Seq<char>,
    seen: Seq<Seq<char>>,
    fuel: nat,
) -> Result<JsonV, SpecFault>
    decreases fuel,
{
    if seen.contains(id) {
        Err(SpecFault::Circular(id))
    } else if !m.contains_key(id) {
        Err(SpecFault::UnknownParent(join_chain(seen.push(id)), id))
    } else {
        match inherits_of(m[id]) {
            None => Ok(m[id]),
            Some(p) => if !m.contains_key(p) {
                Err(SpecFault::UnknownParent(id, p))
            } else if fuel == 0 {
                Err(SpecFault::Circular(p))
            } else {
                match resolve_spec(m, p, seen.push(id), (fuel - 1) as nat) {
                    Ok(parent) => Ok(finish_v(merge_v(parent, m[id]), id)),
                    Err(e) => Err(e),
                }
            },
        }
    }
}

/// Resolving `id` from the top, with every spec still unvisited.
pub open spec fn resolved(m: Map<Seq<char>, JsonV>, id: Seq<char>) -> Result<JsonV, SpecFault> {
    resolve_spec(m, id, Seq::empty(), m.len())
}

/// The mathematical form of a resolution result.
pub open spec fn result_view(r: Result<Json, SpecError>) -> Result<JsonV, SpecFault> {
    match r {
        Ok(j) => Ok(j.view()),
        Err(e) => Err(e.view()),
    }
}

/// The views of a list of strings.
pub open spec fn texts(s: Seq<String>) -> Seq<Seq<char>> {
    Seq::new(s.len(), |i: int| s[i]@)
}

/// A spec file's entries, indexed by id, with the order they appeared in.
pub struct SpecIndex {
    by_id: KeyedStore<Json>,
    order: Vec<String>,
}

proof fn lemma_room_for(dom: Set<Seq<char>>, seen: Seq<Seq<char>>, id: Seq<char>)
    requires
        dom.finite(),
        seen.no_duplicates(),
        forall|i: int| 0 <= i < seen.len() ==> dom.contains(#[trigger] seen[i]),
        dom.contains(id),
        !seen.contains(id),
    ensures
        dom.len() >= seen.len() + 1,
{
    let s = seen.push(id);
    assert(s.no_duplicates()) by {
        assert forall|i: int, j: int| 0 <= i < s.len() && 0 <= j < s.len() && i != j implies s[i]
            != s[j] by {
            if i < seen.len() && j < seen.len() {
                assert(s[i] == seen[i] && s[j] == seen[j]);
            } else if i == seen.len() {
                assert(s[j] == seen[j]);
            } else {
                assert(s[i] == seen[i]);
            }
        }
    }
    s.unique_seq_to_set();
    assert(s.to_set().subset_of(dom)) by {
        assert forall|x: Seq<char>| s.to_set().contains(x) implies dom.contains(x) by {
            let i = choose|i: int| 0 <= i < s.len() && s[i] == x;
            if i < seen.len() {
                assert(s[i] == seen[i]);
            }
        }
    }
    vstd::set_lib::lemma_len_subset(s.to_set(), dom);
}

/// Whether `id` is among `seen`.
fn seen_contains(seen: &Vec<String>, id: &str) -> (r: bool)
    ensures
        r == texts(seen@).contains(id@),
{
    let mut i: usize = 0;
    while i < seen.len()
        invariant
            i <= seen@.len(),
            forall|j: int| 0 <= j < i ==> seen@[j]@ != id@,
        decreases seen@.len() - i,
    {
        if crate::text::same_text(seen[i].as_str(), id) {
            proof {
                assert(texts(seen@)[i as int] == id@);
            }
            return true;
        }
        i += 1;
    }
    false
}

/// The ids of `seen` joined by arrows.
fn join_seen(seen: &Vec<String>) -> (r: String)
    ensures
        r@ == join_chain(texts(seen@)),
{
    let mut r = String::new();
    let mut i: usize = 0;
    while i < seen.len()
        invariant
            i <= seen@.len(),
            r@ == join_chain(texts(seen@).take(i as int)),
        decreases seen@.len() - i,
    {
        let ghost before = texts(seen@).take(i as int);
        if i > 0 {
            r.append(" -> ");
        }
        r.append(seen[i].as_str());
        proof {
            let after = texts(seen@).take(i as int + 1);
            assert(after.drop_last() =~= before);
            if i == 0 {
                assert(before.len() == 0);
                assert(r@ =~= after[0]);
            }
        }
        i += 1;
    }
    proof {
        assert(texts(seen@).take(i as int) =~= texts(seen@));
    }
    r
}

/// The text under `k` in `j`, when `j` is an object whose `k` is text.
fn text_field<'a>(j: &'a Json, k: &str) -> (r: Option<&'a String>)
    ensures
        match r {
            Some(t) => text_of(j.view(), k@) == Some(t@),
            None => text_of(j.view(), k@) is None,
        },
{
    match j {
        Json::Object(f) => {
            proof {
                lemma_object_view(*f);
            }
            match find_field(f, k) {
                Some(i) => match &f[i].1 {
                    Json::Text(t) => Some(t),
                    _ => None,
                },
                None => None,
            }
        },
        _ => None,
    }
}

/// `j` with the identity of `id`: its `id` set, its `inherits` gone.
fn finish(j: Json, id: &str) -> (r: Json)
    ensures
        r.view() == finish_v(j.view(), id@),
{
    match j {
        Json::Object(f) => {
            let mut f = f;
            let ghost f0 = fields_v(f@);
            proof {
                lemma_object_view(f);
            }
            match find_field(&f, "id") {
                Some(i) => {
                    f.set(i, (String::from_str("id"), Json::Text(String::from_str(id))));
                    proof {
                        reveal_strlit("id");
                        assert(fields_v(f@) =~= f0.update(i as int, ("id"@, JsonV::Text(id@))));
                    }
                },
                None => {
                    f.push((String::from_str("id"), Json::Text(String::from_str(id))));
                    proof {
                        assert(fields_v(f@) =~= f0.push(("id"@, JsonV::Text(id@))));
                    }
                },
            }
            let ghost f1 = fields_v(f@);
            match find_field(&f, "inherits") {
                Some(i) => {
                    let _ = f.remove(i);
                    proof {
                        assert(fields_v(f@) =~= f1.remove(i as int));
                    }
                },
                None => {},
            }
            proof {
                lemma_object_view(f);
            }
            Json::Object(f)
        },
        other => other,
    }
}

impl SpecIndex {
    /// The index is in order.
    pub closed spec fn wf(&self) -> bool {
        self.by_id.wf()
    }

    /// Each id with its entry, as written in the file.
    pub closed spec fn entries(&self) -> Map<Seq<char>, JsonV> {
        self.by_id.contents().map_values(|j: Json| j.view())
    }

    /// The ids in file order, repeats included.
    pub closed spec fn ids(&self) -> Seq<Seq<char>> {
        texts(self.order@)
    }

    /// The ids in file order.
    pub fn order(&self) -> (r: &[String])
        ensures
            texts(r@) == self.ids(),
    {
        self.order.as_slice()
    }

    /// The entry `id` merged onto its chain of parents.
    pub fn resolve(&self, id: &str) -> (r: Result<Json, SpecError>)
        requires
            self.wf(),
        ensures
            result_view(r) == resolved(self.entries(), id@),
    {
        let seen: Vec<String> = Vec::new();
        proof {
            self.by_id.lemma_contents_finite();
            assert(texts(seen@) =~= Seq::<Seq<char>>::empty());
        }
        self.resolve_from(id, seen)
    }

    fn resolve_from(&self, id: &str, seen: Vec<String>) -> (r: Result<Json, SpecError>)
        requires
            self.wf(),
            texts(seen@).no_duplicates(),
            forall|i: int|
                0 <= i < seen@.len() ==> self.entries().contains_key(#[trigger] texts(seen@)[i]),
            seen@.len() <= self.entries().len(),
        ensures
            result_view(r) == resolve_spec(
                self.entries(),
                id@,
                texts(seen@),
                (self.entries().len() - seen@.len()) as nat,
            ),
        decreases self.entries().len() - seen@.len(),
    {
        proof {
            self.by_id.lemma_contents_finite();
        }
        let ghost m = self.entries();
        let ghost sv = texts(seen@);
        if seen_contains(&seen, id) {
            return Err(SpecError::CircularInheritance(String::from_str(id)));
        }
        let mut seen = seen;
        seen.push(String::from_str(id));
        proof {
            assert(texts(seen@) =~= sv.push(id@));
        }
        let entry = match self.by_id.get(id) {
            Some(e) => e,
            None => {
                let chain = join_seen(&seen);
                return Err(SpecError::UnknownParent { spec: chain, parent: String::from_str(id) });
            },
        };
        proof {
            assert(m[id@] == entry.view());
        }
        let parent_id = match text_field(entry, "inherits") {
            Some(p) => p,
            None => {
                return Ok(entry.copy());
            },
        };
        if self.by_id.get(parent_id.as_str()).is_none() {
            return Err(
                SpecError::UnknownParent {
                    spec: String::from_str(id),
                    parent: String::from_str(parent_id.as_str()),
                },
            );
        }
        proof {
            assert(m.dom() =~= self.by_id.contents().dom());
            lemma_room_for(m.dom(), sv, id@);
            assert(texts(seen@).no_duplicates()) by {
                assert forall|a: int, b: int|
                    0 <= a < texts(seen@).len() && 0 <= b < texts(seen@).len() && a != b implies texts(
                    seen@,
                )[a] != texts(seen@)[b] by {
                    if a < sv.len() && b < sv.len() {
                        assert(texts(seen@)[a] == sv[a] && texts(seen@)[b] == sv[b]);
                    } else if a == sv.len() {
                        assert(texts(seen@)[b] == sv[b]);
                    } else {
                        assert(texts(seen@)[a] == sv[a]);
                    }
                }
            }
            assert forall|i: int| 0 <= i < seen@.len() implies m.contains_key(
                #[trigger] texts(seen@)[i],
            ) by {
                if i < sv.len() {
                    assert(texts(seen@)[i] == sv[i]);
                }
            }
        }
        let parent = match self.resolve_from(parent_id.as_str(), seen) {
            Ok(p) => p,
            Err(e) => {
                return Err(e);
            },
        };
        let merged = merge_into(parent, entry);
        Ok(finish(merged, id))
    }
}

/// The id a spec entry gives itself.
pub open spec fn id_of(j: JsonV) -> Seq<char> {
    text_of(j, "id"@)->Some_0
}

/// Entries indexed by id, a later entry replacing an earlier one with the
/// same id.
pub open spec fn indexed(entries: Seq<JsonV>) -> Map<Seq<char>, JsonV>
    decreases entries.len(),
{
    if entries.len() == 0 {
        Map::empty()
    } else {
        indexed(entries.drop_last()).insert(id_of(entries.last()), entries.last())
    }
}

/// The views of a list of JSON values.
pub open spec fn json_views(v: Seq<Json>) -> Seq<JsonV> {
    Seq::new(v.len(), |i: int| v[i].view())
}

/// Index the entries of a spec file by id.
///
/// `None` stands for a document without a `specs` array. Every entry needs
/// an `id` given as text; a later entry with the same id replaces an
/// earlier one in the index, though both keep their place in the order.
pub fn index_specs(specs: Option<Vec<Json>>) -> (r: Result<SpecIndex, SpecError>)
    ensures
        specs is None ==> r is Err && r->Err_0.view() == SpecFault::Parse("missing `specs` array"@),
        specs matches Some(v) ==> {
            &&& (forall|i: int| 0 <= i < v@.len() ==> text_of(#[trigger] v@[i].view(), "id"@) is Some)
                ==> r is Ok
            &&& (exists|i: int| 0 <= i < v@.len() && text_of(#[trigger] v@[i].view(), "id"@) is None)
                ==> r is Err && r->Err_0.view() == SpecFault::Parse("a spec has no id"@)
        },
        r matches Ok(idx) ==> idx.wf(),
        r matches Ok(idx) ==> (specs matches Some(v) && {
            &&& idx.ids() == Seq::new(v@.len(), |i: int| text_of(v@[i].view(), "id"@)->Some_0)
            &&& idx.entries() == indexed(json_views(v@))
        }),
{
    let v = match specs {
        Some(v) => v,
        None => {
            return Err(SpecError::Parse(String::from_str("missing `specs` array")));
        },
    };
    let ghost v0 = v@;
    let mut by_id: KeyedStore<Json> = KeyedStore::new();
    let mut order: Vec<String> = Vec::new();
    let mut rest = v;
    let ghost mut k: int = 0;
    while rest.len() > 0
        invariant
            specs is Some,
            specs->Some_0@ == v0,
            0 <= k <= v0.len(),
            rest@ == v0.subrange(k, v0.len() as int),
            by_id.wf(),
            order@.len() == k,
            forall|i: int| 0 <= i < k ==> text_of(#[trigger] v0[i].view(), "id"@) is Some,
            forall|i: int|
                0 <= i < k ==> #[trigger] texts(order@)[i] == text_of(v0[i].view(), "id"@)->Some_0,
            by_id.contents().map_values(|j: Json| j.view()) == indexed(json_views(v0).take(k)),
        decreases rest@.len(),
    {
        let e = rest.remove(0);
        proof {
            assert(e == v0[k]);
        }
        let id = match text_field(&e, "id") {
            Some(t) => t.clone(),
            None => {
                return Err(SpecError::Parse(String::from_str("a spec has no id")));
            },
        };
        let ghost before = by_id.contents();
        let ghost order_before = texts(order@);
        order.push(id.clone());
        by_id.insert(id.as_str(), e);
        proof {
            assert forall|i: int| 0 <= i < k + 1 implies #[trigger] texts(order@)[i] == text_of(
                v0[i].view(),
                "id"@,
            )->Some_0 by {
                if i < k {
                    assert(texts(order@)[i] == order_before[i]);
                }
            }
            let vs = json_views(v0);
            assert(vs.take(k + 1).drop_last() =~= vs.take(k));
            assert(vs.take(k + 1).last() == v0[k].view());
            assert(by_id.contents().map_values(|j: Json| j.view()) =~= before.map_values(
                |j: Json| j.view(),
            ).insert(id_of(v0[k].view()), v0[k].view()));
            k = k + 1;
            assert(rest@ =~= v0.subrange(k, v0.len() as int));
        }
    }
    let idx = SpecIndex { by_id, order };
    proof {
        assert(k == v0.len());
        assert(json_views(v0).take(k) =~= json_views(v0));
        assert(idx.ids() =~= Seq::new(v0.len(), |i: int| text_of(v0[i].view(), "id"@)->Some_0));
    }
    Ok(idx)
}


/// What `find_key` reports: the first field with that key, or none at all.
pub proof fn lemma_find_key_meaning(f: Seq<(Seq<char>, JsonV)>, k: Seq<char>)
    ensures
        find_key(f, k) matches Some(i) ==> 0 <= i < f.len() && f[i].0 == k && forall|j: int|
            0 <= j < i ==> f[j].0 != k,
        find_key(f, k) is None ==> forall|j: int| 0 <= j < f.len() ==> f[j].0 != k,
    decreases f.len(),
{
    if f.len() > 0 && f[0].0 != k {
        lemma_find_key_meaning(f.drop_first(), k);
        assert forall|j: int| 1 <= j < f.len() implies f[j].0 == f.drop_first()[j - 1].0 by {}
    }
}

/// A spec that names no parent resolves to itself, as written.
pub proof fn law_spec_without_parent_is_itself(m: Map<Seq<char>, JsonV>, id: Seq<char>)
    requires
        m.contains_key(id),
        inherits_of(m[id]) is None,
    ensures
        resolved(m, id) == Ok::<JsonV, SpecFault>(m[id]),
{
}

/// Naming a parent that is not in the file is an error naming both.
pub proof fn law_unknown_parent_is_reported(m: Map<Seq<char>, JsonV>, id: Seq<char>, p: Seq<char>)
    requires
        m.contains_key(id),
        inherits_of(m[id]) == Some(p),
        !m.contains_key(p),
    ensures
        resolved(m, id) == Err::<JsonV, SpecFault>(SpecFault::UnknownParent(id, p)),
{
}

/// Two specs naming each other as parent are caught as a cycle rather than
/// followed forever; so is a spec naming itself.
pub proof fn law_inheritance_cycles_are_caught(m: Map<Seq<char>, JsonV>, a: Seq<char>, b: Seq<char>)
    requires
        m.dom().finite(),
        m.contains_key(a),
        m.contains_key(b),
        inherits_of(m[a]) == Some(b),
        inherits_of(m[b]) == Some(a),
    ensures
        resolved(m, a) == Err::<JsonV, SpecFault>(SpecFault::Circular(a)),
{
    let e: Seq<Seq<char>> = Seq::empty();
    assert(!e.contains(a));
    assert(m.len() >= 1) by {
        vstd::set_lib::lemma_len_subset(set![a], m.dom());
    }
    let n = m.len();
    if a == b {
        assert(e.push(a).contains(a)) by {
            assert(e.push(a)[0] == a);
        }
        assert(resolve_spec(m, a, e.push(a), (n - 1) as nat) == Err::<JsonV, SpecFault>(
            SpecFault::Circular(a),
        ));
    } else {
        assert(m.len() >= 2) by {
            assert(set![a, b].len() == 2) by {
                assert(set![a].len() == 1);
                assert(!set![a].contains(b));
            }
            vstd::set_lib::lemma_len_subset(set![a, b], m.dom());
        }
        let s1 = e.push(a);
        assert(!s1.contains(b)) by {
            if s1.contains(b) {
                let i = choose|i: int| 0 <= i < s1.len() && s1[i] == b;
                assert(s1[0] == a);
            }
        }
        assert(s1.push(b).contains(a)) by {
            assert(s1.push(b)[0] == a);
        }
        assert(resolve_spec(m, a, s1.push(b), (n - 2) as nat) == Err::<JsonV, SpecFault>(
            SpecFault::Circular(a),
        ));
        assert(resolve_spec(m, b, s1, (n - 1) as nat) == Err::<JsonV, SpecFault>(
            SpecFault::Circular(a),
        ));
    }
}

/// Resolving keeps the child's identity: whatever the parent was called,
/// the merged spec carries the child's own id.
pub proof fn law_child_keeps_its_id(m: Map<Seq<char>, JsonV>, id: Seq<char>, r: JsonV)
    requires
        m.contains_key(id),
        inherits_of(m[id]) is Some,
        resolved(m, id) == Ok::<JsonV, SpecFault>(r),
    ensures
        text_of(r, "id"@) == Some(id),
{
    reveal_strlit("id");
    reveal_strlit("inherits");
    assert("id"@.len() == 2);
    assert("inherits"@.len() == 8);
    let child = m[id];
    assert(child is Object);
    let parent = choose|pj: JsonV|
        resolve_spec(m, inherits_of(child)->Some_0, Seq::<Seq<char>>::empty().push(id), (m.len() - 1) as nat)
            == Ok::<JsonV, SpecFault>(pj);
    let merged = merge_v(parent, child);
    assert(r == finish_v(merged, id));
    let f = merged->Object_0;
    let g = set_field_v(f, "id"@, JsonV::Text(id));
    lemma_find_key_meaning(f, "id"@);
    let i0 = match find_key(f, "id"@) {
        Some(i) => i,
        None => f.len() as int,
    };
    assert(g[i0] == ("id"@, JsonV::Text(id)));
    assert forall|j: int| 0 <= j < i0 implies g[j].0 != "id"@ by {}
    lemma_find_key_meaning(g, "inherits"@);
    let h = remove_field_v(g, "inherits"@);
    match find_key(g, "inherits"@) {
        Some(rm) => {
            assert(rm != i0);
            if rm < i0 {
                assert(h[i0 - 1] == g[i0]);
                assert forall|j: int| 0 <= j < i0 - 1 implies h[j].0 != "id"@ by {
                    if j < rm {
                        assert(h[j] == g[j]);
                    } else {
                        assert(h[j] == g[j + 1]);
                    }
                }
                lemma_find_key_first(h, "id"@, i0 - 1);
            } else {
                assert(h[i0] == g[i0]);
                assert forall|j: int| 0 <= j < i0 implies h[j].0 != "id"@ by {
                    assert(h[j] == g[j]);
                }
                lemma_find_key_first(h, "id"@, i0);
            }
        },
        None => {
            lemma_find_key_first(g, "id"@, i0);
        },
    }
}


/// One field of a patch laid over `b`.
pub open spec fn merge_step(b: Seq<(Seq<char>, JsonV)>, kv: (Seq<char>, JsonV)) -> Seq<
    (Seq<char>, JsonV),
> {
    match find_key(b, kv.0) {
        Some(j) => b.update(j, (b[j].0, merge_v(b[j].1, kv.1))),
        None => b.push(kv),
    }
}

proof fn lemma_merge_fields_unfold(b: Seq<(Seq<char>, JsonV)>, p: Seq<(Seq<char>, JsonV)>)
    requires
        p.len() > 0,
    ensures
        merge_fields(b, p) == merge_fields(merge_step(b, p[0]), p.subrange(1, p.len() as int)),
{
}

/// A step for another key leaves where `k` is, and what it holds, alone;
/// and adds no `k` where there was none.
proof fn lemma_step_keeps_other_keys(
    b: Seq<(Seq<char>, JsonV)>,
    kv: (Seq<char>, JsonV),
    k: Seq<char>,
)
    requires
        kv.0 != k,
    ensures
        find_key(b, k) matches Some(j) ==> find_key(merge_step(b, kv), k) == Some(j) && merge_step(
            b,
            kv,
        )[j] == b[j],
        find_key(b, k) is None ==> find_key(merge_step(b, kv), k) is None,
{
    let c = merge_step(b, kv);
    lemma_find_key_meaning(b, k);
    lemma_find_key_meaning(b, kv.0);
    assert forall|t: int| 0 <= t < b.len() implies c[t].0 == b[t].0 && (b[t].0 == k ==> c[t] == b[t]) by {}
    if c.len() > b.len() {
        assert(c[b.len() as int] == kv);
    }
    match find_key(b, k) {
        Some(j) => {
            assert forall|t: int| 0 <= t < j implies c[t].0 != k by {}
            lemma_find_key_first(c, k, j);
        },
        None => {
            assert forall|t: int| 0 <= t < c.len() implies c[t].0 != k by {}
            lemma_find_key_none(c, k);
        },
    }
}

/// Laying over fields none of which is `k` leaves `k` as it was.
proof fn lemma_fold_keeps_other_keys(
    b: Seq<(Seq<char>, JsonV)>,
    q: Seq<(Seq<char>, JsonV)>,
    k: Seq<char>,
)
    requires
        forall|t: int| 0 <= t < q.len() ==> #[trigger] q[t].0 != k,
    ensures
        find_key(b, k) matches Some(j) ==> find_key(merge_fields(b, q), k) == Some(j)
            && merge_fields(b, q)[j] == b[j],
        find_key(b, k) is None ==> find_key(merge_fields(b, q), k) is None,
    decreases q.len(),
{
    if q.len() > 0 {
        lemma_step_keeps_other_keys(b, q[0], k);
        let rest = q.subrange(1, q.len() as int);
        assert forall|t: int| 0 <= t < rest.len() implies #[trigger] rest[t].0 != k by {
            assert(rest[t] == q[t + 1]);
        }
        lemma_fold_keeps_other_keys(merge_step(b, q[0]), rest, k);
    }
}

/// Laying over `p` is laying over its first `i` fields, then the rest.
proof fn lemma_fold_split(b: Seq<(Seq<char>, JsonV)>, p: Seq<(Seq<char>, JsonV)>, i: int)
    requires
        0 <= i <= p.len(),
    ensures
        merge_fields(b, p) == merge_fields(
            merge_fields(b, p.subrange(0, i)),
            p.subrange(i, p.len() as int),
        ),
    decreases i,
{
    if i == 0 {
        assert(p.subrange(0, p.len() as int) =~= p);
    } else {
        let p1 = p.subrange(1, p.len() as int);
        lemma_fold_split(merge_step(b, p[0]), p1, i - 1);
        let x = p.subrange(0, i);
        assert(x.subrange(1, x.len() as int) =~= p1.subrange(0, i - 1));
        assert(x[0] == p[0]);
        assert(p1.subrange(i - 1, p1.len() as int) =~= p.subrange(i, p.len() as int));
    }
}

/// Whether no two fields of `f` share a key, as in any JSON object.
pub open spec fn keys_unique(f: Seq<(Seq<char>, JsonV)>) -> bool {
    forall|a: int, b: int| 0 <= a < f.len() && 0 <= b < f.len() && a != b ==> f[a].0 != f[b].0
}

/// A child overrides one field without restating its section: a value the
/// child gives that is not itself an object replaces the parent's, and a
/// key the child does not mention keeps the parent's value where it was.
pub proof fn law_child_overrides_and_parent_fills_in(
    b: Seq<(Seq<char>, JsonV)>,
    p: Seq<(Seq<char>, JsonV)>,
    k: Seq<char>,
)
    requires
        keys_unique(p),
    ensures
        find_key(p, k) is Some && !(p[find_key(p, k)->Some_0].1 is Object) ==> find_key(
            merge_fields(b, p),
            k,
        ) is Some && merge_fields(b, p)[find_key(merge_fields(b, p), k)->Some_0].1 == p[find_key(
            p,
            k,
        )->Some_0].1,
        find_key(p, k) is None && find_key(b, k) is Some ==> find_key(merge_fields(b, p), k) == find_key(
            b,
            k,
        ) && merge_fields(b, p)[find_key(b, k)->Some_0] == b[find_key(b, k)->Some_0],
{
    lemma_find_key_meaning(p, k);
    match find_key(p, k) {
        None => {
            lemma_fold_keeps_other_keys(b, p, k);
        },
        Some(i) => {
            if !(p[i].1 is Object) {
                lemma_fold_split(b, p, i);
                let x = p.subrange(0, i);
                assert forall|t: int| 0 <= t < x.len() implies #[trigger] x[t].0 != k by {
                    assert(x[t] == p[t]);
                }
                lemma_fold_keeps_other_keys(b, x, k);
                let b1 = merge_fields(b, x);
                let y = p.subrange(i, p.len() as int);
                lemma_merge_fields_unfold(b1, y);
                assert(y[0] == p[i]);
                let b2 = merge_step(b1, p[i]);
                lemma_find_key_meaning(b1, k);
                let j = match find_key(b1, k) {
                    Some(j) => j,
                    None => b1.len() as int,
                };
                assert(b2[j].1 == p[i].1);
                assert(b2[j].0 == k);
                assert forall|t: int| 0 <= t < j implies b2[t].0 != k by {}
                lemma_find_key_first(b2, k, j);
                let z = y.subrange(1, y.len() as int);
                assert forall|t: int| 0 <= t < z.len() implies #[trigger] z[t].0 != k by {
                    assert(z[t] == p[i + 1 + t]);
                }
                lemma_fold_keeps_other_keys(b2, z, k);
            }
        },
    }
}

} // verus!

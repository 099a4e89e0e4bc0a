//! Identifying a printer calibration.
//!
//! Every printer is slightly off, and the error differs with the paper size
//! and with borderless mode, because both change the transport path. A
//! calibration is therefore stored under a key naming all three, flattened to
//! one string for the config file.

use vstd::prelude::*;
use vstd::string::StringExecFns;
use crate::store::KeyedStore;

verus! {

/// Identifies one calibration. Two printers of the same model, or the same
/// printer with different paper, do not share a correction.
#[derive(Debug, Clone, PartialEq, Eq)]
pub struct CalibrationKey {
    pub printer_name: String,
    /// Paper size in whole micrometres, so the key can be compared exactly;
    /// millimetre floats would make 100.0 and 100.00000001 different keys.
    pub paper_width_um: u32,
    pub paper_height_um: u32,
    pub borderless: bool,
}

/// The ASCII digit for `d`.
pub open spec fn digit_char(d: int) -> char {
    (48 + d) as char
}

/// Decimal digits of `n`, most significant first, with no leading zeros.
pub open spec fn decimal(n: nat) -> Seq<char>
    decreases n,
{
    if n < 10 {
        seq![digit_char(n as int)]
    } else {
        decimal(n / 10) + seq![digit_char((n % 10) as int)]
    }
}

/// Whether `c` is one of `0`..`9`.
pub open spec fn is_digit(c: char) -> bool {
    '0' <= c <= '9'
}

/// The text form of a flag in a storage key.
pub open spec fn flag_text(b: bool) -> Seq<char> {
    if b {
        "true"@
    } else {
        "false"@
    }
}

/// The flat storage form of a key: `name|WIDTHxHEIGHT|borderless`.
pub open spec fn storage_key(name: Seq<char>, w: nat, h: nat, borderless: bool) -> Seq<char> {
    name + seq!['|'] + decimal(w) + seq!['x'] + decimal(h) + seq!['|'] + flag_text(borderless)
}

impl CalibrationKey {
    /// A key for `printer_name` and a sheet of the given size in micrometres.
    pub fn new(printer_name: &str, paper_width_um: u32, paper_height_um: u32, borderless: bool) -> (k:
        Self)
        ensures
            k.printer_name@ == printer_name@,
            k.paper_width_um == paper_width_um,
            k.paper_height_um == paper_height_um,
            k.borderless == borderless,
    {
        Self { printer_name: String::from_str(printer_name), paper_width_um, paper_height_um, borderless }
    }

    /// Flat string form, used as the config-file table key.
    pub fn to_storage_key(&self) -> (s: String)
        ensures
            s@ == storage_key(
                self.printer_name@,
                self.paper_width_um as nat,
                self.paper_height_um as nat,
                self.borderless,
            ),
    {
        let mut s = String::from_str(self.printer_name.as_str());
        s.append("|");
        push_decimal(&mut s, self.paper_width_um as u64);
        s.append("x");
        push_decimal(&mut s, self.paper_height_um as u64);
        s.append("|");
        if self.borderless {
            s.append("true");
        } else {
            s.append("false");
        }
        proof {
            reveal_strlit("|");
            reveal_strlit("x");
        }
        s
    }
}

/// Append the decimal digits of `n`.
pub(crate) fn push_decimal(s: &mut String, n: u64)
    ensures
        final(s)@ == old(s)@ + decimal(n as nat),
    decreases n,
{
    if n >= 10 {
        push_decimal(s, n / 10);
    }
    let d = n % 10;
    match d {
        0 => s.append("0"),
        1 => s.append("1"),
        2 => s.append("2"),
        3 => s.append("3"),
        4 => s.append("4"),
        5 => s.append("5"),
        6 => s.append("6"),
        7 => s.append("7"),
        8 => s.append("8"),
        _ => s.append("9"),
    }
    proof {
        reveal_strlit("0");
        reveal_strlit("1");
        reveal_strlit("2");
        reveal_strlit("3");
        reveal_strlit("4");
        reveal_strlit("5");
        reveal_strlit("6");
        reveal_strlit("7");
        reveal_strlit("8");
        reveal_strlit("9");
        if n >= 10 {
            assert(decimal(n as nat) == decimal((n / 10) as nat) + seq![digit_char((n % 10) as int)]);
        }
    }
}

proof fn lemma_decimal_digits(n: nat)
    ensures
        decimal(n).len() >= 1,
        n >= 10 ==> decimal(n).len() >= 2,
        forall|i: int| 0 <= i < decimal(n).len() ==> #[trigger] is_digit(decimal(n)[i]),
    decreases n,
{
    if n >= 10 {
        lemma_decimal_digits(n / 10);
        let p = decimal(n / 10);
        assert forall|i: int| 0 <= i < decimal(n).len() implies #[trigger] is_digit(
            decimal(n)[i],
        ) by {
            if i < p.len() {
                assert(decimal(n)[i] == p[i]);
            }
        }
    }
}

proof fn lemma_digit_char_injective(a: int, b: int)
    requires
        0 <= a < 10,
        0 <= b < 10,
        digit_char(a) == digit_char(b),
    ensures
        a == b,
{
}

/// Different numbers have different decimal forms.
proof fn lemma_decimal_injective(a: nat, b: nat)
    requires
        decimal(a) == decimal(b),
    ensures
        a == b,
    decreases a,
{
    lemma_decimal_digits(a);
    lemma_decimal_digits(b);
    if a < 10 && b < 10 {
        assert(decimal(a)[0] == digit_char(a as int));
        assert(decimal(b)[0] == digit_char(b as int));
        lemma_digit_char_injective(a as int, b as int);
    } else if a >= 10 && b >= 10 {
        let da = decimal(a);
        let db = decimal(b);
        assert(da.last() == digit_char((a % 10) as int));
        assert(db.last() == digit_char((b % 10) as int));
        lemma_digit_char_injective((a % 10) as int, (b % 10) as int);
        assert(da.drop_last() =~= decimal(a / 10));
        assert(db.drop_last() =~= decimal(b / 10));
        lemma_decimal_injective(a / 10, b / 10);
    }
}

/// Splitting `p + [sep] + d` where `d` is all digits and `sep` is not a digit
/// is unique.
proof fn lemma_split_before_digits(p1: Seq<char>, d1: Seq<char>, p2: Seq<char>, d2: Seq<char>, sep: char)
    requires
        !is_digit(sep),
        forall|i: int| 0 <= i < d1.len() ==> #[trigger] is_digit(d1[i]),
        forall|i: int| 0 <= i < d2.len() ==> #[trigger] is_digit(d2[i]),
        p1 + seq![sep] + d1 == p2 + seq![sep] + d2,
    ensures
        p1 == p2,
        d1 == d2,
{
    let s1 = p1 + seq![sep] + d1;
    let s2 = p2 + seq![sep] + d2;
    let n = s1.len();
    if d1.len() < d2.len() {
        let k = n - d1.len() - 1;
        assert(s1[k] == sep);
        assert(s2[k] == d2[k - p2.len() - 1]);
        assert(is_digit(d2[k - p2.len() - 1]));
    } else if d2.len() < d1.len() {
        let k = n - d2.len() - 1;
        assert(s2[k] == sep);
        assert(s1[k] == d1[k - p1.len() - 1]);
        assert(is_digit(d1[k - p1.len() - 1]));
    }
    assert(d1.len() == d2.len());
    assert(p1.len() == p2.len());
    assert(p1 =~= s1.subrange(0, p1.len() as int));
    assert(p2 =~= s2.subrange(0, p2.len() as int));
    assert(d1 =~= s1.subrange(n - d1.len(), n as int));
    assert(d2 =~= s2.subrange(n - d2.len(), n as int));
}

/// Storage keys never collide: two keys with the same flat form name the
/// same printer, paper and borderless setting, even when a printer name
/// itself contains the separators.
pub proof fn law_storage_key_is_injective(
    n1: Seq<char>,
    w1: nat,
    h1: nat,
    b1: bool,
    n2: Seq<char>,
    w2: nat,
    h2: nat,
    b2: bool,
)
    requires
        storage_key(n1, w1, h1, b1) == storage_key(n2, w2, h2, b2),
    ensures
        n1 == n2,
        w1 == w2,
        h1 == h2,
        b1 == b2,
{
    reveal_strlit("true");
    reveal_strlit("false");
    let k1 = storage_key(n1, w1, h1, b1);
    let k2 = storage_key(n2, w2, h2, b2);
    let q1 = n1 + seq!['|'] + decimal(w1) + seq!['x'] + decimal(h1);
    let q2 = n2 + seq!['|'] + decimal(w2) + seq!['x'] + decimal(h2);
    assert(k1 =~= q1 + seq!['|'] + flag_text(b1));
    assert(k2 =~= q2 + seq!['|'] + flag_text(b2));
    let len = k1.len();
    if b1 != b2 {
        // "|true" and "false" end alike but differ five from the end.
        if b1 {
            assert(k1[len - 5] == '|');
            assert(k2[len - 5] == 'f');
        } else {
            assert(k2[len - 5] == '|');
            assert(k1[len - 5] == 'f');
        }
    }
    assert(b1 == b2);
    assert(q1 =~= k1.subrange(0, q1.len() as int));
    assert(q2 =~= k2.subrange(0, q2.len() as int));
    assert(q1 == q2);
    lemma_decimal_digits(w1);
    lemma_decimal_digits(w2);
    lemma_decimal_digits(h1);
    lemma_decimal_digits(h2);
    let r1 = n1 + seq!['|'] + decimal(w1);
    let r2 = n2 + seq!['|'] + decimal(w2);
    assert(q1 =~= r1 + seq!['x'] + decimal(h1));
    assert(q2 =~= r2 + seq!['x'] + decimal(h2));
    lemma_split_before_digits(r1, decimal(h1), r2, decimal(h2), 'x');
    lemma_decimal_injective(h1, h2);
    lemma_split_before_digits(n1, decimal(w1), n2, decimal(w2), '|');
    lemma_decimal_injective(w1, w2);
}


/// The storage key of `k`, as a sequence of characters.
pub open spec fn key_text(k: CalibrationKey) -> Seq<char> {
    storage_key(k.printer_name@, k.paper_width_um as nat, k.paper_height_um as nat, k.borderless)
}

/// All stored calibrations, under their flat storage keys.
///
/// What a calibration holds is the caller's business; the store only files
/// it under the key it was measured for.
#[verifier::reject_recursive_types(C)]
pub struct CalibrationStore<C> {
    entries: KeyedStore<C>,
}

impl<C> CalibrationStore<C> {
    /// The store is in order.
    pub closed spec fn wf(&self) -> bool {
        self.entries.wf()
    }

    /// Each storage key with its calibration.
    pub closed spec fn contents(&self) -> Map<Seq<char>, C> {
        self.entries.contents()
    }

    /// An empty store.
    pub fn new() -> (r: Self)
        ensures
            r.wf(),
            r.contents() == Map::<Seq<char>, C>::empty(),
    {
        CalibrationStore { entries: KeyedStore::new() }
    }

    /// The calibration stored for `key`.
    pub fn get(&self, key: &CalibrationKey) -> (r: Option<&C>)
        requires
            self.wf(),
        ensures
            match r {
                Some(c) => self.contents().contains_key(key_text(*key)) && *c == self.contents()[key_text(
                    *key,
                )],
                None => !self.contents().contains_key(key_text(*key)),
            },
    {
        let k = key.to_storage_key();
        self.entries.get(k.as_str())
    }

    /// Store `value` for `key`, replacing any earlier calibration.
    pub fn set(&mut self, key: &CalibrationKey, value: C)
        requires
            old(self).wf(),
        ensures
            final(self).wf(),
            final(self).contents() == old(self).contents().insert(key_text(*key), value),
    {
        let k = key.to_storage_key();
        self.entries.insert(k.as_str(), value);
    }

    /// Forget the calibration for `key`; says whether there was one.
    pub fn remove(&mut self, key: &CalibrationKey) -> (r: bool)
        requires
            old(self).wf(),
        ensures
            final(self).wf(),
            r == old(self).contents().contains_key(key_text(*key)),
            final(self).contents() == old(self).contents().remove(key_text(*key)),
    {
        let k = key.to_storage_key();
        self.entries.remove(k.as_str())
    }

    /// How many calibrations are stored.
    pub fn len(&self) -> (r: usize)
        requires
            self.wf(),
        ensures
            r == self.contents().len(),
    {
        self.entries.len()
    }

    /// Whether nothing is stored.
    pub fn is_empty(&self) -> (r: bool)
        requires
            self.wf(),
        ensures
            r == (self.contents().len() == 0),
    {
        self.entries.is_empty()
    }

    /// The storage keys in sorted order, as the config file lists them.
    pub fn storage_keys(&self) -> (r: Vec<String>)
        requires
            self.wf(),
        ensures
            forall|i: int, j: int|
                0 <= i < j < r@.len() ==> crate::text::text_lt(#[trigger] r@[i]@, #[trigger] r@[j]@),
            forall|k: Seq<char>|
                self.contents().contains_key(k) <==> exists|i: int| 0 <= i < r@.len() && r@[i]@ == k,
    {
        self.entries.keys()
    }

    /// File `value` under a storage key read back from the config file.
    pub fn insert_raw(&mut self, storage_key: &str, value: C)
        requires
            old(self).wf(),
        ensures
            final(self).wf(),
            final(self).contents() == old(self).contents().insert(storage_key@, value),
    {
        self.entries.insert(storage_key, value);
    }

    /// The calibration under a storage key as written in the config file.
    pub fn get_raw(&self, storage_key: &str) -> (r: Option<&C>)
        requires
            self.wf(),
        ensures
            match r {
                Some(c) => self.contents().contains_key(storage_key@) && *c == self.contents()[storage_key@],
                None => !self.contents().contains_key(storage_key@),
            },
    {
        self.entries.get(storage_key)
    }
}

/// Whether two keys name the same printer, paper and borderless setting.
pub open spec fn same_key(a: CalibrationKey, b: CalibrationKey) -> bool {
    &&& a.printer_name@ == b.printer_name@
    &&& a.paper_width_um == b.paper_width_um
    &&& a.paper_height_um == b.paper_height_um
    &&& a.borderless == b.borderless
}

/// What a write stores, a read of the same key gives back, whatever was
/// stored under other keys; and a read of any other key is unaffected.
pub proof fn law_read_gives_back_write<C>(
    before: Map<Seq<char>, C>,
    written: CalibrationKey,
    value: C,
    other: CalibrationKey,
)
    ensures
        before.insert(key_text(written), value).contains_key(key_text(written)),
        before.insert(key_text(written), value)[key_text(written)] == value,
        !same_key(other, written) ==> (before.insert(key_text(written), value).contains_key(key_text(other))
            == before.contains_key(key_text(other))),
        !same_key(other, written) && before.contains_key(key_text(other)) ==> before.insert(
            key_text(written),
            value,
        )[key_text(other)] == before[key_text(other)],
{
    if !same_key(other, written) && key_text(other) == key_text(written) {
        law_storage_key_is_injective(
            other.printer_name@,
            other.paper_width_um as nat,
            other.paper_height_um as nat,
            other.borderless,
            written.printer_name@,
            written.paper_width_um as nat,
            written.paper_height_um as nat,
            written.borderless,
        );
    }
}


impl<C> Default for CalibrationStore<C> {
    fn default() -> (r: Self)
        ensures
            r.wf(),
            r.contents() == Map::<Seq<char>, C>::empty(),
    {
        CalibrationStore::new()
    }
}

} // verus!

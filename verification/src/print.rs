//! Print jobs: the raster handed to a printer and the checks it must pass.

use vstd::prelude::*;
use vstd::string::StringExecFns;
use crate::calibration::{decimal, push_decimal};

verus! {

/// A printer as the spooler reports it.
#[derive(Debug, Clone, PartialEq, Eq)]
pub struct PrinterInfo {
    pub name: String,
    pub driver: String,
    pub is_default: bool,
}

/// Physical device resolution, dots per inch, horizontal and vertical.
#[derive(Debug, Clone, Copy, PartialEq, Eq, Structural)]
pub struct DeviceDpi {
    pub x: u32,
    pub y: u32,
}

/// Spooler job identifier.
#[derive(Debug, Clone, Copy, PartialEq, Eq, Structural)]
pub struct JobId(pub u32);

/// Why a print could not go ahead.
#[derive(Debug, Clone, PartialEq, Eq)]
pub enum PrintError {
    PrinterNotFound(String),
    EmptyRaster,
    RasterSizeMismatch { expected: usize, got: usize },
    /// A spooler call failed; carries the OS message.
    Backend(String),
    Unsupported(&'static str),
}

impl PrintError {
    /// The message shown to the user.
    pub fn describe(&self) -> (s: String)
        ensures
            (match *self {
                PrintError::PrinterNotFound(n) => s@ == "printer not found: "@ + n@,
                PrintError::EmptyRaster => s@ == "raster has zero width or height"@,
                PrintError::RasterSizeMismatch { expected, got } => s@
                    == "raster size mismatch: expected "@ + decimal(expected as nat)
                    + " bytes, got "@ + decimal(got as nat),
                PrintError::Backend(m) => s@ == "print backend error: "@ + m@,
                PrintError::Unsupported(m) => s@ == "unsupported: "@ + m@,
            }),
    {
        match self {
            PrintError::PrinterNotFound(n) => {
                let mut s = String::from_str("printer not found: ");
                s.append(n.as_str());
                s
            },
            PrintError::EmptyRaster => String::from_str("raster has zero width or height"),
            PrintError::RasterSizeMismatch { expected, got } => {
                let mut s = String::from_str("raster size mismatch: expected ");
                push_decimal(&mut s, *expected as u64);
                s.append(" bytes, got ");
                push_decimal(&mut s, *got as u64);
                s
            },
            PrintError::Backend(m) => {
                let mut s = String::from_str("print backend error: ");
                s.append(m.as_str());
                s
            },
            PrintError::Unsupported(m) => {
                let mut s = String::from_str("unsupported: ");
                s.append(m);
                s
            },
        }
    }
}

/// The spooler-backed printer access. It holds nothing: every call asks the
/// operating system afresh, so a printer plugged in meanwhile is seen.
#[derive(Debug, Clone, Copy, PartialEq, Eq, Structural)]
pub struct WindowsPrintBackend;

impl WindowsPrintBackend {
    pub fn new() -> (r: Self)
        ensures
            r == WindowsPrintBackend,
    {
        WindowsPrintBackend
    }
}

/// A sheet ready to print: BGRA, 8 bits per channel, top-down rows of
/// `width_px * 4` bytes.
#[derive(Debug, Clone)]
pub struct PrintJob {
    pub printer: String,
    pub pixels: Vec<u8>,
    pub width_px: u32,
    pub height_px: u32,
    pub document_name: String,
}

impl PrintJob {
    /// Bytes a buffer of these dimensions holds.
    pub open spec fn spec_expected_len(&self) -> int {
        self.width_px * self.height_px * 4
    }

    /// Bytes a valid buffer must contain.
    pub fn expected_len(&self) -> (n: usize)
        requires
            self.spec_expected_len() <= usize::MAX,
        ensures
            n == self.spec_expected_len(),
    {
        proof {
            assert(0 <= self.width_px * self.height_px) by (nonlinear_arith);
        }
        self.width_px as usize * self.height_px as usize * 4
    }

    /// Check the raster before it reaches the driver.
    pub fn validate(&self) -> (r: Result<(), PrintError>)
        requires
            self.spec_expected_len() <= usize::MAX,
        ensures
            (self.width_px == 0 || self.height_px == 0) ==> r == Err::<(), PrintError>(
                PrintError::EmptyRaster,
            ),
            (self.width_px != 0 && self.height_px != 0 && self.pixels.len()
                != self.spec_expected_len()) ==> r == Err::<(), PrintError>(
                PrintError::RasterSizeMismatch {
                    expected: self.spec_expected_len() as usize,
                    got: self.pixels.len(),
                },
            ),
            r is Ok <==> (self.width_px != 0 && self.height_px != 0 && self.pixels.len()
                == self.spec_expected_len()),
    {
        if self.width_px == 0 || self.height_px == 0 {
            return Err(PrintError::EmptyRaster);
        }
        let expected = self.expected_len();
        if self.pixels.len() != expected {
            return Err(PrintError::RasterSizeMismatch { expected, got: self.pixels.len() });
        }
        Ok(())
    }
}

/// The value DEVMODE can carry for a requested resolution: it stores DPI in an
/// `i16`, so anything larger is capped.
pub fn clamp_dpi(dpi: u32) -> (r: i16)
    ensures
        r == if dpi < 0x7fff {
            dpi as int
        } else {
            0x7fff
        },
{
    if dpi < 0x7fff {
        dpi as i16
    } else {
        0x7fff
    }
}

/// Strict order on resolutions: by horizontal DPI, then vertical.
pub open spec fn dpi_before(a: DeviceDpi, b: DeviceDpi) -> bool {
    a.x < b.x || (a.x == b.x && a.y < b.y)
}

/// Whether pair `k` of the driver's answer names resolution `d`: the answer
/// is a flat list of horizontal/vertical pairs, of which the first `written`
/// are filled in, and only positive pairs mean anything.
pub open spec fn pair_offers(pairs: Seq<i32>, written: int, k: int, d: DeviceDpi) -> bool {
    &&& 0 <= k < written
    &&& 2 * k + 1 < pairs.len()
    &&& pairs[2 * k] > 0
    &&& pairs[2 * k + 1] > 0
    &&& pairs[2 * k] == d.x
    &&& pairs[2 * k + 1] == d.y
}

/// The resolutions a driver offers, from its raw answer: pairs that are not
/// both positive are dropped, the rest come back sorted with duplicates
/// removed.
pub fn offered_resolutions(pairs: &[i32], written: usize) -> (out: Vec<DeviceDpi>)
    ensures
        forall|i: int, j: int|
            0 <= i < j < out.len() ==> dpi_before(#[trigger] out@[i], #[trigger] out@[j]),
        forall|d: DeviceDpi|
            #![trigger out@.contains(d)]
            out@.contains(d) <==> exists|k: int| pair_offers(pairs@, written as int, k, d),
{
    let mut out: Vec<DeviceDpi> = Vec::new();
    let len = pairs.len();
    let n = len / 2;
    let n = if written < n { written } else { n };
    let mut k: usize = 0;
    while k < n
        invariant
            k <= n,
            n <= written,
            2 * n <= pairs@.len(),
            len == pairs@.len(),
            forall|i: int, j: int|
                0 <= i < j < out.len() ==> dpi_before(#[trigger] out@[i], #[trigger] out@[j]),
            forall|d: DeviceDpi|
                #![trigger out@.contains(d)]
                out@.contains(d) <==> exists|m: int|
                    pair_offers(pairs@, written as int, m, d) && m < k,
        decreases n - k,
    {
        let x = pairs[2 * k];
        let y = pairs[2 * k + 1];
        let ghost old_out = out@;
        if x > 0 && y > 0 {
            let d = DeviceDpi { x: x as u32, y: y as u32 };
            insert_sorted(&mut out, d);
            proof {
                assert forall|e: DeviceDpi| #[trigger] out@.contains(e) <==> exists|m: int|
                    pair_offers(pairs@, written as int, m, e) && m < k + 1 by {
                    if out@.contains(e) && e != d {
                        assert(old_out.contains(e));
                    }
                    if e == d {
                        assert(pair_offers(pairs@, written as int, k as int, e));
                    }
                    if exists|m: int| pair_offers(pairs@, written as int, m, e) && m < k + 1 {
                        let m = choose|m: int| pair_offers(pairs@, written as int, m, e) && m < k
                            + 1;
                        if m < k {
                            assert(old_out.contains(e));
                        } else {
                            assert(e == d);
                        }
                    }
                }
            }
        } else {
            proof {
                assert forall|e: DeviceDpi| #[trigger] out@.contains(e) <==> exists|m: int|
                    pair_offers(pairs@, written as int, m, e) && m < k + 1 by {
                    if exists|m: int| pair_offers(pairs@, written as int, m, e) && m < k + 1 {
                        let m = choose|m: int| pair_offers(pairs@, written as int, m, e) && m < k
                            + 1;
                        assert(m != k);
                    }
                }
            }
        }
        k += 1;
    }
    proof {
        assert forall|d: DeviceDpi| #[trigger] out@.contains(d) <==> exists|k: int|
            pair_offers(pairs@, written as int, k, d) by {
            if exists|k: int| pair_offers(pairs@, written as int, k, d) {
                let m = choose|m: int| pair_offers(pairs@, written as int, m, d);
                assert(m < n);
            }
        }
    }
    out
}

/// Insert `d` into a strictly sorted list unless it is already there.
fn insert_sorted(v: &mut Vec<DeviceDpi>, d: DeviceDpi)
    requires
        forall|i: int, j: int|
            0 <= i < j < old(v).len() ==> dpi_before(#[trigger] old(v)@[i], #[trigger] old(v)@[j]),
    ensures
        forall|i: int, j: int|
            0 <= i < j < final(v).len() ==> dpi_before(#[trigger] final(v)@[i], #[trigger] final(v)@[j]),
        forall|e: DeviceDpi|
            #[trigger] final(v)@.contains(e) <==> (old(v)@.contains(e) || e == d),
{
    let mut j: usize = 0;
    while j < v.len() && (v[j].x < d.x || (v[j].x == d.x && v[j].y < d.y))
        invariant
            j <= v.len(),
            forall|i: int| 0 <= i < j ==> dpi_before(#[trigger] v@[i], d),
        decreases v.len() - j,
    {
        j += 1;
    }
    if j < v.len() && v[j].x == d.x && v[j].y == d.y {
        proof {
            assert(v@[j as int] == d);
            assert(v@.contains(d));
        }
        return;
    }
    let ghost before = v@;
    v.insert(j, d);
    proof {
        assert forall|i: int, k: int| 0 <= i < k < v.len() implies dpi_before(
            #[trigger] v@[i],
            #[trigger] v@[k],
        ) by {
            if k < j {
            } else if k == j {
            } else if i < j {
                assert(v@[k] == before[k - 1]);
                assert(dpi_before(before[i], d));
                if j < before.len() {
                    assert(!dpi_before(before[j as int], d));
                    if k - 1 > j {
                        assert(dpi_before(before[j as int], before[k - 1]));
                    }
                }
            } else if i == j {
                assert(v@[k] == before[k - 1]);
                assert(!dpi_before(before[j as int], d));
                assert(before[j as int] != d);
                if k - 1 > j {
                    assert(dpi_before(before[j as int], before[k - 1]));
                }
            } else {
                assert(v@[i] == before[i - 1]);
                assert(v@[k] == before[k - 1]);
            }
        }
        assert forall|e: DeviceDpi| #[trigger] v@.contains(e) <==> (before.contains(e) || e
            == d) by {
            if v@.contains(e) {
                let i = choose|i: int| 0 <= i < v.len() && v@[i] == e;
                if i < j {
                    assert(before[i] == e);
                } else if i > j {
                    assert(before[i - 1] == e);
                }
            }
            if before.contains(e) {
                let i = choose|i: int| 0 <= i < before.len() && before[i] == e;
                if i < j {
                    assert(v@[i] == e);
                } else {
                    assert(v@[i + 1] == e);
                }
            }
            if e == d {
                assert(v@[j as int] == d);
            }
        }
    }
}

/// UTF-16 code units of one character: itself below U+10000, a surrogate
/// pair above.
pub open spec fn utf16_char(c: char) -> Seq<u16> {
    let v = (c as u32) as int;
    if v < 0x10000 {
        seq![v as u16]
    } else {
        let u = v - 0x10000;
        seq![(0xD800 + u / 0x400) as u16, (0xDC00 + u % 0x400) as u16]
    }
}

/// UTF-16 code units of a string.
pub open spec fn utf16(s: Seq<char>) -> Seq<u16>
    decreases s.len(),
{
    if s.len() == 0 {
        Seq::empty()
    } else {
        utf16(s.drop_last()) + utf16_char(s.last())
    }
}

/// A string as the Win32 wide-character APIs take it: UTF-16, NUL-terminated.
pub fn to_wide(s: &str) -> (w: Vec<u16>)
    ensures
        w@ == utf16(s@).push(0),
{
    let chars = crate::text::chars_of(s);
    let mut out: Vec<u16> = Vec::new();
    let mut i: usize = 0;
    while i < chars.len()
        invariant
            i <= chars.len(),
            chars@ == s@,
            out@ == utf16(chars@.subrange(0, i as int)),
        decreases chars.len() - i,
    {
        let c = chars[i];
        let v = #[verifier::truncate] (c as u32);
        let ghost before = out@;

        if v < 0x10000 {
            out.push(v as u16);
        } else {
            let u = v - 0x10000;
            out.push((0xD800 + u / 0x400) as u16);
            out.push((0xDC00 + u % 0x400) as u16);
        }
        proof {
            let pre = chars@.subrange(0, i as int + 1);
            assert(pre.drop_last() =~= chars@.subrange(0, i as int));
            assert(pre.last() == c);
            assert(out@ =~= before + utf16_char(c));
        }
        i += 1;
    }
    proof {
        assert(chars@.subrange(0, chars.len() as int) =~= chars@);
    }
    out.push(0);
    out
}

} // verus!

//! Recognises output that package managers redraw in place (spinners,
//! progress bars, percentages, download counters), so that it is not kept as
//! permanent log output.
use vstd::prelude::*;
use vstd::string::StringSliceAdditionalSpecFns;

use crate::text::{contains_seq, find_bytes};

verus! {

broadcast use vstd::string::group_string_axioms;

pub open spec fn is_spinner_char(c: char) -> bool {
    c == '\\' || c == '|' || c == '/' || c == '-' || c == '_'
}

/// Full, light, medium and dark shade blocks, as drawn by progress bars.
pub open spec fn is_block_char(c: char) -> bool {
    c == '\u{2588}' || c == '\u{2591}' || c == '\u{2592}' || c == '\u{2593}'
}

pub open spec fn is_digit(b: u8) -> bool {
    0x30 <= b && b <= 0x39
}

/// At most two bytes, all of them spinner glyphs.
pub open spec fn is_spinner(line: Seq<char>, bytes: Seq<u8>) -> bool {
    bytes.len() <= 2 && forall|i: int| 0 <= i < line.len() ==> is_spinner_char(#[trigger] line[i])
}

pub open spec fn has_block_char(line: Seq<char>) -> bool {
    exists|i: int| 0 <= i < line.len() && is_block_char(#[trigger] line[i])
}

/// ASCII digits (possibly none) followed by one or more `%`.
pub open spec fn is_bare_percentage(b: Seq<u8>) -> bool {
    &&& b.len() > 0
    &&& b.last() == 0x25u8
    &&& forall|i: int| 0 <= i < b.len() ==> is_digit(#[trigger] b[i]) || b[i] == 0x25u8
    &&& forall|i: int, j: int| 0 <= i < j < b.len() && #[trigger] b[i] == 0x25u8 ==> #[trigger] b[j] == 0x25u8
}

/// `" KB / "`, `" MB / "` and `" GB / "`.
pub open spec fn unit_marker(unit: u8) -> Seq<u8> {
    seq![0x20u8, unit, 0x42u8, 0x20u8, 0x2fu8, 0x20u8]
}

/// Starts with an ASCII digit and holds a `"<qty> KB / "` style marker.
pub open spec fn is_byte_counter(b: Seq<u8>) -> bool {
    &&& b.len() > 0
    &&& is_digit(b[0])
    &&& (contains_seq(b, unit_marker(0x4bu8)) || contains_seq(b, unit_marker(0x4du8))
        || contains_seq(b, unit_marker(0x47u8)))
}

/// A finalized line that is nevertheless redraw noise.
pub open spec fn transient(line: Seq<char>) -> bool {
    let b = vstd::utf8::encode_utf8(line);
    is_spinner(line, b) || has_block_char(line) || is_bare_percentage(b) || is_byte_counter(b)
}

/// Spinner frames are always transient: a line of at most two bytes made
/// only of `\\`, `|`, `/`, `-` and `_`.
pub proof fn lemma_spinner_is_transient(line: Seq<char>)
    requires
        vstd::utf8::encode_utf8(line).len() <= 2,
        forall|i: int| 0 <= i < line.len() ==> is_spinner_char(#[trigger] line[i]),
    ensures
        transient(line),
{
}

fn all_spinner_chars(line: &str) -> (r: bool)
    ensures
        r == forall|i: int| 0 <= i < line@.len() ==> is_spinner_char(#[trigger] line@[i]),
{
    let mut all = true;
    for c in it: line.chars()
        invariant
            it.seq() == line@,
            all == forall|i: int| 0 <= i < it.index() ==> is_spinner_char(#[trigger] line@[i]),
    {
        if !(c == '\\' || c == '|' || c == '/' || c == '-' || c == '_') {
            all = false;
        }
    }
    all
}

fn any_block_char(line: &str) -> (r: bool)
    ensures
        r == has_block_char(line@),
{
    let mut any = false;
    for c in it: line.chars()
        invariant
            it.seq() == line@,
            any == exists|i: int| 0 <= i < it.index() && is_block_char(#[trigger] line@[i]),
    {
        if c == '\u{2588}' || c == '\u{2591}' || c == '\u{2592}' || c == '\u{2593}' {
            any = true;
        }
    }
    any
}

fn bare_percentage(b: &[u8]) -> (r: bool)
    ensures
        r == is_bare_percentage(b@),
{
    let n = b.len();
    if n == 0 || b[n - 1] != 0x25 {
        return false;
    }
    // `k` walks back over the trailing run of `%`.
    let mut k: usize = n - 1;
    while k > 0 && b[k - 1] == 0x25
        invariant
            k < n,
            n == b@.len(),
            forall|i: int| k <= i < n ==> b@[i] == 0x25u8,
        decreases k,
    {
        k -= 1;
    }
    let mut i: usize = 0;
    while i < k
        invariant
            k < n,
            n == b@.len(),
            i <= k,
            forall|m: int| 0 <= m < i ==> is_digit(#[trigger] b@[m]),
            forall|m: int| k <= m < n ==> b@[m] == 0x25u8,
            k > 0 ==> b@[k - 1] != 0x25u8,
        decreases k - i,
    {
        if !(0x30 <= b[i] && b[i] <= 0x39) {
            assert(!is_bare_percentage(b@)) by {
                assert(b@[i as int] != 0x25u8 ==> !(is_digit(b@[i as int]) || b@[i as int] == 0x25u8));
                if b@[i as int] == 0x25u8 {
                    assert(b@[k - 1] != 0x25u8);
                    if i < k - 1 {
                        assert(b@[i as int] == 0x25u8 && b@[k - 1] != 0x25u8);
                    }
                }
            }
            return false;
        }
        i += 1;
    }
    assert forall|x: int, y: int| 0 <= x < y < b@.len() && #[trigger] b@[x] == 0x25u8 implies #[trigger] b@[y] == 0x25u8 by {
        if x < k {
            assert(is_digit(b@[x]));
        }
    }
    true
}

fn byte_counter(b: &[u8]) -> (r: bool)
    ensures
        r == is_byte_counter(b@),
{
    if b.len() == 0 || !(0x30 <= b[0] && b[0] <= 0x39) {
        return false;
    }
    let kb: [u8; 6] = [0x20, 0x4b, 0x42, 0x20, 0x2f, 0x20];
    let mb: [u8; 6] = [0x20, 0x4d, 0x42, 0x20, 0x2f, 0x20];
    let gb: [u8; 6] = [0x20, 0x47, 0x42, 0x20, 0x2f, 0x20];
    assert(kb@ =~= unit_marker(0x4bu8));
    assert(mb@ =~= unit_marker(0x4du8));
    assert(gb@ =~= unit_marker(0x47u8));
    let found_kb = find_bytes(b, kb.as_slice()).is_some();
    let found_mb = find_bytes(b, mb.as_slice()).is_some();
    let found_gb = find_bytes(b, gb.as_slice()).is_some();
    found_kb || found_mb || found_gb
}

/// Whether a finalized line is transient output: a spinner glyph, a progress
/// bar, a bare percentage or a download counter. Real status lines are never
/// caught (the tests hold it to that); some noise may pass.
pub fn is_transient(line: &str) -> (r: bool)
    ensures
        r == transient(line@),
{
    let bytes = line.as_bytes();
    if bytes.len() <= 2 && all_spinner_chars(line) {
        return true;
    }
    if any_block_char(line) {
        return true;
    }
    if bare_percentage(bytes) {
        return true;
    }
    byte_counter(bytes)
}

} // verus!

//! Parses the fixed-width tables that the package manager prints for `list`
//! and `upgrade`: the header row gives each column's byte offset, and each
//! data row is cut at those offsets without splitting a character.
use vstd::prelude::*;
use vstd::string::StringSliceAdditionalSpecFns;
use vstd::utf8::{decode_utf8, encode_utf8, is_char_boundary, valid_utf8};

use crate::batch::{Invocation, OperationItem};
use crate::text::{contains_seq, find_bytes, first_offset, lemma_first_offset, lower_of, texts, to_lowercase, trim, trimmed};

verus! {

broadcast use {
    vstd::utf8::encode_utf8_valid_utf8,
    vstd::utf8::encode_utf8_decode_utf8,
    vstd::utf8::valid_utf8_split,
    vstd::utf8::is_char_boundary_start_end_of_seq,
    vstd::utf8::is_char_boundary_iff_not_is_continuation_byte,
};

/// The first character boundary of `b` at or after `i` (or the end).
pub open spec fn snap_up(b: Seq<u8>, i: int) -> int
    decreases b.len() - i,
{
    if i >= b.len() || is_char_boundary(b, i) {
        i
    } else {
        snap_up(b, i + 1)
    }
}

/// The last character boundary of `b` at or before `i` (or the start).
pub open spec fn snap_down(b: Seq<u8>, i: int) -> int
    decreases i,
{
    if i <= 0 || is_char_boundary(b, i) {
        i
    } else {
        snap_down(b, i - 1)
    }
}

pub open spec fn clamp(i: int, n: int) -> int {
    if i < n {
        i
    } else {
        n
    }
}

/// The trimmed text of `b` between byte offsets `start` and `end`, after both
/// are clamped to the length and moved inwards onto character boundaries.
pub open spec fn slice_text(b: Seq<u8>, start: int, end: int) -> Seq<char> {
    let s = snap_up(b, clamp(start, b.len() as int));
    let e = snap_down(b, clamp(end, b.len() as int));
    if s >= e {
        Seq::empty()
    } else {
        trimmed(decode_utf8(b.subrange(s, e)))
    }
}

/// The trimmed text of `b` from byte offset `start` to the end.
pub open spec fn slice_text_to_end(b: Seq<u8>, start: int) -> Seq<char> {
    let s = snap_up(b, clamp(start, b.len() as int));
    if s >= b.len() {
        Seq::empty()
    } else {
        trimmed(decode_utf8(b.subrange(s, b.len() as int)))
    }
}

/// Moves `i` forward to the next character boundary of `line` (or its end).
pub fn snap_forward(line: &str, i: usize) -> (r: usize)
    ensures
        r == snap_up(line.spec_bytes(), i as int),
{
    let n = line.as_bytes().len();
    if i >= n {
        return i;
    }
    let mut j = i;
    while j < n && !line.is_char_boundary(j)
        invariant
            n == line.spec_bytes().len(),
            i <= j <= line.spec_bytes().len(),
            snap_up(line.spec_bytes(), i as int) == snap_up(line.spec_bytes(), j as int),
        decreases line.spec_bytes().len() - j,
    {
        j += 1;
    }
    assert(j >= n || is_char_boundary(line.spec_bytes(), j as int));
    assert(snap_up(line.spec_bytes(), j as int) == j);
    j
}

/// Moves `i` back to the previous character boundary of `line` (or its start).
pub fn snap_back(line: &str, i: usize) -> (r: usize)
    ensures
        r == snap_down(line.spec_bytes(), i as int),
{
    let mut j = i;
    while j > 0 && !line.is_char_boundary(j)
        invariant
            j <= i,
            snap_down(line.spec_bytes(), i as int) == snap_down(line.spec_bytes(), j as int),
        decreases j,
    {
        j -= 1;
    }
    j
}

proof fn lemma_snap_up(b: Seq<u8>, i: int)
    requires
        valid_utf8(b),
        0 <= i <= b.len(),
    ensures
        i <= snap_up(b, i) <= b.len(),
        is_char_boundary(b, snap_up(b, i)),
        forall|j: int| i <= j < snap_up(b, i) ==> !is_char_boundary(b, j),
    decreases b.len() - i,
{
    if i < b.len() && !is_char_boundary(b, i) {
        lemma_snap_up(b, i + 1);
    }
}

proof fn lemma_snap_down(b: Seq<u8>, i: int)
    requires
        valid_utf8(b),
        0 <= i <= b.len(),
    ensures
        0 <= snap_down(b, i) <= i,
        is_char_boundary(b, snap_down(b, i)),
        forall|j: int| snap_down(b, i) < j <= i ==> !is_char_boundary(b, j),
    decreases i,
{
    if i > 0 && !is_char_boundary(b, i) {
        lemma_snap_down(b, i - 1);
    }
}

proof fn lemma_boundary_in_prefix(b: Seq<u8>, start: int, end: int)
    requires
        valid_utf8(b),
        0 <= start <= end <= b.len(),
        is_char_boundary(b, start),
        is_char_boundary(b, end),
    ensures
        valid_utf8(b.subrange(0, end)),
        is_char_boundary(b.subrange(0, end), start),
        valid_utf8(b.subrange(start, end)),
{
    let lb = b.subrange(0, end);
    assert(valid_utf8(lb));
    if start < end {
        assert(lb[start] == b[start]);
        assert(is_char_boundary(b, start) <==> !vstd::utf8::is_continuation_byte(b[start]));
        assert(is_char_boundary(lb, start) <==> !vstd::utf8::is_continuation_byte(lb[start]));
    } else {
        assert(is_char_boundary(lb, lb.len() as int));
    }
    assert(valid_utf8(lb.subrange(start, lb.len() as int)));
    assert(lb.subrange(start, lb.len() as int) =~= b.subrange(start, end));
}

/// Column cuts never split a character. For any well-formed line and any pair
/// of offsets, the clamped and snapped ends of the cut are character
/// boundaries, no boundary is skipped on the way, and the bytes between them
/// are well-formed UTF-8 that decodes and re-encodes to itself.
pub proof fn lemma_cuts_keep_characters(b: Seq<u8>, start: int, end: int)
    requires
        valid_utf8(b),
        0 <= start,
        0 <= end,
    ensures
        ({
            let n = b.len() as int;
            let s = snap_up(b, clamp(start, n));
            let e = snap_down(b, clamp(end, n));
            &&& clamp(start, n) <= s <= n
            &&& 0 <= e <= clamp(end, n)
            &&& is_char_boundary(b, s)
            &&& is_char_boundary(b, e)
            &&& forall|j: int| clamp(start, n) <= j < s ==> !is_char_boundary(b, j)
            &&& forall|j: int| e < j <= clamp(end, n) ==> !is_char_boundary(b, j)
            &&& s < e ==> valid_utf8(b.subrange(s, e))
            &&& s < e ==> encode_utf8(decode_utf8(b.subrange(s, e))) == b.subrange(s, e)
        }),
{
    let n = b.len() as int;
    lemma_snap_up(b, clamp(start, n));
    lemma_snap_down(b, clamp(end, n));
    let s = snap_up(b, clamp(start, n));
    let e = snap_down(b, clamp(end, n));
    if s < e {
        lemma_boundary_in_prefix(b, s, e);
        vstd::utf8::decode_utf8_encode_utf8(b.subrange(s, e));
    }
}

/// The bytes of `line` from `start` to `end`, both character boundaries.
fn sub_str(line: &str, start: usize, end: usize) -> (r: &str)
    requires
        start <= end <= line.spec_bytes().len(),
        is_char_boundary(line.spec_bytes(), start as int),
        is_char_boundary(line.spec_bytes(), end as int),
    ensures
        r@ == decode_utf8(line.spec_bytes().subrange(start as int, end as int)),
{
    let ghost b = line.spec_bytes();
    let (left, _) = line.split_at(end);
    let ghost lb = left.spec_bytes();
    assert(lb =~= b.subrange(0, end as int));
    proof {
        assert(valid_utf8(encode_utf8(line@)));
        lemma_boundary_in_prefix(b, start as int, end as int);
    }
    let (_, mid) = left.split_at(start);
    assert(mid.spec_bytes() =~= b.subrange(start as int, end as int));
    mid
}

/// The trimmed text between byte offsets `start` and `end`, never cutting a
/// character in two.
pub fn safe_slice(line: &str, start: usize, end: usize) -> (r: String)
    ensures
        r@ == slice_text(line.spec_bytes(), start as int, end as int),
{
    let n = line.as_bytes().len();
    let s = snap_forward(line, if start < n { start } else { n });
    let e = snap_back(line, if end < n { end } else { n });
    assert(s == snap_up(line.spec_bytes(), clamp(start as int, line.spec_bytes().len() as int)));
    assert(e == snap_down(line.spec_bytes(), clamp(end as int, line.spec_bytes().len() as int)));
    if s >= e {
        return String::new();
    }
    proof {
        lemma_snap_up(line.spec_bytes(), clamp(start as int, n as int));
        lemma_snap_down(line.spec_bytes(), clamp(end as int, n as int));
    }
    trim(sub_str(line, s, e)).to_owned()
}

/// The trimmed text from byte offset `start` to the end of the line, never
/// cutting a character in two.
pub fn safe_slice_to_end(line: &str, start: usize) -> (r: String)
    ensures
        r@ == slice_text_to_end(line.spec_bytes(), start as int),
{
    let n = line.as_bytes().len();
    let s = snap_forward(line, if start < n { start } else { n });
    if s >= n {
        return String::new();
    }
    proof {
        lemma_snap_up(line.spec_bytes(), clamp(start as int, n as int));
    }
    trim(sub_str(line, s, n)).to_owned()
}

/// `Name`
pub open spec fn name_key() -> Seq<u8> {
    seq![0x4eu8, 0x61u8, 0x6du8, 0x65u8]
}

/// `Id`
pub open spec fn id_key() -> Seq<u8> {
    seq![0x49u8, 0x64u8]
}

/// `Version`
pub open spec fn version_key() -> Seq<u8> {
    seq![0x56u8, 0x65u8, 0x72u8, 0x73u8, 0x69u8, 0x6fu8, 0x6eu8]
}

/// `Available`
pub open spec fn available_key() -> Seq<u8> {
    seq![0x41u8, 0x76u8, 0x61u8, 0x69u8, 0x6cu8, 0x61u8, 0x62u8, 0x6cu8, 0x65u8]
}

/// `Source`
pub open spec fn source_key() -> Seq<u8> {
    seq![0x53u8, 0x6fu8, 0x75u8, 0x72u8, 0x63u8, 0x65u8]
}

/// `upgrades available`
pub open spec fn summary_key() -> Seq<u8> {
    seq![
        0x75u8, 0x70u8, 0x67u8, 0x72u8, 0x61u8, 0x64u8, 0x65u8, 0x73u8, 0x20u8,
        0x61u8, 0x76u8, 0x61u8, 0x69u8, 0x6cu8, 0x61u8, 0x62u8, 0x6cu8, 0x65u8,
    ]
}

/// `upgrade(s) available`
pub open spec fn summary_alt_key() -> Seq<u8> {
    seq![
        0x75u8, 0x70u8, 0x67u8, 0x72u8, 0x61u8, 0x64u8, 0x65u8, 0x28u8, 0x73u8, 0x29u8,
        0x20u8, 0x61u8, 0x76u8, 0x61u8, 0x69u8, 0x6cu8, 0x61u8, 0x62u8, 0x6cu8, 0x65u8,
    ]
}

pub open spec fn has_key(line: Seq<char>, key: Seq<u8>) -> bool {
    contains_seq(encode_utf8(line), key)
}

/// Byte offset of a column name in the header.
pub open spec fn column(header: Seq<char>, key: Seq<u8>) -> int {
    first_offset(encode_utf8(header), key)
}

/// Byte offset of the optional `Source` column.
pub open spec fn source_column(header: Seq<char>) -> Option<int> {
    if has_key(header, source_key()) {
        Some(column(header, source_key()))
    } else {
        None
    }
}

pub open spec fn is_list_header(line: Seq<char>) -> bool {
    has_key(line, name_key()) && has_key(line, id_key()) && has_key(line, version_key())
}

pub open spec fn is_upgrade_header(line: Seq<char>) -> bool {
    is_list_header(line) && has_key(line, available_key())
}

/// A line that reports a count of upgrades rather than a package.
pub open spec fn is_summary(line: Seq<char>) -> bool {
    has_key(line, summary_key()) || has_key(line, summary_alt_key())
}

/// Dashes, box-drawing characters and spaces only.
pub open spec fn is_separator(line: Seq<char>) -> bool {
    forall|i: int|
        0 <= i < line.len() ==> {
            let c = #[trigger] line[i];
            c == '-' || c == ' ' || ('\u{2500}' <= c && c <= '\u{257f}')
        }
}

/// `h` is the index of the first line that `is_header` accepts.
pub open spec fn header_at(lines: Seq<Seq<char>>, h: int, is_header: spec_fn(Seq<char>) -> bool) -> bool {
    0 <= h < lines.len() && is_header(lines[h]) && forall|j: int|
        0 <= j < h ==> !is_header(#[trigger] lines[j])
}

pub open spec fn header_index(lines: Seq<Seq<char>>, is_header: spec_fn(Seq<char>) -> bool) -> Option<int> {
    if exists|h: int| header_at(lines, h, is_header) {
        Some(choose|h: int| header_at(lines, h, is_header))
    } else {
        None
    }
}

proof fn lemma_header_index(lines: Seq<Seq<char>>, h: int, is_header: spec_fn(Seq<char>) -> bool)
    requires
        header_at(lines, h, is_header),
    ensures
        header_index(lines, is_header) == Some(h),
{
    let c = choose|k: int| header_at(lines, k, is_header);
    assert(header_at(lines, c, is_header));
    if c < h {
        assert(!is_header(lines[c]));
    } else if c > h {
        assert(!is_header(lines[h]));
    }
}

/// The first data row: right after the header, or one further when that row
/// is a separator.
pub open spec fn data_start(lines: Seq<Seq<char>>, h: int) -> int {
    if h + 1 < lines.len() && is_separator(lines[h + 1]) {
        h + 2
    } else {
        h + 1
    }
}

/// A row of the `list` table.
pub struct InstalledRow {
    pub id: Seq<char>,
    pub version: Seq<char>,
}

/// A row of the `upgrade` table.
pub struct UpgradeRow {
    pub name: Seq<char>,
    pub id: Seq<char>,
    pub current: Seq<char>,
    pub available: Seq<char>,
    pub source: Seq<char>,
}

/// One data row of the `list` table, cut at the header's `Id`, `Version` and
/// (when present) `Source` offsets. The identifier is lowercased.
pub open spec fn list_row(line: Seq<char>, header: Seq<char>) -> Option<InstalledRow> {
    let b = encode_utf8(line);
    let id_col = column(header, id_key());
    let version_col = column(header, version_key());
    if is_summary(line) || b.len() < version_col + 1 {
        None
    } else {
        let id = slice_text(b, id_col, version_col);
        let version = match source_column(header) {
            Some(end) => slice_text(b, version_col, end),
            None => slice_text_to_end(b, version_col),
        };
        if id.len() == 0 || version.len() == 0 {
            None
        } else {
            Some(InstalledRow { id: lower_of(id), version })
        }
    }
}

/// One data row of the `upgrade` table.
pub open spec fn upgrade_row(line: Seq<char>, header: Seq<char>) -> Option<UpgradeRow> {
    let b = encode_utf8(line);
    let name_col = column(header, name_key());
    let id_col = column(header, id_key());
    let version_col = column(header, version_key());
    let available_col = column(header, available_key());
    if is_summary(line) || b.len() < available_col + 1 {
        None
    } else {
        let available = match source_column(header) {
            Some(sc) => slice_text(b, available_col, sc),
            None => slice_text_to_end(b, available_col),
        };
        let source = match source_column(header) {
            Some(sc) => slice_text_to_end(b, sc),
            None => Seq::empty(),
        };
        let id = slice_text(b, id_col, version_col);
        if id.len() == 0 || available.len() == 0 {
            None
        } else {
            Some(
                UpgradeRow {
                    name: slice_text(b, name_col, id_col),
                    id,
                    current: slice_text(b, version_col, available_col),
                    available,
                    source,
                },
            )
        }
    }
}

pub open spec fn list_rows(lines: Seq<Seq<char>>, header: Seq<char>) -> Seq<InstalledRow>
    decreases lines.len(),
{
    if lines.len() == 0 {
        seq![]
    } else {
        let rest = list_rows(lines.drop_last(), header);
        match list_row(lines.last(), header) {
            Some(row) => rest.push(row),
            None => rest,
        }
    }
}

pub open spec fn upgrade_rows(lines: Seq<Seq<char>>, header: Seq<char>) -> Seq<UpgradeRow>
    decreases lines.len(),
{
    if lines.len() == 0 {
        seq![]
    } else {
        let rest = upgrade_rows(lines.drop_last(), header);
        match upgrade_row(lines.last(), header) {
            Some(row) => rest.push(row),
            None => rest,
        }
    }
}

/// The records of a `list` table: none when no line holds the header.
pub open spec fn list_table(lines: Seq<Seq<char>>) -> Seq<InstalledRow> {
    match header_index(lines, |l: Seq<char>| is_list_header(l)) {
        Some(h) => list_rows(lines.subrange(data_start(lines, h), lines.len() as int), lines[h]),
        None => seq![],
    }
}

/// The records of an `upgrade` table: none when no line holds the header.
pub open spec fn upgrade_table(lines: Seq<Seq<char>>) -> Seq<UpgradeRow> {
    match header_index(lines, |l: Seq<char>| is_upgrade_header(l)) {
        Some(h) => upgrade_rows(lines.subrange(data_start(lines, h), lines.len() as int), lines[h]),
        None => seq![],
    }
}

pub open spec fn list_header_pred() -> spec_fn(Seq<char>) -> bool {
    |l: Seq<char>| is_list_header(l)
}

pub open spec fn upgrade_header_pred() -> spec_fn(Seq<char>) -> bool {
    |l: Seq<char>| is_upgrade_header(l)
}

/// A package that the `list` table reports as installed.
#[derive(Debug, Clone)]
pub struct InstalledPackage {
    pub winget_id: String,
    pub version: String,
}

impl View for InstalledPackage {
    type V = InstalledRow;

    open spec fn view(&self) -> InstalledRow {
        InstalledRow { id: self.winget_id@, version: self.version@ }
    }
}

/// A package that the `upgrade` table reports as upgradeable.
#[derive(Debug, Clone)]
pub struct UpgradeablePackage {
    pub name: String,
    pub winget_id: String,
    pub current_version: String,
    pub available_version: String,
    pub source: String,
}

impl View for UpgradeablePackage {
    type V = UpgradeRow;

    open spec fn view(&self) -> UpgradeRow {
        UpgradeRow {
            name: self.name@,
            id: self.winget_id@,
            current: self.current_version@,
            available: self.available_version@,
            source: self.source@,
        }
    }
}

impl UpgradeablePackage {
    /// The operation that upgrades it: the package manager on its identifier.
    pub fn upgrade_item(&self) -> (r: OperationItem)
        ensures
            r == upgrade_operation(*self),
    {
        OperationItem { invocation: Invocation::Package(self.winget_id.clone()), post_install: None }
    }
}

/// The operation that upgrades `p`.
pub open spec fn upgrade_operation(p: UpgradeablePackage) -> OperationItem {
    OperationItem { invocation: Invocation::Package(p.winget_id), post_install: None }
}

pub open spec fn installed_views(v: Seq<InstalledPackage>) -> Seq<InstalledRow> {
    v.map_values(|p: InstalledPackage| p@)
}

pub open spec fn upgradeable_views(v: Seq<UpgradeablePackage>) -> Seq<UpgradeRow> {
    v.map_values(|p: UpgradeablePackage| p@)
}

/// Where `key` first occurs in `line`, as a byte offset.
fn key_offset(line: &str, key: &[u8]) -> (r: Option<usize>)
    requires
        key@.len() > 0,
    ensures
        r is None <==> !has_key(line@, key@),
        r matches Some(i) ==> i == column(line@, key@) && i < usize::MAX,
{
    let bytes = line.as_bytes();
    let _n = bytes.len();
    let r = find_bytes(bytes, key);
    if let Some(i) = r {
        proof {
            lemma_first_offset(encode_utf8(line@), key@, i as int);
        }
    }
    r
}

fn has(line: &str, key: &[u8]) -> (r: bool)
    ensures
        r == has_key(line@, key@),
{
    find_bytes(line.as_bytes(), key).is_some()
}

fn list_header(line: &str) -> (r: bool)
    ensures
        r == is_list_header(line@),
{
    let name: [u8; 4] = [0x4e, 0x61, 0x6d, 0x65];
    let id: [u8; 2] = [0x49, 0x64];
    let version: [u8; 7] = [0x56, 0x65, 0x72, 0x73, 0x69, 0x6f, 0x6e];
    assert(name@ =~= name_key());
    assert(id@ =~= id_key());
    assert(version@ =~= version_key());
    has(line, name.as_slice()) && has(line, id.as_slice()) && has(line, version.as_slice())
}

fn upgrade_header(line: &str) -> (r: bool)
    ensures
        r == is_upgrade_header(line@),
{
    let available: [u8; 9] = [0x41, 0x76, 0x61, 0x69, 0x6c, 0x61, 0x62, 0x6c, 0x65];
    assert(available@ =~= available_key());
    list_header(line) && has(line, available.as_slice())
}

fn summary(line: &str) -> (r: bool)
    ensures
        r == is_summary(line@),
{
    let plain: [u8; 18] = [
        0x75, 0x70, 0x67, 0x72, 0x61, 0x64, 0x65, 0x73, 0x20,
        0x61, 0x76, 0x61, 0x69, 0x6c, 0x61, 0x62, 0x6c, 0x65,
    ];
    let alt: [u8; 20] = [
        0x75, 0x70, 0x67, 0x72, 0x61, 0x64, 0x65, 0x28, 0x73, 0x29,
        0x20, 0x61, 0x76, 0x61, 0x69, 0x6c, 0x61, 0x62, 0x6c, 0x65,
    ];
    assert(plain@ =~= summary_key());
    assert(alt@ =~= summary_alt_key());
    has(line, plain.as_slice()) || has(line, alt.as_slice())
}

fn separator(line: &str) -> (r: bool)
    ensures
        r == is_separator(line@),
{
    let mut all = true;
    for c in it: line.chars()
        invariant
            it.seq() == line@,
            all == forall|i: int|
                0 <= i < it.index() ==> {
                    let c = #[trigger] line@[i];
                    c == '-' || c == ' ' || ('\u{2500}' <= c && c <= '\u{257f}')
                },
    {
        if !(c == '-' || c == ' ' || ('\u{2500}' <= c && c <= '\u{257f}')) {
            all = false;
        }
    }
    all
}

/// Index of the first data row after the header at `header_idx`: one further
/// when the row right after the header is a separator.
pub fn find_data_start(lines: &[String], header_idx: usize) -> (r: usize)
    requires
        header_idx < lines@.len(),
    ensures
        r == data_start(texts(lines@), header_idx as int),
{
    if header_idx < lines.len() - 1 && separator(lines[header_idx + 1].as_str()) {
        header_idx + 2
    } else {
        header_idx + 1
    }
}

fn list_row_of(
    line: &str,
    id_col: usize,
    version_col: usize,
    source_col: Option<usize>,
    Ghost(header): Ghost<Seq<char>>,
) -> (r: Option<InstalledPackage>)
    requires
        id_col == column(header, id_key()),
        version_col == column(header, version_key()),
        version_col < usize::MAX,
        source_col is None <==> source_column(header) is None,
        source_col matches Some(sc) ==> source_column(header) == Some(sc as int),
    ensures
        match list_row(line@, header) {
            Some(row) => r matches Some(p) && p@ == row,
            None => r is None,
        },
{
    if summary(line) || line.as_bytes().len() < version_col + 1 {
        return None;
    }
    let id = safe_slice(line, id_col, version_col);
    let version = match source_col {
        Some(end) => safe_slice(line, version_col, end),
        None => safe_slice_to_end(line, version_col),
    };
    if id.as_str().is_empty() || version.as_str().is_empty() {
        return None;
    }
    Some(InstalledPackage { winget_id: to_lowercase(id.as_str()), version })
}

fn upgrade_row_of(
    line: &str,
    name_col: usize,
    id_col: usize,
    version_col: usize,
    available_col: usize,
    source_col: Option<usize>,
    Ghost(header): Ghost<Seq<char>>,
) -> (r: Option<UpgradeablePackage>)
    requires
        name_col == column(header, name_key()),
        id_col == column(header, id_key()),
        version_col == column(header, version_key()),
        available_col == column(header, available_key()),
        available_col < usize::MAX,
        source_col is None <==> source_column(header) is None,
        source_col matches Some(sc) ==> source_column(header) == Some(sc as int),
    ensures
        match upgrade_row(line@, header) {
            Some(row) => r matches Some(p) && p@ == row,
            None => r is None,
        },
{
    if summary(line) || line.as_bytes().len() < available_col + 1 {
        return None;
    }
    let name = safe_slice(line, name_col, id_col);
    let id = safe_slice(line, id_col, version_col);
    let version = safe_slice(line, version_col, available_col);
    let (available, source) = match source_col {
        Some(sc) => (safe_slice(line, available_col, sc), safe_slice_to_end(line, sc)),
        None => (safe_slice_to_end(line, available_col), String::new()),
    };
    if id.as_str().is_empty() || available.as_str().is_empty() {
        return None;
    }
    Some(
        UpgradeablePackage {
            name,
            winget_id: id,
            current_version: version,
            available_version: available,
            source,
        },
    )
}

/// Parses the output of `list` into installed packages. Finds the first line
/// that holds `Name`, `Id` and `Version`, takes the column offsets from it and
/// cuts every later data row at them; without such a line there are no
/// records, which is not an error.
pub fn parse_list_table(lines: &[String]) -> (r: Vec<InstalledPackage>)
    ensures
        installed_views(r@) == list_table(texts(lines@)),
{
    let ghost all = texts(lines@);
    let n = lines.len();
    let mut h: usize = 0;
    while h < n && !list_header(lines[h].as_str())
        invariant
            n == lines@.len(),
            h <= n,
            all == texts(lines@),
            forall|j: int| 0 <= j < h ==> !is_list_header(#[trigger] all[j]),
        decreases n - h,
    {
        h += 1;
    }
    if h == n {
        assert(!exists|k: int| header_at(all, k, list_header_pred()));
        return Vec::new();
    }
    proof {
        lemma_header_index(all, h as int, list_header_pred());
    }
    let header = lines[h].as_str();
    let ghost hv = all[h as int];
    let id: [u8; 2] = [0x49, 0x64];
    let version: [u8; 7] = [0x56, 0x65, 0x72, 0x73, 0x69, 0x6f, 0x6e];
    let source: [u8; 6] = [0x53, 0x6f, 0x75, 0x72, 0x63, 0x65];
    assert(id@ =~= id_key());
    assert(version@ =~= version_key());
    assert(source@ =~= source_key());
    let id_col = match key_offset(header, id.as_slice()) {
        Some(i) => i,
        None => return Vec::new(),
    };
    let version_col = match key_offset(header, version.as_slice()) {
        Some(i) => i,
        None => return Vec::new(),
    };
    let source_col = key_offset(header, source.as_slice());
    let start = find_data_start(lines, h);
    let mut packages: Vec<InstalledPackage> = Vec::new();
    let mut i = start;
    assert(all.subrange(start as int, start as int) =~= Seq::<Seq<char>>::empty());
    assert(installed_views(packages@) =~= seq![]);
    while i < n
        invariant
            n == lines@.len(),
            start <= i <= n,
            all == texts(lines@),
            hv == all[h as int],
            id_col == column(hv, id_key()),
            version_col == column(hv, version_key()),
            version_col < usize::MAX,
            source_col is None <==> source_column(hv) is None,
            source_col matches Some(sc) ==> source_column(hv) == Some(sc as int),
            installed_views(packages@) == list_rows(all.subrange(start as int, i as int), hv),
        decreases n - i,
    {
        let ghost before = all.subrange(start as int, i as int);
        let ghost after = all.subrange(start as int, i + 1);
        assert(after.drop_last() =~= before);
        assert(after.last() == lines@[i as int]@);
        let ghost prev = packages@;
        match list_row_of(lines[i].as_str(), id_col, version_col, source_col, Ghost(hv)) {
            Some(p) => {
                packages.push(p);
                assert(installed_views(packages@) =~= installed_views(prev).push(p@));
            },
            None => {},
        }
        i += 1;
    }
    assert(all.subrange(start as int, n as int) == all.subrange(start as int, all.len() as int));
    packages
}

/// Parses the output of `upgrade` into upgradeable packages. Finds the first
/// line that holds `Name`, `Id`, `Version` and `Available`, takes the column
/// offsets from it (an optional `Source` column ends `Available`), skips the
/// summary line and cuts every later data row; without such a line there are
/// no records, which is not an error.
pub fn parse_upgrade_table(lines: &[String]) -> (r: Vec<UpgradeablePackage>)
    ensures
        upgradeable_views(r@) == upgrade_table(texts(lines@)),
{
    let ghost all = texts(lines@);
    let n = lines.len();
    let mut h: usize = 0;
    while h < n && !upgrade_header(lines[h].as_str())
        invariant
            n == lines@.len(),
            h <= n,
            all == texts(lines@),
            forall|j: int| 0 <= j < h ==> !is_upgrade_header(#[trigger] all[j]),
        decreases n - h,
    {
        h += 1;
    }
    if h == n {
        assert(!exists|k: int| header_at(all, k, upgrade_header_pred()));
        return Vec::new();
    }
    proof {
        lemma_header_index(all, h as int, upgrade_header_pred());
    }
    let header = lines[h].as_str();
    let ghost hv = all[h as int];
    let name: [u8; 4] = [0x4e, 0x61, 0x6d, 0x65];
    let id: [u8; 2] = [0x49, 0x64];
    let version: [u8; 7] = [0x56, 0x65, 0x72, 0x73, 0x69, 0x6f, 0x6e];
    let available: [u8; 9] = [0x41, 0x76, 0x61, 0x69, 0x6c, 0x61, 0x62, 0x6c, 0x65];
    let source: [u8; 6] = [0x53, 0x6f, 0x75, 0x72, 0x63, 0x65];
    assert(name@ =~= name_key());
    assert(id@ =~= id_key());
    assert(version@ =~= version_key());
    assert(available@ =~= available_key());
    assert(source@ =~= source_key());
    let name_col = match key_offset(header, name.as_slice()) {
        Some(i) => i,
        None => return Vec::new(),
    };
    let id_col = match key_offset(header, id.as_slice()) {
        Some(i) => i,
        None => return Vec::new(),
    };
    let version_col = match key_offset(header, version.as_slice()) {
        Some(i) => i,
        None => return Vec::new(),
    };
    let available_col = match key_offset(header, available.as_slice()) {
        Some(i) => i,
        None => return Vec::new(),
    };
    let source_col = key_offset(header, source.as_slice());
    let start = find_data_start(lines, h);
    let mut packages: Vec<UpgradeablePackage> = Vec::new();
    let mut i = start;
    assert(all.subrange(start as int, start as int) =~= Seq::<Seq<char>>::empty());
    assert(upgradeable_views(packages@) =~= seq![]);
    while i < n
        invariant
            n == lines@.len(),
            start <= i <= n,
            all == texts(lines@),
            hv == all[h as int],
            name_col == column(hv, name_key()),
            id_col == column(hv, id_key()),
            version_col == column(hv, version_key()),
            available_col == column(hv, available_key()),
            available_col < usize::MAX,
            source_col is None <==> source_column(hv) is None,
            source_col matches Some(sc) ==> source_column(hv) == Some(sc as int),
            upgradeable_views(packages@) == upgrade_rows(all.subrange(start as int, i as int), hv),
        decreases n - i,
    {
        let ghost before = all.subrange(start as int, i as int);
        let ghost after = all.subrange(start as int, i + 1);
        assert(after.drop_last() =~= before);
        assert(after.last() == lines@[i as int]@);
        let ghost prev = packages@;
        match upgrade_row_of(
            lines[i].as_str(),
            name_col,
            id_col,
            version_col,
            available_col,
            source_col,
            Ghost(hv),
        ) {
            Some(p) => {
                packages.push(p);
                assert(upgradeable_views(packages@) =~= upgradeable_views(prev).push(p@));
            },
            None => {},
        }
        i += 1;
    }
    packages
}

/// No header, no records: when no line holds all the required column names,
/// both tables are empty (which callers read as "no data", not as a failure).
pub proof fn lemma_no_header_no_records(lines: Seq<Seq<char>>)
    ensures
        (forall|i: int| 0 <= i < lines.len() ==> !is_list_header(#[trigger] lines[i])) ==> list_table(
            lines,
        ) == Seq::<InstalledRow>::empty(),
        (forall|i: int| 0 <= i < lines.len() ==> !is_upgrade_header(#[trigger] lines[i]))
            ==> upgrade_table(lines) == Seq::<UpgradeRow>::empty(),
{
    if forall|i: int| 0 <= i < lines.len() ==> !is_list_header(#[trigger] lines[i]) {
        assert(!exists|h: int| header_at(lines, h, list_header_pred()));
        assert(header_index(lines, list_header_pred()) is None);
    }
    if forall|i: int| 0 <= i < lines.len() ==> !is_upgrade_header(#[trigger] lines[i]) {
        assert(!exists|h: int| header_at(lines, h, upgrade_header_pred()));
        assert(header_index(lines, upgrade_header_pred()) is None);
    }
}

/// `t` is the trimmed text between two character boundaries `a <= e` of
/// `b`, and the bytes between them are well-formed UTF-8.
pub open spec fn is_clean_cut(b: Seq<u8>, t: Seq<char>) -> bool {
    exists|a: int, e: int|
        0 <= a <= e <= b.len() && is_char_boundary(b, a) && is_char_boundary(b, e) && valid_utf8(
            #[trigger] b.subrange(a, e),
        ) && t == trimmed(decode_utf8(b.subrange(a, e)))
}

proof fn lemma_empty_cut(b: Seq<u8>)
    requires
        valid_utf8(b),
    ensures
        is_clean_cut(b, Seq::empty()),
{
    let sub = b.subrange(0, 0);
    assert(sub =~= Seq::<u8>::empty());
    assert(is_char_boundary(b, 0));
    assert(valid_utf8(sub));
    assert(decode_utf8(sub) =~= Seq::<char>::empty());
    assert(crate::text::trim_start(Seq::<char>::empty()) == Seq::<char>::empty());
    assert(crate::text::trim_end(Seq::<char>::empty()) == Seq::<char>::empty());
}

proof fn lemma_snap_up_below_zero(b: Seq<u8>, i: int)
    requires
        valid_utf8(b),
        i <= 0,
    ensures
        snap_up(b, i) == snap_up(b, 0),
    decreases -i,
{
    if i < 0 {
        assert(!is_char_boundary(b, i));
        lemma_snap_up_below_zero(b, i + 1);
    }
}

/// Every text that the parser cuts from a line, whatever the offsets, is a
/// clean cut of that line.
proof fn lemma_slices_clean(b: Seq<u8>, start: int, end: int)
    requires
        valid_utf8(b),
    ensures
        is_clean_cut(b, slice_text(b, start, end)),
        is_clean_cut(b, slice_text_to_end(b, start)),
{
    let n = b.len() as int;
    let st = if start < 0 { 0 } else { start };
    let en = if end < 0 { 0 } else { end };
    lemma_empty_cut(b);
    lemma_cuts_keep_characters(b, st, en);
    lemma_cuts_keep_characters(b, st, n);
    if start < 0 {
        lemma_snap_up_below_zero(b, start);
    }
    let s = snap_up(b, clamp(start, n));
    assert(s == snap_up(b, clamp(st, n)));
    if end >= 0 {
        let e = snap_down(b, clamp(end, n));
        if s < e {
            assert(valid_utf8(b.subrange(s, e)));
        }
    }
    assert(snap_down(b, n) == n) by {
        assert(is_char_boundary(b, n));
    }
    if s < n {
        assert(valid_utf8(b.subrange(s, n)));
    }
}

pub open spec fn clean_row(r: UpgradeRow, line: Seq<char>) -> bool {
    let b = encode_utf8(line);
    &&& is_clean_cut(b, r.name)
    &&& is_clean_cut(b, r.id)
    &&& is_clean_cut(b, r.current)
    &&& is_clean_cut(b, r.available)
    &&& is_clean_cut(b, r.source)
}

proof fn lemma_upgrade_rows_clean(lines: Seq<Seq<char>>, header: Seq<char>)
    ensures
        forall|i: int|
            0 <= i < upgrade_rows(lines, header).len() ==> exists|k: int|
                0 <= k < lines.len() && clean_row(#[trigger] upgrade_rows(lines, header)[i], lines[k]),
    decreases lines.len(),
{
    if lines.len() > 0 {
        let rest = upgrade_rows(lines.drop_last(), header);
        lemma_upgrade_rows_clean(lines.drop_last(), header);
        let line = lines.last();
        let b = encode_utf8(line);
        let k = lines.len() - 1;
        assert forall|i: int| 0 <= i < upgrade_rows(lines, header).len() implies exists|j: int|
            0 <= j < lines.len() && clean_row(#[trigger] upgrade_rows(lines, header)[i], lines[j]) by {
            if i < rest.len() {
                assert(upgrade_rows(lines, header)[i] == rest[i]);
                let j = choose|j: int| 0 <= j < lines.drop_last().len() && clean_row(rest[i], lines.drop_last()[j]);
                assert(lines[j] == lines.drop_last()[j]);
            } else {
                assert(valid_utf8(b));
                let name_col = column(header, name_key());
                let id_col = column(header, id_key());
                let version_col = column(header, version_key());
                let available_col = column(header, available_key());
                lemma_slices_clean(b, name_col, id_col);
                lemma_slices_clean(b, id_col, version_col);
                lemma_slices_clean(b, version_col, available_col);
                lemma_slices_clean(b, available_col, available_col);
                lemma_empty_cut(b);
                match source_column(header) {
                    Some(sc) => {
                        lemma_slices_clean(b, available_col, sc);
                        lemma_slices_clean(b, sc, sc);
                    },
                    None => {},
                }
                assert(clean_row(upgrade_rows(lines, header)[i], lines[k]));
            }
        }
    }
}

/// No record splits a character: every field of every record that the
/// `upgrade` parser returns is the trimmed text between two character
/// boundaries of one of the input lines, and those bytes are well-formed
/// UTF-8.
pub proof fn lemma_upgrade_records_keep_characters(lines: Seq<Seq<char>>)
    ensures
        forall|i: int|
            0 <= i < upgrade_table(lines).len() ==> exists|k: int|
                0 <= k < lines.len() && clean_row(#[trigger] upgrade_table(lines)[i], lines[k]),
{
    match header_index(lines, upgrade_header_pred()) {
        Some(h) => {
            let lo = data_start(lines, h);
            let data = lines.subrange(lo, lines.len() as int);
            lemma_upgrade_rows_clean(data, lines[h]);
            assert forall|i: int| 0 <= i < upgrade_table(lines).len() implies exists|k: int|
                0 <= k < lines.len() && clean_row(#[trigger] upgrade_table(lines)[i], lines[k]) by {
                let j = choose|j: int| 0 <= j < data.len() && clean_row(upgrade_rows(data, lines[h])[i], data[j]);
                assert(data[j] == lines[lo + j]);
            }
        },
        None => {},
    }
}

} // verus!

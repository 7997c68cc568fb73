//! The initial ramdisk: a read-only file system over a ustar archive.
use vstd::prelude::*;
use vstd::utf8::valid_utf8;
use vstd::string::StringSliceAdditionalSpecFns;
use crate::vfs::{DirIter, FileSystem};

verus! {

pub const MAX_ENTRIES: usize = 64;

pub const BLOCK: usize = 512;

/// Byte offsets of the name and size fields and of the type flag in a header.
pub const NAME_FIELD: usize = 100;

pub const SIZE_START: usize = 124;

pub const SIZE_END: usize = 136;

pub const TYPEFLAG: usize = 156;

// ---------------------------------------------------------------- byte strings

/// Index of the first byte at or after `i` that is not `c`.
pub open spec fn lead_from(s: Seq<u8>, c: u8, i: nat) -> nat
    decreases s.len() - i,
{
    if i < s.len() && s[i as int] == c {
        lead_from(s, c, i + 1)
    } else {
        i
    }
}

/// `s` without its leading `c` bytes (`trim_start_matches(c)`).
pub open spec fn trim_start(s: Seq<u8>, c: u8) -> Seq<u8> {
    s.subrange(lead_from(s, c, 0) as int, s.len() as int)
}

/// Length of the first `n` bytes of `s` without their trailing `c` bytes.
pub open spec fn trail_from(s: Seq<u8>, c: u8, n: nat) -> nat
    decreases n,
{
    if n > 0 && s[n - 1] == c {
        trail_from(s, c, (n - 1) as nat)
    } else {
        n
    }
}

/// `s` without its trailing `c` bytes (`trim_end_matches(c)`).
pub open spec fn trim_end(s: Seq<u8>, c: u8) -> Seq<u8> {
    s.subrange(0, trail_from(s, c, s.len()) as int)
}

/// Index after the run of "./" pairs that starts at `i`.
pub open spec fn dot_slash_from(s: Seq<u8>, i: nat) -> nat
    decreases s.len() - i,
{
    if i + 2 <= s.len() && s[i as int] == 0x2e && s[i + 1int] == 0x2f {
        dot_slash_from(s, i + 2)
    } else {
        i
    }
}

/// `s` without its leading "./" pairs (`trim_start_matches("./")`).
pub open spec fn trim_dot_slash(s: Seq<u8>) -> Seq<u8> {
    s.subrange(dot_slash_from(s, 0) as int, s.len() as int)
}

pub open spec fn starts_with(s: Seq<u8>, p: Seq<u8>) -> bool {
    p.len() <= s.len() && s.subrange(0, p.len() as int) == p
}

pub open spec fn ends_with(s: Seq<u8>, p: Seq<u8>) -> bool {
    p.len() <= s.len() && s.subrange(s.len() - p.len(), s.len() as int) == p
}

// ---------------------------------------------------------------- octal fields

/// Value of the octal digits from `i` on, up to a NUL or a space, added to
/// `acc` (each digit counts as its byte minus b'0', as the parser does).
pub open spec fn octal_from(d: Seq<u8>, i: nat, acc: nat) -> nat
    decreases d.len() - i,
{
    if i >= d.len() || d[i as int] == 0 || d[i as int] == 0x20 {
        acc
    } else {
        octal_from(d, i + 1, acc * 8 + (d[i as int] - 0x30) as nat)
    }
}

/// Whether parsing from `i` stays clear of byte underflow (a byte below
/// b'0') and of overflowing a usize.
pub open spec fn octal_safe_from(d: Seq<u8>, i: nat, acc: nat) -> bool
    decreases d.len() - i,
{
    if i >= d.len() || d[i as int] == 0 || d[i as int] == 0x20 {
        true
    } else {
        &&& d[i as int] >= 0x30
        &&& acc * 8 + (d[i as int] - 0x30) <= usize::MAX
        &&& octal_safe_from(d, i + 1, acc * 8 + (d[i as int] - 0x30) as nat)
    }
}

pub open spec fn octal_value(d: Seq<u8>) -> nat {
    octal_from(d, 0, 0)
}

pub open spec fn octal_safe(d: Seq<u8>) -> bool {
    octal_safe_from(d, 0, 0)
}

/// Reads an octal number field.
pub fn parse_octal(data: &[u8]) -> (r: usize)
    requires
        octal_safe(data@),
    ensures
        r == octal_value(data@),
{
    let mut val: usize = 0;
    let mut i: usize = 0;
    while i < data.len()
        invariant_except_break
            i <= data@.len(),
            octal_from(data@, i as nat, val as nat) == octal_value(data@),
            octal_safe_from(data@, i as nat, val as nat),
        ensures
            val == octal_value(data@),
        decreases data.len() - i,
    {
        let b = data[i];
        if b == 0 || b == 0x20 {
            break;
        }
        val = val * 8 + (b - 0x30) as usize;
        i += 1;
    }
    val
}

/// Whether reading the octal field `data` stays clear of a byte below
/// b'0' and of overflow, so that `parse_octal` may read it.
pub fn octal_ok(data: &[u8]) -> (r: bool)
    ensures
        r == octal_safe(data@),
{
    let mut val: usize = 0;
    let mut i: usize = 0;
    while i < data.len()
        invariant
            i <= data@.len(),
            octal_safe_from(data@, i as nat, val as nat) == octal_safe(data@),
        decreases data.len() - i,
    {
        let b = data[i];
        if b == 0 || b == 0x20 {
            return true;
        }
        if b < 0x30 {
            return false;
        }
        let d = (b - 0x30) as usize;
        if val > (usize::MAX - d) / 8 {
            assert(val * 8 + d > usize::MAX) by (nonlinear_arith)
                requires
                    val > (usize::MAX - d) / 8,
                    d <= 0xFF,
            ;
            return false;
        }
        assert(val * 8 + d <= usize::MAX) by (nonlinear_arith)
            requires
                val <= (usize::MAX - d) / 8,
                d <= 0xFF,
        ;
        val = val * 8 + d;
        i += 1;
    }
    true
}

// ---------------------------------------------------------------- headers

/// Length of the name field: up to its first NUL, at most NAME_FIELD bytes.
pub open spec fn name_len_from(h: Seq<u8>, i: nat) -> nat
    decreases NAME_FIELD - i,
{
    if i >= NAME_FIELD {
        NAME_FIELD as nat
    } else if h[i as int] == 0 {
        i
    } else {
        name_len_from(h, i + 1)
    }
}

/// One archive member as the parser records it.
pub struct TarRecord {
    pub name_start: nat,
    pub name_len: nat,
    pub data_start: nat,
    pub data_len: nat,
    pub is_dir: bool,
}

pub enum TarScan {
    /// The members found, in archive order.
    Members(Seq<TarRecord>),
    /// A header's name is not valid UTF-8.
    BadName,
    /// A header would make the parser fail (a size field with a byte below
    /// b'0' or too large a value, or a member running past the archive).
    Malformed,
}

pub open spec fn prepend(r: TarRecord, s: TarScan) -> TarScan {
    match s {
        TarScan::Members(rs) => TarScan::Members(seq![r] + rs),
        other => other,
    }
}

/// Blocks of BLOCK bytes needed for `size` bytes.
pub open spec fn blocks(size: nat) -> nat {
    (size + 511) as nat / 512
}

/// The parse of the archive from the header at `offset` on, with `count`
/// members already recorded.
pub open spec fn tar_scan(a: Seq<u8>, offset: nat, count: nat) -> TarScan
    decreases a.len() - offset,
{
    if !(offset + BLOCK <= a.len() && count < MAX_ENTRIES) || a[offset as int] == 0 {
        TarScan::Members(seq![])
    } else {
        let hdr = a.subrange(offset as int, offset + BLOCK);
        let raw_len = name_len_from(hdr, 0);
        let raw = hdr.subrange(0, raw_len as int);
        if !valid_utf8(raw) {
            TarScan::BadName
        } else {
            let skip = dot_slash_from(raw, 0);
            let sizef = hdr.subrange(SIZE_START as int, SIZE_END as int);
            if skip == raw_len {
                let size = octal_value(sizef);
                let next = (offset + BLOCK + blocks(size) * BLOCK) as nat;
                if !octal_safe(sizef) || size + 511 > usize::MAX || next > usize::MAX {
                    TarScan::Malformed
                } else if next > a.len() {
                    TarScan::Members(seq![])
                } else {
                    tar_scan(a, next, count)
                }
            } else {
                let is_dir = hdr[TYPEFLAG as int] == 0x35 || raw[raw_len - 1] == 0x2f;
                let size = if is_dir { 0 } else { octal_value(sizef) };
                let data_start = (offset + BLOCK) as nat;
                let next = (data_start + blocks(size) * BLOCK) as nat;
                if (!is_dir && !octal_safe(sizef)) || data_start + size > a.len() || size + 511
                    > usize::MAX || next > usize::MAX {
                    TarScan::Malformed
                } else {
                    let rec = TarRecord {
                        name_start: offset + skip,
                        name_len: (raw_len - skip) as nat,
                        data_start,
                        data_len: size,
                        is_dir,
                    };
                    if next > a.len() {
                        TarScan::Members(seq![rec])
                    } else {
                        prepend(rec, tar_scan(a, next, count + 1))
                    }
                }
            }
        }
    }
}

/// The members of a parse that succeeded (none otherwise).
pub open spec fn scan_members(s: TarScan) -> Seq<TarRecord> {
    match s {
        TarScan::Members(rs) => rs,
        _ => seq![],
    }
}

proof fn lemma_records_after(a: Seq<u8>, offset: nat, count: nat)
    ensures
        forall|k: int| 0 <= k < scan_members(tar_scan(a, offset, count)).len() ==> #[trigger] scan_members(
            tar_scan(a, offset, count),
        )[k].data_start >= offset + BLOCK,
    decreases a.len() - offset,
{
    if !(!(offset + BLOCK <= a.len() && count < MAX_ENTRIES) || a[offset as int] == 0) {
        let hdr = a.subrange(offset as int, offset + BLOCK);
        let raw_len = name_len_from(hdr, 0);
        let raw = hdr.subrange(0, raw_len as int);
        if valid_utf8(raw) {
            let skip = dot_slash_from(raw, 0);
            let sizef = hdr.subrange(SIZE_START as int, SIZE_END as int);
            if skip == raw_len {
                let size = octal_value(sizef);
                let next = (offset + BLOCK + blocks(size) * BLOCK) as nat;
                if !(!octal_safe(sizef) || size + 511 > usize::MAX || next > usize::MAX) && next <= a.len() {
                    lemma_records_after(a, next, count);
                }
            } else {
                let is_dir = hdr[TYPEFLAG as int] == 0x35 || raw[raw_len - 1] == 0x2f;
                let size = if is_dir { 0 } else { octal_value(sizef) };
                let data_start = (offset + BLOCK) as nat;
                let next = (data_start + blocks(size) * BLOCK) as nat;
                if next <= a.len() {
                    lemma_records_after(a, next, count + 1);
                    let rest = tar_scan(a, next, count + 1);
                    if rest is Members {
                        let rs = scan_members(rest);
                        assert forall|k: int| 0 <= k < rs.len() implies #[trigger] rs[k].data_start >= offset + BLOCK by {
                        }
                    }
                }
            }
        }
    }
}

/// Where the next header lies: after a member recorded from the header at
/// `offset`, holding `s` bytes from `data_start`, the rest of the archive
/// is parsed from the first 512-byte boundary (counted from `data_start`)
/// at or past the end of its data; when that lies past the archive, the
/// member is the last.
pub proof fn lemma_next_header_after_member(a: Seq<u8>, offset: nat, count: nat)
    requires
        tar_scan(a, offset, count) is Members,
        scan_members(tar_scan(a, offset, count)).len() > 0,
        scan_members(tar_scan(a, offset, count))[0].data_start == offset + BLOCK,
    ensures
        ({
            let rs = scan_members(tar_scan(a, offset, count));
            let r = rs[0];
            exists|n: nat|
                #![trigger tar_scan(a, n, count + 1)]
                n >= r.data_start && (n - r.data_start) % 512 == 0 && r.data_start + r.data_len <= n < r.data_start
                    + r.data_len + 512 && (if n > a.len() {
                    rs.len() == 1
                } else {
                    tar_scan(a, n, count + 1) is Members && rs.drop_first() == scan_members(
                        tar_scan(a, n, count + 1),
                    )
                })
        }),
{
    let hdr = a.subrange(offset as int, offset + BLOCK);
    let raw_len = name_len_from(hdr, 0);
    let raw = hdr.subrange(0, raw_len as int);
    let skip = dot_slash_from(raw, 0);
    let sizef = hdr.subrange(SIZE_START as int, SIZE_END as int);
    if skip == raw_len {
        let size = octal_value(sizef);
        let next = (offset + BLOCK + blocks(size) * BLOCK) as nat;
        lemma_records_after(a, next, count);
        assert(false);
    } else {
        let is_dir = hdr[TYPEFLAG as int] == 0x35 || raw[raw_len - 1] == 0x2f;
        let size: nat = if is_dir { 0 } else { octal_value(sizef) };
        let data_start = (offset + BLOCK) as nat;
        let b = blocks(size);
        vstd::arithmetic::div_mod::lemma_fundamental_div_mod((size + 511) as int, 512);
        assert(size <= b * 512 < size + 512);
        let next = (data_start + b * BLOCK) as nat;
        assert((next - data_start) % 512 == 0) by {
            vstd::arithmetic::div_mod::lemma_mod_multiples_basic(b as int, 512);
        }
        let rs = scan_members(tar_scan(a, offset, count));
        if next <= a.len() {
            let rest = tar_scan(a, next, count + 1);
            if !(rest is Members) {
                assert(!(tar_scan(a, offset, count) is Members));
            }
            assert(rs.drop_first() =~= scan_members(rest));
        }
        assert(rs[0].data_len == size);
    }
}

// ---------------------------------------------------------------- the archive

#[derive(Clone, Copy)]
pub struct TarEntry {
    pub name_start: usize,
    pub name_len: usize,
    pub data_start: usize,
    pub data_len: usize,
    pub is_dir: bool,
}

pub open spec fn entry_view(e: TarEntry) -> TarRecord {
    TarRecord {
        name_start: e.name_start as nat,
        name_len: e.name_len as nat,
        data_start: e.data_start as nat,
        data_len: e.data_len as nat,
        is_dir: e.is_dir,
    }
}

pub open spec fn record_name(a: Seq<u8>, r: TarRecord) -> Seq<u8> {
    a.subrange(r.name_start as int, (r.name_start + r.name_len) as int)
}

pub open spec fn record_data(a: Seq<u8>, r: TarRecord) -> Seq<u8> {
    a.subrange(r.data_start as int, (r.data_start + r.data_len) as int)
}

pub struct TarFs<'a> {
    archive: &'a [u8],
    entries: Vec<TarEntry>,
}

/// The least member index at or after `i` whose name, without trailing '/',
/// is `p`.
pub open spec fn find_from(a: Seq<u8>, recs: Seq<TarRecord>, p: Seq<u8>, i: nat) -> Option<nat>
    decreases recs.len() - i,
{
    if i >= recs.len() {
        None
    } else if trim_end(record_name(a, recs[i as int]), 0x2f) == p {
        Some(i)
    } else {
        find_from(a, recs, p, i + 1)
    }
}

/// Member indices from `i` on that are files whose name, without trailing
/// '/', starts with `p` and ends with `s`.
pub open spec fn matching_from(a: Seq<u8>, recs: Seq<TarRecord>, p: Seq<u8>, s: Seq<u8>, i: nat) -> Seq<nat>
    decreases recs.len() - i,
{
    if i >= recs.len() {
        seq![]
    } else {
        let name = trim_end(record_name(a, recs[i as int]), 0x2f);
        let rest = matching_from(a, recs, p, s, i + 1);
        if !recs[i as int].is_dir && starts_with(name, p) && ends_with(name, s) {
            seq![i] + rest
        } else {
            rest
        }
    }
}

/// `core::str::from_utf8`, which succeeds exactly on valid UTF-8; this
/// contract claims that its notion of validity is vstd's `valid_utf8`.
#[verifier::external_body]
fn utf8_ok(bytes: &[u8]) -> (r: bool)
    ensures
        r == valid_utf8(bytes@),
{
    core::str::from_utf8(bytes).is_ok()
}

fn first_nul(hdr: &[u8]) -> (r: usize)
    requires
        hdr@.len() >= NAME_FIELD,
    ensures
        r == name_len_from(hdr@, 0),
        r <= NAME_FIELD,
{
    let mut i: usize = 0;
    proof {
        lemma_name_len_le(hdr@, 0);
    }
    while i < NAME_FIELD
        invariant
            i <= NAME_FIELD,
            hdr@.len() >= NAME_FIELD,
            name_len_from(hdr@, i as nat) == name_len_from(hdr@, 0),
            name_len_from(hdr@, i as nat) <= NAME_FIELD,
        decreases NAME_FIELD - i,
    {
        if hdr[i] == 0 {
            return i;
        }
        i += 1;
    }
    NAME_FIELD
}

fn skip_dot_slash(s: &[u8]) -> (r: usize)
    ensures
        r == dot_slash_from(s@, 0),
        r <= s@.len(),
{
    let mut i: usize = 0;
    while i < s.len() && s.len() - i >= 2 && s[i] == 0x2e && s[i + 1] == 0x2f
        invariant
            i <= s@.len(),
            dot_slash_from(s@, i as nat) == dot_slash_from(s@, 0),
        decreases s@.len() - i,
    {
        i += 2;
    }
    i
}

fn lead_count(s: &[u8], c: u8) -> (r: usize)
    ensures
        r == lead_from(s@, c, 0),
        r <= s@.len(),
{
    let mut i: usize = 0;
    while i < s.len() && s[i] == c
        invariant
            i <= s@.len(),
            lead_from(s@, c, i as nat) == lead_from(s@, c, 0),
        decreases s@.len() - i,
    {
        i += 1;
    }
    i
}

proof fn lemma_trail_le(s: Seq<u8>, c: u8, n: nat)
    ensures
        trail_from(s, c, n) <= n,
    decreases n,
{
    if n > 0 && s[n - 1] == c {
        lemma_trail_le(s, c, (n - 1) as nat);
    }
}

fn trail_len(s: &[u8], c: u8) -> (r: usize)
    ensures
        r == trail_from(s@, c, s@.len()),
        r <= s@.len(),
{
    let mut n: usize = s.len();
    while n > 0 && s[n - 1] == c
        invariant
            n <= s@.len(),
            trail_from(s@, c, n as nat) == trail_from(s@, c, s@.len()),
        decreases n,
    {
        n -= 1;
    }
    n
}

/// Whether `a[a0 .. a0 + len]` equals `b[b0 .. b0 + len]`.
fn ranges_equal(a: &[u8], a0: usize, b: &[u8], b0: usize, len: usize) -> (r: bool)
    requires
        a0 + len <= a.len(),
        b0 + len <= b.len(),
    ensures
        r == (a@.subrange(a0 as int, a0 + len) == b@.subrange(b0 as int, b0 + len)),
{
    let ghost sa = a@.subrange(a0 as int, a0 + len);
    let ghost sb = b@.subrange(b0 as int, b0 + len);
    let mut i: usize = 0;
    while i < len
        invariant
            i <= len,
            a0 + len <= a.len(),
            b0 + len <= b.len(),
            sa == a@.subrange(a0 as int, a0 + len),
            sb == b@.subrange(b0 as int, b0 + len),
            forall|k: int| 0 <= k < i ==> #[trigger] sa[k] == sb[k],
        decreases len - i,
    {
        if a[a0 + i] != b[b0 + i] {
            assert(sa[i as int] != sb[i as int]);
            return false;
        }
        i += 1;
    }
    assert(a@.subrange(a0 as int, a0 + len) =~= b@.subrange(b0 as int, b0 + len));
    true
}

impl<'a> TarFs<'a> {
    pub closed spec fn archive(&self) -> Seq<u8> {
        self.archive@
    }

    pub closed spec fn members(&self) -> Seq<TarRecord> {
        self.entries@.map_values(|e: TarEntry| entry_view(e))
    }

    #[verifier::type_invariant]
    closed spec fn wf(&self) -> bool {
        &&& self.entries.len() <= MAX_ENTRIES
        &&& forall|i: int|
            0 <= i < self.entries.len() ==> {
                let e = #[trigger] self.entries@[i];
                &&& e.name_start + e.name_len <= self.archive.len()
                &&& e.data_start + e.data_len <= self.archive.len()
            }
    }

    /// Parses the archive: one member per header up to the first header that
    /// starts with a NUL byte, the end of the archive, or MAX_ENTRIES members.
    /// Headers whose name is empty after dropping leading "./" are skipped
    /// with their data.  `None` when a name is not valid UTF-8.
    pub fn parse(archive: &'a [u8]) -> (r: Option<Self>)
        requires
            archive@.len() <= isize::MAX,
            !(tar_scan(archive@, 0, 0) is Malformed),
        ensures
            tar_scan(archive@, 0, 0) is BadName ==> r is None,
            tar_scan(archive@, 0, 0) matches TarScan::Members(recs) ==> r matches Some(fs)
                && fs.archive() == archive@ && fs.members() == recs,
    {
        let mut entries: Vec<TarEntry> = Vec::new();
        let mut offset: usize = 0;
        let ghost total = tar_scan(archive@, 0, 0);
        while offset + BLOCK <= archive.len() && entries.len() < MAX_ENTRIES
            invariant_except_break
                archive@.len() <= isize::MAX,
                offset <= archive@.len(),
                entries.len() <= MAX_ENTRIES,
                total == tar_scan(archive@, 0, 0),
                !(total is Malformed),
                forall|i: int|
                    0 <= i < entries.len() ==> {
                        let e = #[trigger] entries@[i];
                        &&& e.name_start + e.name_len <= archive.len()
                        &&& e.data_start + e.data_len <= archive.len()
                    },
                total == (match tar_scan(archive@, offset as nat, entries.len() as nat) {
                    TarScan::Members(rs) => TarScan::Members(
                        entries@.map_values(|e: TarEntry| entry_view(e)) + rs,
                    ),
                    other => other,
                }),
            ensures
                entries.len() <= MAX_ENTRIES,
                forall|i: int|
                    0 <= i < entries.len() ==> {
                        let e = #[trigger] entries@[i];
                        &&& e.name_start + e.name_len <= archive.len()
                        &&& e.data_start + e.data_len <= archive.len()
                    },
                total == TarScan::Members(entries@.map_values(|e: TarEntry| entry_view(e))),
            decreases archive@.len() - offset,
        {
            let ghost count = entries.len() as nat;
            let ghost done = entries@.map_values(|e: TarEntry| entry_view(e));
            if archive[offset] == 0 {
                assert(done + seq![] =~= done);
                break;
            }
            let header = &archive[offset..offset + BLOCK];
            let name_end = first_nul(header);
            let raw = &header[0..name_end];
            if !utf8_ok(raw) {
                return None;
            }
            let skip = skip_dot_slash(raw);
            let size_field = &header[SIZE_START..SIZE_END];
            if skip == name_end {
                let size = parse_octal(size_field);
                let blocks = (size + 511) / 512;
                offset += BLOCK + blocks * BLOCK;
                if offset > archive.len() {
                    assert(done + seq![] =~= done);
                    break;
                }
                continue;
            }
            let typeflag = header[TYPEFLAG];
            let is_dir = typeflag == 0x35 || raw[name_end - 1] == 0x2f;
            let size = if is_dir { 0 } else { parse_octal(size_field) };
            let data_start = offset + BLOCK;
            let entry = TarEntry {
                name_start: offset + skip,
                name_len: name_end - skip,
                data_start,
                data_len: size,
                is_dir,
            };
            entries.push(entry);
            let blocks = (size + 511) / 512;
            offset = data_start + blocks * BLOCK;
            proof {
                assert(entries@.map_values(|e: TarEntry| entry_view(e)) =~= done.push(entry_view(entry)));
                match tar_scan(archive@, offset as nat, count + 1) {
                    TarScan::Members(rs) => {
                        assert(done + (seq![entry_view(entry)] + rs) =~= done.push(entry_view(entry)) + rs);
                    },
                    _ => {},
                }
            }
            if offset > archive.len() {
                assert(done.push(entry_view(entry)) + seq![] =~= done.push(entry_view(entry)));
                break;
            }
        }
        proof {
            if !(offset + BLOCK <= archive.len() && entries.len() < MAX_ENTRIES) {
                assert(entries@.map_values(|e: TarEntry| entry_view(e)) + seq![] =~= entries@.map_values(|e: TarEntry| entry_view(e)));
            }
        }
        Some(TarFs { archive, entries })
    }

    /// Whether `parse` can run on `archive`: no size field has a byte below
    /// b'0' or overflows, and no member runs past the archive.
    pub fn check(archive: &[u8]) -> (r: bool)
        requires
            archive@.len() <= isize::MAX,
        ensures
            r == !(tar_scan(archive@, 0, 0) is Malformed),
    {
        let mut offset: usize = 0;
        let mut count: usize = 0;
        loop
            invariant
                archive@.len() <= isize::MAX,
                offset <= archive@.len(),
                count <= MAX_ENTRIES,
                (tar_scan(archive@, offset as nat, count as nat) is Malformed) == (tar_scan(
                    archive@,
                    0,
                    0,
                ) is Malformed),
            decreases archive@.len() - offset,
        {
            if !(offset + BLOCK <= archive.len() && count < MAX_ENTRIES) || archive[offset] == 0 {
                return true;
            }
            let header = &archive[offset..offset + BLOCK];
            let name_end = first_nul(header);
            let raw = &header[0..name_end];
            if !utf8_ok(raw) {
                return true;
            }
            let skip = skip_dot_slash(raw);
            let size_field = &header[SIZE_START..SIZE_END];
            let is_dir = skip != name_end && (header[TYPEFLAG] == 0x35 || raw[name_end - 1] == 0x2f);
            if !is_dir && !octal_ok(size_field) {
                return false;
            }
            let size = if is_dir {
                0
            } else {
                parse_octal(size_field)
            };
            if size > usize::MAX - 511 {
                return false;
            }
            let blocks = (size + 511) / 512;
            let data_start = offset + BLOCK;
            if blocks * BLOCK > usize::MAX - data_start {
                return false;
            }
            let next = data_start + blocks * BLOCK;
            if skip == name_end {
                if next > archive.len() {
                    return true;
                }
                offset = next;
            } else {
                if size > archive.len() - data_start {
                    return false;
                }
                if next > archive.len() {
                    return true;
                }
                offset = next;
                count = count + 1;
            }
        }
    }

    /// Index of the first member whose name, without trailing '/', equals
    /// `path` without leading '/'.
    pub fn find(&self, path: &str) -> (r: Option<usize>)
        ensures
            opt_usize(r) == find_from(self.archive(), self.members(), trim_start(path.spec_bytes(), 0x2f), 0),
    {
        proof {
            use_type_invariant(self);
        }
        let pb = path.as_bytes();
        let lead = lead_count(pb, 0x2f);
        let plen = pb.len() - lead;
        let ghost p = trim_start(path.spec_bytes(), 0x2f);
        let mut i: usize = 0;
        while i < self.entries.len()
            invariant
                self.entries.len() <= MAX_ENTRIES,
                forall|k: int|
                    0 <= k < self.entries.len() ==> {
                        let e = #[trigger] self.entries@[k];
                        &&& e.name_start + e.name_len <= self.archive.len()
                        &&& e.data_start + e.data_len <= self.archive.len()
                    },
                pb@ == path.spec_bytes(),
                lead == lead_from(pb@, 0x2f, 0),
                lead <= pb@.len(),
                plen == pb@.len() - lead,
                p == pb@.subrange(lead as int, pb@.len() as int),
                i <= self.entries.len(),
                find_from(self.archive(), self.members(), p, i as nat) == find_from(
                    self.archive(),
                    self.members(),
                    p,
                    0,
                ),
            decreases self.entries.len() - i,
        {
            let e = self.entries[i];
            let name = &self.archive[e.name_start..e.name_start + e.name_len];
            let nlen = trail_len(name, 0x2f);
            proof {
                assert(self.members()[i as int] == entry_view(e));
            }
            if nlen == plen {
                if ranges_equal(self.archive, e.name_start, pb, lead, plen) {
                    proof {
                        assert(trim_end(record_name(self.archive(), entry_view(e)), 0x2f) =~= p);
                    }
                    return Some(i);
                }
            }
            proof {
                if trim_end(record_name(self.archive(), entry_view(e)), 0x2f) == p {
                    assert(self.archive@.subrange(e.name_start as int, e.name_start + plen) =~= trim_end(
                        record_name(self.archive(), entry_view(e)),
                        0x2f,
                    ));
                }
            }
            i += 1;
        }
        None
    }

    /// The files whose name, without trailing '/', starts with `prefix`
    /// (without leading '/') and ends with `suffix`, as member indices in
    /// archive order: the members that the kernel visits when it looks for
    /// loadable modules.
    pub fn for_each_matching(&self, prefix: &str, suffix: &str) -> (r: Vec<usize>)
        ensures
            r@.map_values(|k: usize| k as nat) == matching_from(
                self.archive(),
                self.members(),
                trim_start(prefix.spec_bytes(), 0x2f),
                suffix.spec_bytes(),
                0,
            ),
    {
        proof {
            use_type_invariant(self);
        }
        let pb = prefix.as_bytes();
        let sb = suffix.as_bytes();
        let lead = lead_count(pb, 0x2f);
        let plen = pb.len() - lead;
        let ghost p = trim_start(prefix.spec_bytes(), 0x2f);
        let ghost s = suffix.spec_bytes();
        let mut out: Vec<usize> = Vec::new();
        let mut i: usize = 0;
        while i < self.entries.len()
            invariant
                self.entries.len() <= MAX_ENTRIES,
                forall|k: int|
                    0 <= k < self.entries.len() ==> {
                        let e = #[trigger] self.entries@[k];
                        &&& e.name_start + e.name_len <= self.archive.len()
                        &&& e.data_start + e.data_len <= self.archive.len()
                    },
                pb@ == prefix.spec_bytes(),
                sb@ == s,
                lead == lead_from(pb@, 0x2f, 0),
                lead <= pb@.len(),
                plen == pb@.len() - lead,
                p == pb@.subrange(lead as int, pb@.len() as int),
                i <= self.entries.len(),
                out@.map_values(|k: usize| k as nat) + matching_from(self.archive(), self.members(), p, s, i as nat)
                    == matching_from(self.archive(), self.members(), p, s, 0),
            decreases self.entries.len() - i,
        {
            let e = self.entries[i];
            let ghost before = out@.map_values(|k: usize| k as nat);
            proof {
                assert(self.members()[i as int] == entry_view(e));
            }
            let ghost name_s = trim_end(record_name(self.archive(), entry_view(e)), 0x2f);
            let mut hit = false;
            if !e.is_dir {
                let name = &self.archive[e.name_start..e.name_start + e.name_len];
                let nlen = trail_len(name, 0x2f);
                proof {
                    assert(name_s =~= self.archive@.subrange(e.name_start as int, e.name_start + nlen));
                }
                if plen <= nlen && sb.len() <= nlen {
                    let pre = ranges_equal(self.archive, e.name_start, pb, lead, plen);
                    let suf = ranges_equal(self.archive, e.name_start + nlen - sb.len(), sb, 0, sb.len());
                    proof {
                        assert(name_s.subrange(0, p.len() as int) =~= self.archive@.subrange(
                            e.name_start as int,
                            e.name_start + plen,
                        ));
                        assert(pb@.subrange(lead as int, lead + plen) =~= p);
                        assert(name_s.subrange(name_s.len() - s.len(), name_s.len() as int) =~= self.archive@.subrange(
                            e.name_start + nlen - sb.len(),
                            e.name_start + nlen,
                        ));
                        assert(sb@.subrange(0, sb@.len() as int) =~= s);
                    }
                    hit = pre && suf;
                }
            }
            if hit {
                out.push(i);
            }
            proof {
                let rest = matching_from(self.archive(), self.members(), p, s, (i + 1) as nat);
                if hit {
                    assert(out@.map_values(|k: usize| k as nat) =~= before.push(i as nat));
                    assert(before.push(i as nat) + rest =~= before + (seq![i as nat] + rest));
                } else {
                    assert(out@.map_values(|k: usize| k as nat) =~= before);
                }
            }
            i += 1;
        }
        proof {
            assert(out@.map_values(|k: usize| k as nat) + seq![] =~= out@.map_values(|k: usize| k as nat));
        }
        out
    }

    /// Number of members.
    pub fn len(&self) -> (r: usize)
        ensures
            r == self.members().len(),
    {
        self.entries.len()
    }

    /// The name of member `i` (leading "./" dropped).
    pub fn entry_name(&self, i: usize) -> (r: &[u8])
        requires
            i < self.members().len(),
        ensures
            r@ == record_name(self.archive(), self.members()[i as int]),
    {
        proof {
            use_type_invariant(self);
        }
        let e = self.entries[i];
        proof {
            assert(self.members()[i as int] == entry_view(e));
        }
        &self.archive[e.name_start..e.name_start + e.name_len]
    }

    /// The contents of member `i` (empty for a directory).
    pub fn entry_data(&self, i: usize) -> (r: &[u8])
        requires
            i < self.members().len(),
        ensures
            r@ == record_data(self.archive(), self.members()[i as int]),
    {
        proof {
            use_type_invariant(self);
        }
        let e = self.entries[i];
        proof {
            assert(self.members()[i as int] == entry_view(e));
        }
        &self.archive[e.data_start..e.data_start + e.data_len]
    }

    /// Whether member `i` is a directory.
    pub fn entry_is_dir(&self, i: usize) -> (r: bool)
        requires
            i < self.members().len(),
        ensures
            r == self.members()[i as int].is_dir,
    {
        let e = self.entries[i];
        proof {
            assert(self.members()[i as int] == entry_view(e));
        }
        e.is_dir
    }
}

pub open spec fn opt_usize(r: Option<usize>) -> Option<nat> {
    match r {
        Some(x) => Some(x as nat),
        None => None,
    }
}

impl<'a> FileSystem for TarFs<'a> {
    /// The data of the file found by `find`; `None` for a directory or no
    /// match.
    fn read(&self, path: &str) -> (r: Option<&[u8]>)
        ensures
            match find_from(self.archive(), self.members(), trim_start(path.spec_bytes(), 0x2f), 0) {
                Some(i) => if self.members()[i as int].is_dir {
                    r is None
                } else {
                    r matches Some(d) && d@ == record_data(self.archive(), self.members()[i as int])
                },
                None => r is None,
            },
    {
        let i = match self.find(path) {
            Some(i) => i,
            None => {
                return None;
            },
        };
        proof {
            lemma_find_from_bound(self.archive(), self.members(), trim_start(path.spec_bytes(), 0x2f), 0);
        }
        if self.entry_is_dir(i) {
            return None;
        }
        Some(self.entry_data(i))
    }

    fn path_exists(&self, path: &str) -> (r: bool)
        ensures
            r == find_from(self.archive(), self.members(), trim_start(path.spec_bytes(), 0x2f), 0) is Some,
    {
        self.find(path).is_some()
    }

    /// The archive keeps no directory structure to list.
    fn list(&self, path: &str) -> (r: Option<DirIter<'_>>)
        ensures
            r is None,
    {
        None
    }
}

proof fn lemma_find_from_bound(a: Seq<u8>, recs: Seq<TarRecord>, p: Seq<u8>, i: nat)
    ensures
        find_from(a, recs, p, i) matches Some(k) ==> i <= k < recs.len(),
    decreases recs.len() - i,
{
    if i < recs.len() {
        lemma_find_from_bound(a, recs, p, i + 1);
    }
}

proof fn lemma_name_len_le(h: Seq<u8>, i: nat)
    ensures
        name_len_from(h, i) <= NAME_FIELD,
    decreases NAME_FIELD - i,
{
    if i < NAME_FIELD && h[i as int] != 0 {
        lemma_name_len_le(h, i + 1);
    }
}

} // verus!

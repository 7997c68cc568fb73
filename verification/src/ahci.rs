//! AHCI SATA controller: port status decoding, command register changes,
//! command-list and FIS contents for a DMA read, and IDENTIFY data
//! decoding. Register and memory accesses happen outside.
use vstd::prelude::*;

verus! {

pub const GHC_AE: u32 = 0x8000_0000;

pub const PORT_CMD_ST: u32 = 1;

pub const PORT_CMD_FRE: u32 = 0x10;

pub const PORT_CMD_FR: u32 = 0x4000;

pub const PORT_CMD_CR: u32 = 0x8000;

pub const PORT_TFD_BSY: u32 = 0x80;

pub const PORT_TFD_DRQ: u32 = 0x08;

pub const PORT_TFD_ERR: u32 = 0x01;

/// Port interrupt status: task file error.
pub const PORT_IS_TFES: u32 = 0x4000_0000;

pub const SATA_SIG_ATA: u32 = 0x0000_0101;

pub const FIS_TYPE_REG_H2D: u8 = 0x27;

pub const ATA_CMD_IDENTIFY: u8 = 0xEC;

pub const ATA_CMD_READ_DMA_EXT: u8 = 0x25;

pub const MAX_PORTS: usize = 32;

/// What a port holds, as the scan at start-up sees it.
#[derive(Clone, Copy, PartialEq, Eq, Structural, Debug)]
pub enum PortKind {
    /// The controller does not implement the port.
    NotImplemented,
    /// No device present and in the active power state.
    NoDevice,
    /// A device with another signature (ATAPI, port multiplier, ...).
    NotAta,
    /// A SATA disk.
    Sata,
}

/// Classifies port `i` from the implemented-ports mask `pi`, its SATA
/// status `ssts` and its signature `sig`: a disk needs detection 3 (device
/// present, link up), power state 1 (active) and the ATA signature.
pub fn classify_port(pi: u32, i: u32, ssts: u32, sig: u32) -> (r: PortKind)
    requires
        i < 32,
    ensures
        pi & (1u32 << i) == 0 ==> r == PortKind::NotImplemented,
        pi & (1u32 << i) != 0 && (ssts & 0xF != 3 || (ssts >> 8u32) & 0xF != 1) ==> r
            == PortKind::NoDevice,
        pi & (1u32 << i) != 0 && ssts & 0xF == 3 && (ssts >> 8u32) & 0xF == 1 && sig
            != SATA_SIG_ATA ==> r == PortKind::NotAta,
        pi & (1u32 << i) != 0 && ssts & 0xF == 3 && (ssts >> 8u32) & 0xF == 1 && sig
            == SATA_SIG_ATA ==> r == PortKind::Sata,
{
    if pi & (1u32 << i) == 0 {
        return PortKind::NotImplemented;
    }
    let det = ssts & 0xF;
    let ipm = (ssts >> 8u32) & 0xF;
    if det != 3 || ipm != 1 {
        return PortKind::NoDevice;
    }
    if sig != SATA_SIG_ATA {
        return PortKind::NotAta;
    }
    PortKind::Sata
}

/// The two command-register values written to stop a port: first with
/// command processing (ST) off, then also with FIS receive (FRE) off.
pub fn stop_cmd(cmd: u32) -> (r: (u32, u32))
    ensures
        r.0 == cmd & !PORT_CMD_ST,
        r.1 == cmd & !PORT_CMD_ST & !PORT_CMD_FRE,
{
    let a = cmd & !PORT_CMD_ST;
    (a, a & !PORT_CMD_FRE)
}

/// Whether a stopped port has gone idle: command list and FIS receive no
/// longer running.
pub fn port_idle(cmd: u32) -> (r: bool)
    ensures
        r == (cmd & PORT_CMD_CR == 0 && cmd & PORT_CMD_FR == 0),
{
    cmd & PORT_CMD_CR == 0 && cmd & PORT_CMD_FR == 0
}

/// The two command-register values written to start a port: first with FIS
/// receive on, then also with command processing on.
pub fn start_cmd(cmd: u32) -> (r: (u32, u32))
    ensures
        r.0 == cmd | PORT_CMD_FRE,
        r.1 == cmd | PORT_CMD_FRE | PORT_CMD_ST,
{
    let a = cmd | PORT_CMD_FRE;
    (a, a | PORT_CMD_ST)
}

/// Whether the device can take a command: neither busy nor requesting
/// data.
pub fn port_ready(tfd: u32) -> (r: bool)
    ensures
        r == (tfd & (PORT_TFD_BSY | PORT_TFD_DRQ) == 0),
{
    tfd & (PORT_TFD_BSY | PORT_TFD_DRQ) == 0
}

/// The state of an issued command in slot 0.
#[derive(Clone, Copy, PartialEq, Eq, Structural, Debug)]
pub enum CommandPoll {
    /// Finished without error.
    Done,
    /// Finished with the error bit set in the task file.
    Error,
    /// The port reported a task file error while the command ran.
    TaskFileError,
    /// Still running.
    Pending,
}

/// Decodes one poll of a command in slot 0 from the command-issue register
/// `ci`, the task file `tfd` and the interrupt status `is`.
pub fn poll_command(ci: u32, tfd: u32, is: u32) -> (r: CommandPoll)
    ensures
        ci & 1 == 0 && tfd & PORT_TFD_ERR != 0 ==> r == CommandPoll::Error,
        ci & 1 == 0 && tfd & PORT_TFD_ERR == 0 ==> r == CommandPoll::Done,
        ci & 1 != 0 && is & PORT_IS_TFES != 0 ==> r == CommandPoll::TaskFileError,
        ci & 1 != 0 && is & PORT_IS_TFES == 0 ==> r == CommandPoll::Pending,
{
    if ci & 1 == 0 {
        if tfd & PORT_TFD_ERR != 0 {
            return CommandPoll::Error;
        }
        return CommandPoll::Done;
    }
    if is & PORT_IS_TFES != 0 {
        return CommandPoll::TaskFileError;
    }
    CommandPoll::Pending
}

/// Flags of a command header: a 5-dword command FIS, and the write bit for
/// writes.
pub fn header_flags(write: bool) -> (r: u16)
    ensures
        r == (if write { 5u16 | 0x40 } else { 5u16 }),
{
    let mut f: u16 = 5;
    if write {
        f = f | 0x40;
    }
    f
}

/// A physical region descriptor: buffer address halves and byte count
/// minus one.
#[derive(Clone, Copy, PartialEq, Eq, Structural, Debug)]
pub struct Prdt {
    pub dba: u32,
    pub dbau: u32,
    pub dbc: u32,
}

/// The descriptor for a `buf_size`-byte buffer at physical `buf_phys`.
pub fn prdt_entry(buf_phys: u64, buf_size: u32) -> (r: Prdt)
    ensures
        r.dba == buf_phys % 0x1_0000_0000,
        r.dbau == buf_phys / 0x1_0000_0000,
        r.dbc == (if buf_size == 0 { u32::MAX as int } else { buf_size - 1 }),
{
    let dba = buf_phys as u32;
    let dbau = (buf_phys >> 32u64) as u32;
    assert(dba == buf_phys % 0x1_0000_0000 && dbau == buf_phys / 0x1_0000_0000) by (bit_vector)
        requires
            dba == buf_phys as u32,
            dbau == (buf_phys >> 32u64) as u32,
    ;
    Prdt { dba, dbau, dbc: buf_size.wrapping_sub(1) }
}

/// A register host-to-device FIS.
#[derive(Clone, Copy, PartialEq, Eq, Structural, Debug)]
pub struct FisRegH2D {
    pub fis_type: u8,
    pub flags: u8,
    pub command: u8,
    pub feature_lo: u8,
    pub lba0: u8,
    pub lba1: u8,
    pub lba2: u8,
    pub device: u8,
    pub lba3: u8,
    pub lba4: u8,
    pub lba5: u8,
    pub feature_hi: u8,
    pub count_lo: u8,
    pub count_hi: u8,
    pub icc: u8,
    pub control: u8,
}

/// The 48-bit LBA that FIS `f` addresses.
pub open spec fn fis_lba(f: FisRegH2D) -> int {
    f.lba0 + f.lba1 * 0x100 + f.lba2 * 0x1_0000 + f.lba3 * 0x100_0000 + f.lba4 * 0x1_0000_0000
        + f.lba5 * 0x100_0000_0000
}

/// The FIS issuing ATA command `command` for `count` sectors at `lba`
/// (its low 48 bits), in LBA mode from the command register.
pub fn build_fis(command: u8, lba: u64, count: u16) -> (r: FisRegH2D)
    ensures
        r.fis_type == FIS_TYPE_REG_H2D,
        r.flags == 0x80,
        r.command == command,
        r.device == 0x40,
        fis_lba(r) == lba % 0x1_0000_0000_0000,
        r.count_lo + r.count_hi * 0x100 == count,
        r.feature_lo == 0 && r.feature_hi == 0 && r.icc == 0 && r.control == 0,
{
    let lba0 = (lba & 0xFF) as u8;
    let lba1 = ((lba >> 8u64) & 0xFF) as u8;
    let lba2 = ((lba >> 16u64) & 0xFF) as u8;
    let lba3 = ((lba >> 24u64) & 0xFF) as u8;
    let lba4 = ((lba >> 32u64) & 0xFF) as u8;
    let lba5 = ((lba >> 40u64) & 0xFF) as u8;
    let count_lo = (count & 0xFF) as u8;
    let count_hi = ((count >> 8u16) & 0xFF) as u8;
    assert(lba0 + lba1 * 0x100 + lba2 * 0x1_0000 + lba3 * 0x100_0000 + lba4 * 0x1_0000_0000 + lba5
        * 0x100_0000_0000 == lba % 0x1_0000_0000_0000) by (bit_vector)
        requires
            lba0 == (lba & 0xFF) as u8,
            lba1 == ((lba >> 8u64) & 0xFF) as u8,
            lba2 == ((lba >> 16u64) & 0xFF) as u8,
            lba3 == ((lba >> 24u64) & 0xFF) as u8,
            lba4 == ((lba >> 32u64) & 0xFF) as u8,
            lba5 == ((lba >> 40u64) & 0xFF) as u8,
    ;
    assert(count_lo + count_hi * 0x100 == count) by (bit_vector)
        requires
            count_lo == (count & 0xFF) as u8,
            count_hi == ((count >> 8u16) & 0xFF) as u8,
    ;
    FisRegH2D {
        fis_type: FIS_TYPE_REG_H2D,
        flags: 0x80,
        command,
        feature_lo: 0,
        lba0,
        lba1,
        lba2,
        device: 0x40,
        lba3,
        lba4,
        lba5,
        feature_hi: 0,
        count_lo,
        count_hi,
        icc: 0,
        control: 0,
    }
}

/// Bytes transferred by a read of `count` sectors (0 means 65536).
pub fn read_byte_count(count: u16) -> (r: u32)
    ensures
        r == (if count == 0 { 65536int * 512 } else { count * 512 }),
{
    if count == 0 {
        65536u32 * 512
    } else {
        count as u32 * 512
    }
}

/// Whether `port` is a disk that reads may go to: in range and set in the
/// mask `active` of initialised ports.
pub fn port_active(active: u32, port: usize) -> (r: bool)
    ensures
        r == (port < MAX_PORTS && active & (1u32 << port as u32) != 0),
{
    if port >= MAX_PORTS {
        return false;
    }
    active & (1u32 << port as u32) != 0
}

/// Whether byte `c` is printable ASCII.
pub open spec fn printable(c: u8) -> bool {
    0x20 <= c <= 0x7E
}

/// The printable bytes of IDENTIFY words `from..to`, high byte first in
/// each word.
pub open spec fn model_from(words: Seq<u16>, from: int, to: int) -> Seq<u8>
    decreases to - from,
{
    if from >= to {
        seq![]
    } else {
        let w = words[from];
        let hi = (w / 256) as u8;
        let lo = (w % 256) as u8;
        (if printable(hi) { seq![hi] } else { seq![] }) + (if printable(lo) { seq![lo] } else { seq![] })
            + model_from(words, from + 1, to)
    }
}

/// The model string of IDENTIFY data `words` (words 27..46, printable
/// bytes only).
pub fn identify_model(words: &[u16]) -> (r: Vec<u8>)
    requires
        words@.len() >= 47,
    ensures
        r@ == model_from(words@, 27, 47),
{
    let mut tail: Vec<u8> = Vec::new();
    let mut i: usize = 47;
    while i > 27
        invariant
            27 <= i <= 47,
            words@.len() >= 47,
            tail@ == model_from(words@, i as int, 47),
        decreases i,
    {
        i -= 1;
        let v = words[i];
        let hi = (v >> 8u16) as u8;
        let lo = (v & 0xFF) as u8;
        assert(hi == v / 256 && lo == v % 256) by (bit_vector)
            requires
                hi == (v >> 8u16) as u8,
                lo == (v & 0xFF) as u8,
        ;
        let mut piece: Vec<u8> = Vec::new();
        if hi >= 0x20 && hi <= 0x7E {
            piece.push(hi);
        }
        if lo >= 0x20 && lo <= 0x7E {
            piece.push(lo);
        }
        let ghost old_tail = tail@;
        let mut k: usize = 0;
        while k < tail.len()
            invariant
                k <= old_tail.len(),
                tail@ == old_tail,
                piece@ == (if printable(hi) { seq![hi] } else { seq![] }) + (if printable(lo) {
                    seq![lo]
                } else {
                    seq![]
                }) + old_tail.subrange(0, k as int),
            decreases old_tail.len() - k,
        {
            piece.push(tail[k]);
            k += 1;
            assert(piece@ =~= (if printable(hi) { seq![hi] } else { seq![] }) + (if printable(lo) {
                seq![lo]
            } else {
                seq![]
            }) + old_tail.subrange(0, k as int));
        }
        assert(old_tail.subrange(0, old_tail.len() as int) =~= old_tail);
        tail = piece;
    }
    tail
}

/// Sector count of IDENTIFY data `words` (words 100..103, the 48-bit
/// addressable count, low word first).
pub fn identify_sectors(words: &[u16]) -> (r: u64)
    requires
        words@.len() >= 104,
    ensures
        r == words@[100] + words@[101] * 0x1_0000 + words@[102] * 0x1_0000_0000 + words@[103]
            * 0x1_0000_0000_0000,
{
    let w0 = words[100] as u64;
    let w1 = words[101] as u64;
    let w2 = words[102] as u64;
    let w3 = words[103] as u64;
    let r = w0 | (w1 << 16u64) | (w2 << 32u64) | (w3 << 48u64);
    assert(r == w0 + w1 * 0x1_0000 + w2 * 0x1_0000_0000 + w3 * 0x1_0000_0000_0000) by (bit_vector)
        requires
            w0 < 0x1_0000,
            w1 < 0x1_0000,
            w2 < 0x1_0000,
            w3 < 0x1_0000,
            r == w0 | (w1 << 16u64) | (w2 << 32u64) | (w3 << 48u64),
    ;
    r
}

/// The capacity in MiB of a disk of `sectors` 512-byte sectors.
pub fn size_mb(sectors: u64) -> (r: u64)
    requires
        sectors * 512 <= u64::MAX,
    ensures
        r == sectors * 512 / (1024 * 1024int),
{
    (sectors * 512) / (1024 * 1024)
}

/// The window to map for the controller registers at physical `abar`: the
/// page-aligned base, the number of pages covering the 0x1100 register
/// bytes, and the offset of the registers in the first page.
pub fn abar_window(abar: u64) -> (r: (u64, usize, usize))
    ensures
        r.0 == abar & !0xFFFu64,
        r.2 == abar % 0x1000,
        r.1 == (abar % 0x1000 + 0x1100 + 0xFFF) / 0x1000,
{
    let aligned = abar & !0xFFFu64;
    assert(aligned <= abar && abar - aligned == abar % 0x1000) by (bit_vector)
        requires
            aligned == abar & !0xFFFu64,
    ;
    let off = abar - aligned;
    let off = off as usize;
    (aligned, (off + 0x1100 + 0xFFF) / 0x1000, off)
}

/// The lowest bit set in `mask` at position `p` or above.
pub open spec fn first_set_from(mask: u32, p: u32) -> Option<u32>
    decreases 32 - p,
{
    if p >= 32 {
        None
    } else if mask & (1u32 << p) != 0 {
        Some(p)
    } else {
        first_set_from(mask, (p + 1) as u32)
    }
}

/// The lowest port set in `mask`, if any.
pub fn first_port(mask: u32) -> (r: Option<usize>)
    ensures
        match first_set_from(mask, 0) {
            Some(p) => r == Some(p as usize),
            None => r is None,
        },
{
    let mut p: u32 = 0;
    while p < 32
        invariant
            p <= 32,
            first_set_from(mask, p) == first_set_from(mask, 0),
        decreases 32 - p,
    {
        if mask & (1u32 << p) != 0 {
            return Some(p as usize);
        }
        p += 1;
    }
    None
}

} // verus!

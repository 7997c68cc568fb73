//! Read-only ext2/ext3: decoding the superblock, group descriptors and
//! inodes, mapping a file's logical blocks through its direct and indirect
//! block pointers, and walking directories and paths. Disk reads happen
//! outside; the functions here say what to read and decode what came back.
use vstd::prelude::*;
use crate::bytes::{le16, le32, read_u16, read_u32};

verus! {

pub const EXT_MAGIC: u16 = 0xEF53;

/// Byte offset of the superblock on the disk.
pub const SUPERBLOCK_OFFSET: u64 = 1024;

/// Bytes of the superblock.
pub const SUPERBLOCK_SIZE: usize = 1024;

/// Inode number of the root directory.
pub const ROOT_INO: u32 = 2;

pub const S_IFMT: u16 = 0xF000;

pub const S_IFREG: u16 = 0x8000;

pub const S_IFDIR: u16 = 0x4000;

pub const S_IFLNK: u16 = 0xA000;

/// Bytes of the inode record decoded here.
pub const INODE_RECORD: usize = 128;

/// Bytes of a block group descriptor.
pub const BGD_SIZE: usize = 32;

/// Bytes of a disk sector.
pub const SECTOR_SIZE: u64 = 512;

/// The superblock fields, as stored on disk.
#[derive(Clone, Copy, Debug)]
pub struct Superblock {
    pub s_inodes_count: u32,
    pub s_blocks_count: u32,
    pub s_r_blocks_count: u32,
    pub s_free_blocks_count: u32,
    pub s_free_inodes_count: u32,
    pub s_first_data_block: u32,
    pub s_log_block_size: u32,
    pub s_log_frag_size: u32,
    pub s_blocks_per_group: u32,
    pub s_frags_per_group: u32,
    pub s_inodes_per_group: u32,
    pub s_mtime: u32,
    pub s_wtime: u32,
    pub s_mnt_count: u16,
    pub s_max_mnt_count: u16,
    pub s_magic: u16,
    pub s_state: u16,
    pub s_errors: u16,
    pub s_minor_rev_level: u16,
    pub s_lastcheck: u32,
    pub s_checkinterval: u32,
    pub s_creator_os: u32,
    pub s_rev_level: u32,
    pub s_def_resuid: u16,
    pub s_def_resgid: u16,
    pub s_first_ino: u32,
    pub s_inode_size: u16,
    pub s_block_group_nr: u16,
    pub s_feature_compat: u32,
    pub s_feature_incompat: u32,
    pub s_feature_ro_compat: u32,
    pub s_uuid: [u8; 16],
    pub s_volume_name: [u8; 16],
}

/// Whether `sb` holds the fields of the on-disk superblock `d`.
pub open spec fn superblock_of(sb: Superblock, d: Seq<u8>) -> bool {
    &&& sb.s_inodes_count == le32(d, 0)
    &&& sb.s_blocks_count == le32(d, 4)
    &&& sb.s_r_blocks_count == le32(d, 8)
    &&& sb.s_free_blocks_count == le32(d, 12)
    &&& sb.s_free_inodes_count == le32(d, 16)
    &&& sb.s_first_data_block == le32(d, 20)
    &&& sb.s_log_block_size == le32(d, 24)
    &&& sb.s_log_frag_size == le32(d, 28)
    &&& sb.s_blocks_per_group == le32(d, 32)
    &&& sb.s_frags_per_group == le32(d, 36)
    &&& sb.s_inodes_per_group == le32(d, 40)
    &&& sb.s_mtime == le32(d, 44)
    &&& sb.s_wtime == le32(d, 48)
    &&& sb.s_mnt_count == le16(d, 52)
    &&& sb.s_max_mnt_count == le16(d, 54)
    &&& sb.s_magic == le16(d, 56)
    &&& sb.s_state == le16(d, 58)
    &&& sb.s_errors == le16(d, 60)
    &&& sb.s_minor_rev_level == le16(d, 62)
    &&& sb.s_lastcheck == le32(d, 64)
    &&& sb.s_checkinterval == le32(d, 68)
    &&& sb.s_creator_os == le32(d, 72)
    &&& sb.s_rev_level == le32(d, 76)
    &&& sb.s_def_resuid == le16(d, 80)
    &&& sb.s_def_resgid == le16(d, 82)
    &&& sb.s_first_ino == le32(d, 84)
    &&& sb.s_inode_size == le16(d, 88)
    &&& sb.s_block_group_nr == le16(d, 90)
    &&& sb.s_feature_compat == le32(d, 92)
    &&& sb.s_feature_incompat == le32(d, 96)
    &&& sb.s_feature_ro_compat == le32(d, 100)
    &&& sb.s_uuid@ == d.subrange(104, 120)
    &&& sb.s_volume_name@ == d.subrange(120, 136)
}

fn copy16(d: &[u8], off: usize) -> (r: [u8; 16])
    requires
        off + 16 <= d@.len(),
    ensures
        r@ == d@.subrange(off as int, off + 16),
{
    let mut r = [0u8; 16];
    let mut i: usize = 0;
    while i < 16
        invariant
            i <= 16,
            off + 16 <= d@.len(),
            d@.len() == d.len(),
            forall|k: int| 0 <= k < i ==> r@[k] == d@[off + k],
        decreases 16 - i,
    {
        r[i] = d[off + i];
        i += 1;
    }
    assert(r@ =~= d@.subrange(off as int, off + 16));
    r
}

/// Length of the volume label: up to its first NUL, at most 16.
pub open spec fn label_len_from(name: Seq<u8>, i: nat) -> nat
    decreases 16 - i,
{
    if i >= 16 || i >= name.len() {
        i
    } else if name[i as int] == 0 {
        i
    } else {
        label_len_from(name, i + 1)
    }
}

impl Superblock {
    /// The superblock in the 1024 bytes `data` read at SUPERBLOCK_OFFSET;
    /// `None` when the magic number is not EXT_MAGIC.
    pub fn parse(data: &[u8]) -> (r: Option<Superblock>)
        requires
            data@.len() >= SUPERBLOCK_SIZE,
        ensures
            r is None <==> le16(data@, 56) != EXT_MAGIC,
            r matches Some(sb) ==> superblock_of(sb, data@),
    {
        let magic = read_u16(data, 56);
        if magic != EXT_MAGIC {
            return None;
        }
        let sb = Superblock {
            s_inodes_count: read_u32(data, 0),
            s_blocks_count: read_u32(data, 4),
            s_r_blocks_count: read_u32(data, 8),
            s_free_blocks_count: read_u32(data, 12),
            s_free_inodes_count: read_u32(data, 16),
            s_first_data_block: read_u32(data, 20),
            s_log_block_size: read_u32(data, 24),
            s_log_frag_size: read_u32(data, 28),
            s_blocks_per_group: read_u32(data, 32),
            s_frags_per_group: read_u32(data, 36),
            s_inodes_per_group: read_u32(data, 40),
            s_mtime: read_u32(data, 44),
            s_wtime: read_u32(data, 48),
            s_mnt_count: read_u16(data, 52),
            s_max_mnt_count: read_u16(data, 54),
            s_magic: magic,
            s_state: read_u16(data, 58),
            s_errors: read_u16(data, 60),
            s_minor_rev_level: read_u16(data, 62),
            s_lastcheck: read_u32(data, 64),
            s_checkinterval: read_u32(data, 68),
            s_creator_os: read_u32(data, 72),
            s_rev_level: read_u32(data, 76),
            s_def_resuid: read_u16(data, 80),
            s_def_resgid: read_u16(data, 82),
            s_first_ino: read_u32(data, 84),
            s_inode_size: read_u16(data, 88),
            s_block_group_nr: read_u16(data, 90),
            s_feature_compat: read_u32(data, 92),
            s_feature_incompat: read_u32(data, 96),
            s_feature_ro_compat: read_u32(data, 100),
            s_uuid: copy16(data, 104),
            s_volume_name: copy16(data, 120),
        };
        Some(sb)
    }

    /// Bytes per block: 1024 shifted left by the log field (truncated to 32
    /// bits).
    pub fn block_size(&self) -> (r: u32)
        requires
            self.s_log_block_size < 32,
        ensures
            r == 1024u32 << self.s_log_block_size,
    {
        1024u32 << self.s_log_block_size
    }

    /// Number of block groups: the block count divided by blocks per group,
    /// rounded up.
    pub fn block_group_count(&self) -> (r: u32)
        requires
            self.s_blocks_per_group > 0,
            self.s_blocks_count + self.s_blocks_per_group - 1 <= u32::MAX,
        ensures
            r == (self.s_blocks_count + self.s_blocks_per_group - 1) / (self.s_blocks_per_group as int),
    {
        let n = self.s_blocks_count + (self.s_blocks_per_group - 1);
        n / self.s_blocks_per_group
    }

    /// Bytes per inode record: the stored size for revision 1 and later when
    /// it is set, else 128.
    pub fn inode_size(&self) -> (r: u32)
        ensures
            r == (if self.s_rev_level >= 1 && self.s_inode_size > 0 {
                self.s_inode_size as u32
            } else {
                128u32
            }),
    {
        if self.s_rev_level >= 1 && self.s_inode_size > 0 {
            self.s_inode_size as u32
        } else {
            128
        }
    }

    /// Length of the volume label: the bytes before its first NUL.
    pub fn label_len(&self) -> (r: usize)
        ensures
            r == label_len_from(self.s_volume_name@, 0),
            r <= 16,
    {
        let mut i: usize = 0;
        while i < 16
            invariant
                i <= 16,
                label_len_from(self.s_volume_name@, i as nat) == label_len_from(self.s_volume_name@, 0),
            decreases 16 - i,
        {
            if self.s_volume_name[i] == 0 {
                return i;
            }
            i += 1;
        }
        i
    }
}

/// The inode fields, as stored on disk.
#[derive(Clone, Copy, Debug)]
pub struct Inode {
    pub i_mode: u16,
    pub i_uid: u16,
    pub i_size: u32,
    pub i_atime: u32,
    pub i_ctime: u32,
    pub i_mtime: u32,
    pub i_dtime: u32,
    pub i_gid: u16,
    pub i_links_count: u16,
    pub i_blocks: u32,
    pub i_flags: u32,
    pub i_osd1: u32,
    pub i_block: [u32; 15],
    pub i_generation: u32,
    pub i_file_acl: u32,
    pub i_size_high: u32,
    pub i_faddr: u32,
    pub i_osd2: [u8; 12],
}

/// Whether `ino` holds the fields of the on-disk inode record `d`.
pub open spec fn inode_of(ino: Inode, d: Seq<u8>) -> bool {
    &&& ino.i_mode == le16(d, 0)
    &&& ino.i_uid == le16(d, 2)
    &&& ino.i_size == le32(d, 4)
    &&& ino.i_atime == le32(d, 8)
    &&& ino.i_ctime == le32(d, 12)
    &&& ino.i_mtime == le32(d, 16)
    &&& ino.i_dtime == le32(d, 20)
    &&& ino.i_gid == le16(d, 24)
    &&& ino.i_links_count == le16(d, 26)
    &&& ino.i_blocks == le32(d, 28)
    &&& ino.i_flags == le32(d, 32)
    &&& ino.i_osd1 == le32(d, 36)
    &&& forall|k: int| 0 <= k < 15 ==> ino.i_block@[k] == le32(d, 40 + 4 * k)
    &&& ino.i_generation == le32(d, 100)
    &&& ino.i_file_acl == le32(d, 104)
    &&& ino.i_size_high == le32(d, 108)
    &&& ino.i_faddr == le32(d, 112)
    &&& ino.i_osd2@ == d.subrange(116, 128)
}

/// Whether mode `m` has file type `t`.
pub open spec fn mode_is(m: u16, t: u16) -> bool {
    m & S_IFMT == t
}

impl Inode {
    /// The inode in the record `data` (at least 128 bytes; a shorter
    /// on-disk record is zero-padded before decoding).
    pub fn parse(data: &[u8]) -> (r: Inode)
        requires
            data@.len() >= INODE_RECORD,
        ensures
            inode_of(r, data@),
    {
        let mut blocks = [0u32; 15];
        let mut k: usize = 0;
        while k < 15
            invariant
                k <= 15,
                data@.len() >= INODE_RECORD,
                forall|j: int| 0 <= j < k ==> blocks@[j] == le32(data@, 40 + 4 * j),
            decreases 15 - k,
        {
            blocks[k] = read_u32(data, 40 + 4 * k);
            k += 1;
        }
        let mut osd2 = [0u8; 12];
        let mut i: usize = 0;
        while i < 12
            invariant
                i <= 12,
                data@.len() >= INODE_RECORD,
                forall|j: int| 0 <= j < i ==> osd2@[j] == data@[116 + j],
            decreases 12 - i,
        {
            osd2[i] = data[116 + i];
            i += 1;
        }
        assert(osd2@ =~= data@.subrange(116, 128));
        Inode {
            i_mode: read_u16(data, 0),
            i_uid: read_u16(data, 2),
            i_size: read_u32(data, 4),
            i_atime: read_u32(data, 8),
            i_ctime: read_u32(data, 12),
            i_mtime: read_u32(data, 16),
            i_dtime: read_u32(data, 20),
            i_gid: read_u16(data, 24),
            i_links_count: read_u16(data, 26),
            i_blocks: read_u32(data, 28),
            i_flags: read_u32(data, 32),
            i_osd1: read_u32(data, 36),
            i_block: blocks,
            i_generation: read_u32(data, 100),
            i_file_acl: read_u32(data, 104),
            i_size_high: read_u32(data, 108),
            i_faddr: read_u32(data, 112),
            i_osd2: osd2,
        }
    }

    /// The file size: for a regular file the high 32 bits come from
    /// `i_size_high`, for anything else only the low word counts.
    pub fn size(&self) -> (r: u64)
        ensures
            r == (if mode_is(self.i_mode, S_IFREG) {
                self.i_size + self.i_size_high * 0x1_0000_0000
            } else {
                self.i_size as int
            }),
    {
        let lo = self.i_size as u64;
        if self.i_mode & S_IFMT == S_IFREG {
            let hi = self.i_size_high;
            let r = lo | ((hi as u64) << 32u64);
            assert(r == lo + hi * 0x1_0000_0000) by (bit_vector)
                requires
                    lo < 0x1_0000_0000,
                    r == lo | ((hi as u64) << 32u64),
            ;
            r
        } else {
            lo
        }
    }

    pub fn is_dir(&self) -> (r: bool)
        ensures
            r == mode_is(self.i_mode, S_IFDIR),
    {
        self.i_mode & S_IFMT == S_IFDIR
    }

    pub fn is_file(&self) -> (r: bool)
        ensures
            r == mode_is(self.i_mode, S_IFREG),
    {
        self.i_mode & S_IFMT == S_IFREG
    }
}

/// Bytes to allocate for an inode record of `inode_size` bytes: at least
/// the 128 decoded here.
pub fn inode_alloc_size(inode_size: u32) -> (r: usize)
    ensures
        r == (if inode_size > INODE_RECORD { inode_size as int } else { INODE_RECORD as int }),
{
    if (inode_size as usize) > INODE_RECORD {
        inode_size as usize
    } else {
        INODE_RECORD
    }
}

/// Where inode `ino` is described: the disk offset of its group's
/// descriptor, and its index in the group's inode table.
#[derive(Clone, Copy, PartialEq, Eq, Structural, Debug)]
pub struct InodeLocation {
    pub bgd_offset: u64,
    pub index: u32,
}

/// The block holding the group descriptor table: 2 with 1 KiB blocks
/// (block 1 is the superblock), else 1.
pub open spec fn bgdt_block(block_size: u32) -> int {
    if block_size == 1024 {
        2
    } else {
        1
    }
}

/// Where to find inode `ino`; `None` for inode 0, which does not exist.
pub fn inode_location(sb: &Superblock, ino: u32) -> (r: Option<InodeLocation>)
    requires
        sb.s_log_block_size < 32,
        sb.s_inodes_per_group > 0,
    ensures
        ino == 0 <==> r is None,
        r matches Some(loc) ==> {
            let bs = 1024u32 << sb.s_log_block_size;
            &&& loc.bgd_offset == bgdt_block(bs) * bs + ((ino - 1) / (
            sb.s_inodes_per_group as int)) * BGD_SIZE
            &&& loc.index == (ino - 1) % (sb.s_inodes_per_group as int)
        },
{
    if ino == 0 {
        return None;
    }
    let block_size = sb.block_size();
    let group = (ino - 1) / sb.s_inodes_per_group;
    let index = (ino - 1) % sb.s_inodes_per_group;
    let bgdt: u64 = if block_size == 1024 {
        2
    } else {
        1
    };
    let bgd_offset = bgdt * (block_size as u64) + (group as u64) * (BGD_SIZE as u64);
    Some(InodeLocation { bgd_offset, index })
}

/// The inode table's first block in a group descriptor `bgd` (32 bytes).
pub fn bgd_inode_table(bgd: &[u8]) -> (r: u32)
    requires
        bgd@.len() >= BGD_SIZE,
    ensures
        r == le32(bgd@, 8),
{
    read_u32(bgd, 8)
}

/// Disk offset of the record at `index` in an inode table starting at
/// block `inode_table`.
pub fn inode_byte_offset(sb: &Superblock, inode_table: u32, index: u32) -> (r: u64)
    requires
        sb.s_log_block_size < 32,
    ensures
        r == inode_table * (1024u32 << sb.s_log_block_size) + index * (if sb.s_rev_level >= 1
            && sb.s_inode_size > 0 {
            sb.s_inode_size as int
        } else {
            128
        }),
{
    let block_size = sb.block_size();
    let inode_size = sb.inode_size();
    let lg = sb.s_log_block_size;
    assert(block_size <= 0x8000_0000) by (bit_vector)
        requires
            block_size == 1024u32 << lg,
            lg < 32,
    ;
    assert((inode_table as u64) * (block_size as u64) <= 0xFFFF_FFFF * 0x8000_0000) by (
    nonlinear_arith)
        requires
            block_size <= 0x8000_0000,
    ;
    assert((index as u64) * (inode_size as u64) <= 0xFFFF_FFFF * 0xFFFF) by (nonlinear_arith)
        requires
            inode_size <= 0xFFFF,
    ;
    (inode_table as u64) * (block_size as u64) + (index as u64) * (inode_size as u64)
}

/// Where a logical block's number comes from: directly, or by following
/// pointer blocks from `root` through the indices given.
pub enum BlockPlan {
    Direct(u32),
    Chain(u32, Seq<u32>),
}

/// How logical block `logical` of a file with block pointers `ib` maps,
/// with `ppb` pointers per block: 12 direct pointers, then one single, one
/// double and one triple indirect tree; a missing tree or a block past them
/// all maps to 0 (a hole).
pub open spec fn block_plan(ppb: nat, ib: Seq<u32>, logical: nat) -> BlockPlan {
    if logical < 12 {
        BlockPlan::Direct(ib[logical as int])
    } else if logical - 12 < ppb {
        let l = (logical - 12) as nat;
        if ib[12] == 0 {
            BlockPlan::Direct(0)
        } else {
            BlockPlan::Chain(ib[12], seq![l as u32])
        }
    } else if logical - 12 - ppb < ppb * ppb {
        let l = (logical - 12 - ppb) as nat;
        if ib[13] == 0 {
            BlockPlan::Direct(0)
        } else {
            BlockPlan::Chain(ib[13], seq![(l / ppb) as u32, (l % ppb) as u32])
        }
    } else if logical - 12 - ppb - ppb * ppb < ppb * ppb * ppb {
        let l = (logical - 12 - ppb - ppb * ppb) as nat;
        let rem = l % (ppb * ppb);
        if ib[14] == 0 {
            BlockPlan::Direct(0)
        } else {
            BlockPlan::Chain(
                ib[14],
                seq![(l / (ppb * ppb)) as u32, (rem / ppb) as u32, (rem % ppb) as u32],
            )
        }
    } else {
        BlockPlan::Direct(0)
    }
}

/// The next thing to do while mapping a logical block.
#[derive(Clone, Copy, PartialEq, Eq, Structural, Debug)]
pub enum BlockStep {
    /// The physical block number (0: a hole).
    Found(u32),
    /// Read the 32-bit pointer at `index` in block `block` and feed it back.
    Read { block: u32, index: u32 },
}

/// Mapping of one logical block in progress: the pointer indices still to
/// follow.
pub struct BlockWalk {
    pending: Vec<u32>,
}

impl View for BlockWalk {
    type V = Seq<u32>;

    closed spec fn view(&self) -> Seq<u32> {
        self.pending@
    }
}

/// Pointers per block for block size `bs`.
pub open spec fn ppb_of(bs: u32) -> nat {
    (bs / 4) as nat
}

impl BlockWalk {
    /// Starts mapping logical block `logical` of `inode`.
    pub fn start(sb: &Superblock, inode: &Inode, logical: u32) -> (r: (BlockWalk, BlockStep))
        requires
            sb.s_log_block_size < 32,
            logical >= 12 + ppb_of(1024u32 << sb.s_log_block_size) ==> ppb_of(
                1024u32 << sb.s_log_block_size,
            ) * ppb_of(1024u32 << sb.s_log_block_size) <= u32::MAX,
            logical >= 12 + ppb_of(1024u32 << sb.s_log_block_size) + ppb_of(
                1024u32 << sb.s_log_block_size,
            ) * ppb_of(1024u32 << sb.s_log_block_size) ==> ppb_of(1024u32 << sb.s_log_block_size)
                * ppb_of(1024u32 << sb.s_log_block_size) * ppb_of(1024u32 << sb.s_log_block_size)
                <= u32::MAX,
        ensures
            match block_plan(
                ppb_of(1024u32 << sb.s_log_block_size),
                inode.i_block@,
                logical as nat,
            ) {
                BlockPlan::Direct(b) => r.1 == BlockStep::Found(b) && r.0@.len() == 0,
                BlockPlan::Chain(root, idx) => r.1 == (BlockStep::Read { block: root, index: idx[0] })
                    && r.0@ == idx.drop_first(),
            },
    {
        let block_size = sb.block_size();
        let ppb = block_size / 4;
        let ghost g = ppb_of(block_size);
        let ghost ib = inode.i_block@;
        let mut pending: Vec<u32> = Vec::new();
        if logical < 12 {
            return (BlockWalk { pending }, BlockStep::Found(inode.i_block[logical as usize]));
        }
        let l = logical - 12;
        if l < ppb {
            let root = inode.i_block[12];
            if root == 0 {
                return (BlockWalk { pending }, BlockStep::Found(0));
            }
            assert(pending@ =~= seq![l].drop_first());
            return (BlockWalk { pending }, BlockStep::Read { block: root, index: l });
        }
        let l = l - ppb;
        let double_range = ppb * ppb;
        if l < double_range {
            let root = inode.i_block[13];
            if root == 0 {
                return (BlockWalk { pending }, BlockStep::Found(0));
            }
            let idx1 = l / ppb;
            let idx2 = l % ppb;
            pending.push(idx2);
            assert(pending@ =~= seq![idx1, idx2].drop_first());
            return (BlockWalk { pending }, BlockStep::Read { block: root, index: idx1 });
        }
        let l = l - double_range;
        let triple_range = ppb * ppb * ppb;
        if l < triple_range {
            let root = inode.i_block[14];
            if root == 0 {
                return (BlockWalk { pending }, BlockStep::Found(0));
            }
            let idx1 = l / (ppb * ppb);
            let rem = l % (ppb * ppb);
            let idx2 = rem / ppb;
            let idx3 = rem % ppb;
            pending.push(idx2);
            pending.push(idx3);
            assert(pending@ =~= seq![idx1, idx2, idx3].drop_first());
            return (BlockWalk { pending }, BlockStep::Read { block: root, index: idx1 });
        }
        (BlockWalk { pending }, BlockStep::Found(0))
    }

    /// Takes the pointer `value` read for the last `Read` step: a zero
    /// pointer is a hole, the last pointer of the chain is the answer, and
    /// otherwise the next pointer is read from the block it names.
    pub fn feed(&mut self, value: u32) -> (r: BlockStep)
        ensures
            value == 0 || old(self)@.len() == 0 ==> r == BlockStep::Found(value),
            value != 0 && old(self)@.len() > 0 ==> r == (BlockStep::Read {
                block: value,
                index: old(self)@[0],
            }) && final(self)@ == old(self)@.drop_first(),
    {
        if value == 0 || self.pending.len() == 0 {
            return BlockStep::Found(value);
        }
        let index = self.pending.remove(0);
        BlockStep::Read { block: value, index }
    }
}

/// The result of following pointer chain `idx` from block `block`, where
/// `ptr(b, i)` is the pointer at index `i` of block `b`: a zero pointer on
/// the way means a hole.
pub open spec fn follow(ptr: spec_fn(u32, u32) -> u32, block: u32, idx: Seq<u32>) -> u32
    decreases idx.len(),
{
    if idx.len() == 0 {
        block
    } else {
        let v = ptr(block, idx[0]);
        if v == 0 {
            0
        } else {
            follow(ptr, v, idx.drop_first())
        }
    }
}

/// The block number a walk in state (`step`, `pending`) ends with when every
/// `Read { block, index }` is answered with `ptr(block, index)`.
pub open spec fn step_answer(ptr: spec_fn(u32, u32) -> u32, step: BlockStep, pending: Seq<u32>) -> u32 {
    match step {
        BlockStep::Found(b) => b,
        BlockStep::Read { block, index } => follow(ptr, block, seq![index] + pending),
    }
}

/// The physical block that `plan` names when `ptr(b, i)` is the pointer at
/// index `i` of block `b`.
pub open spec fn plan_answer(ptr: spec_fn(u32, u32) -> u32, plan: BlockPlan) -> u32 {
    match plan {
        BlockPlan::Direct(b) => b,
        BlockPlan::Chain(root, idx) => follow(ptr, root, idx),
    }
}

/// The state that `BlockWalk::start` hands out already ends with the block
/// that the logical block's plan names.
pub proof fn lemma_start_answer(
    ptr: spec_fn(u32, u32) -> u32,
    ppb: nat,
    ib: Seq<u32>,
    logical: nat,
    step: BlockStep,
    pending: Seq<u32>,
)
    requires
        match block_plan(ppb, ib, logical) {
            BlockPlan::Direct(b) => step == BlockStep::Found(b),
            BlockPlan::Chain(root, idx) => step == (BlockStep::Read { block: root, index: idx[0] })
                && pending == idx.drop_first(),
        },
    ensures
        step_answer(ptr, step, pending) == plan_answer(ptr, block_plan(ppb, ib, logical)),
{
    if let BlockPlan::Chain(root, idx) = block_plan(ppb, ib, logical) {
        assert(idx.len() > 0);
        assert(seq![idx[0]] + idx.drop_first() =~= idx);
    }
}

/// Feeding a walk the pointer it asked for keeps the block it ends with:
/// from `Read { block, index }` with `pending` left, the step and pending
/// indices that `feed(ptr(block, index))` gives end with the same block.
pub proof fn lemma_feed_answer(
    ptr: spec_fn(u32, u32) -> u32,
    block: u32,
    index: u32,
    pending: Seq<u32>,
    next: BlockStep,
    rest: Seq<u32>,
)
    requires
        ptr(block, index) == 0 || pending.len() == 0 ==> next == BlockStep::Found(ptr(block, index)),
        ptr(block, index) != 0 && pending.len() > 0 ==> next == (BlockStep::Read {
            block: ptr(block, index),
            index: pending[0],
        }) && rest == pending.drop_first(),
    ensures
        step_answer(ptr, next, rest) == step_answer(ptr, BlockStep::Read { block, index }, pending),
{
    let full = seq![index] + pending;
    let v = ptr(block, index);
    assert(full[0] == index);
    assert(full.drop_first() =~= pending);
    assert(follow(ptr, block, full) == if v == 0 { 0 } else { follow(ptr, v, pending) });
    if v != 0 {
        if pending.len() == 0 {
            assert(follow(ptr, v, pending) == v);
        } else {
            assert(seq![pending[0]] + pending.drop_first() =~= pending);
        }
    }
}

/// A span of whole sectors covering a byte range.
#[derive(Clone, Copy, PartialEq, Eq, Structural, Debug)]
pub struct SectorSpan {
    pub sector_start: u64,
    pub offset_in_sector: usize,
    pub sector_count: usize,
}

/// The sectors to read for `count` bytes at disk offset `byte_off`, and
/// where the bytes start in them; `None` when there is nothing to read.
pub fn sector_span(byte_off: u64, count: usize) -> (r: Option<SectorSpan>)
    requires
        count <= usize::MAX - 1023,
    ensures
        count == 0 <==> r is None,
        r matches Some(sp) ==> {
            &&& sp.sector_start == byte_off / SECTOR_SIZE
            &&& sp.offset_in_sector == byte_off % SECTOR_SIZE
            &&& sp.sector_count == (sp.offset_in_sector + count + 511) / 512
        },
{
    if count == 0 {
        return None;
    }
    let sector_start = byte_off / SECTOR_SIZE;
    let offset_in_sector = (byte_off % SECTOR_SIZE) as usize;
    let total_bytes = offset_in_sector + count;
    let sector_count = (total_bytes + 511) / 512;
    Some(SectorSpan { sector_start, offset_in_sector, sector_count })
}

/// The byte range of block `block_num`: its disk offset and length.
pub fn read_block(block_num: u64, block_size: u32) -> (r: (u64, usize))
    requires
        block_num * block_size <= u64::MAX,
    ensures
        r.0 == block_num * block_size,
        r.1 == block_size,
{
    (block_num * (block_size as u64), block_size as usize)
}

/// Disk offset of the pointer at `index` in block `block_num`.
pub fn block_ptr_offset(block_size: u32, block_num: u32, index: u32) -> (r: u64)
    requires
        block_num * block_size + index * 4 <= u64::MAX,
    ensures
        r == block_num * block_size + index * 4,
{
    assert((block_num as u64) * (block_size as u64) <= 0xFFFF_FFFF * 0xFFFF_FFFF) by (
    nonlinear_arith);
    (block_num as u64) * (block_size as u64) + (index as u64) * 4
}

/// Blocks holding `size` bytes.
pub fn blocks_needed(size: usize, block_size: u32) -> (r: usize)
    requires
        block_size > 0,
        size + block_size - 1 <= usize::MAX,
    ensures
        r == (size + block_size - 1) / (block_size as int),
{
    (size + (block_size as usize - 1)) / block_size as usize
}

/// Bytes of logical block `k` that belong to a `size`-byte file.
pub fn data_chunk(size: usize, block_size: u32, k: usize) -> (r: usize)
    requires
        k * block_size <= size,
    ensures
        r == (if size - k * block_size < block_size { size - k * block_size } else {
            block_size as int
        }),
{
    assert(k * (block_size as usize) <= size);
    let done = k * (block_size as usize);
    let left = size - done;
    if left < block_size as usize {
        left
    } else {
        block_size as usize
    }
}

/// The fixed part of a directory record.
#[derive(Clone, Copy, PartialEq, Eq, Structural, Debug)]
pub struct DirEntry {
    pub inode: u32,
    pub rec_len: u16,
    pub name_len: u8,
    pub file_type: u8,
}

pub const FT_UNKNOWN: u8 = 0;

pub const FT_REG_FILE: u8 = 1;

pub const FT_DIR: u8 = 2;

pub const FT_SYMLINK: u8 = 7;

/// The record header at offset `off` of directory data `d`.
pub open spec fn entry_at(d: Seq<u8>, off: int) -> DirEntry {
    DirEntry { inode: le32(d, off), rec_len: le16(d, off + 4), name_len: d[off + 6], file_type: d[off + 7] }
}

/// Whether the record at `off` names `name`; a name running past the end
/// of the data matches nothing.
pub open spec fn entry_names(d: Seq<u8>, off: int, name: Seq<u8>) -> bool {
    let e = entry_at(d, off);
    &&& e.inode != 0
    &&& e.name_len == name.len()
    &&& off + 8 + name.len() <= d.len()
    &&& d.subrange(off + 8, off + 8 + name.len()) == name
}

/// The inode of the first record from `off` on that names `name`, 0 when
/// none does; the walk stops at the end of the data or at a record length
/// of 0.
pub open spec fn dir_find_from(d: Seq<u8>, off: nat, name: Seq<u8>) -> u32
    decreases d.len() - off,
{
    if off + 8 > d.len() {
        0
    } else {
        let e = entry_at(d, off as int);
        if e.rec_len == 0 {
            0
        } else if entry_names(d, off as int, name) {
            e.inode
        } else if off + e.rec_len + 8 > d.len() {
            0
        } else {
            dir_find_from(d, off + e.rec_len as nat, name)
        }
    }
}

/// The records from `off` on that are in use (inode not 0), with their
/// offsets, in order.
pub open spec fn dir_list_from(d: Seq<u8>, off: nat) -> Seq<(usize, DirEntry)>
    decreases d.len() - off,
{
    if off + 8 > d.len() {
        seq![]
    } else {
        let e = entry_at(d, off as int);
        let here: Seq<(usize, DirEntry)> = if e.inode != 0 {
            seq![(off as usize, e)]
        } else {
            seq![]
        };
        if e.rec_len == 0 {
            seq![]
        } else if off + e.rec_len + 8 > d.len() {
            here
        } else {
            here + dir_list_from(d, off + e.rec_len as nat)
        }
    }
}

/// Record `r` of a listing of `d` is called exactly `name`: its name length
/// is `name`'s and its name bytes are `name`'s.
pub open spec fn listed_as(d: Seq<u8>, r: (usize, DirEntry), name: Seq<u8>) -> bool {
    &&& r.1.name_len as int == name.len()
    &&& r.0 + 8 + name.len() <= d.len()
    &&& d.subrange(r.0 + 8, r.0 + 8 + name.len()) == name
}

/// Looking `name` up gives a nonzero inode exactly when the listing has a
/// record called exactly `name` (a name that only begins the same way
/// does not count), and then it is the inode of the first such record.
pub proof fn lemma_find_matches_listing(d: Seq<u8>, off: nat, name: Seq<u8>)
    requires
        d.len() <= usize::MAX,
    ensures
        (dir_find_from(d, off, name) != 0) == exists|k: int|
            0 <= k < dir_list_from(d, off).len() && #[trigger] listed_as(d, dir_list_from(d, off)[k], name),
        dir_find_from(d, off, name) != 0 ==> exists|k: int|
            0 <= k < dir_list_from(d, off).len() && #[trigger] listed_as(d, dir_list_from(d, off)[k], name)
                && dir_list_from(d, off)[k].1.inode == dir_find_from(d, off, name)
                && forall|j: int| 0 <= j < k ==> !listed_as(d, #[trigger] dir_list_from(d, off)[j], name),
    decreases d.len() - off,
{
    let l = dir_list_from(d, off);
    if off + 8 <= d.len() {
        let e = entry_at(d, off as int);
        if e.rec_len != 0 {
            if entry_names(d, off as int, name) {
                assert(l[0] == (off as usize, e));
                assert(listed_as(d, l[0], name));
            } else if off + e.rec_len + 8 > d.len() {
                if e.inode != 0 {
                    assert(l =~= seq![(off as usize, e)]);
                    assert(!listed_as(d, l[0], name));
                }
                assert forall|k: int| 0 <= k < l.len() implies !#[trigger] listed_as(d, l[k], name) by {
                    assert(l[k] == (off as usize, e));
                }
            } else {
                let next = off + e.rec_len as nat;
                lemma_find_matches_listing(d, next, name);
                let rest = dir_list_from(d, next);
                let here: Seq<(usize, DirEntry)> = if e.inode != 0 {
                    seq![(off as usize, e)]
                } else {
                    seq![]
                };
                assert(l == here + rest);
                if e.inode != 0 {
                    assert(!listed_as(d, l[0], name));
                }
                assert forall|k: int| 0 <= k < l.len() && #[trigger] listed_as(d, l[k], name) implies (
                    k >= here.len() && listed_as(d, rest[k - here.len()], name)) by {
                    if k < here.len() {
                        assert(l[k] == (off as usize, e));
                    } else {
                        assert(l[k] == rest[k - here.len()]);
                    }
                }
                if exists|k: int| 0 <= k < rest.len() && #[trigger] listed_as(d, rest[k], name) {
                    let k = choose|k: int|
                        0 <= k < rest.len() && #[trigger] listed_as(d, rest[k], name) && rest[k].1.inode
                            == dir_find_from(d, next, name) && forall|j: int|
                            0 <= j < k ==> !listed_as(d, #[trigger] rest[j], name);
                    let kk = k + here.len();
                    assert(l[kk] == rest[k]);
                    assert(listed_as(d, l[kk], name));
                    assert forall|j: int| 0 <= j < kk implies !listed_as(d, #[trigger] l[j], name) by {
                        if j >= here.len() {
                            assert(l[j] == rest[j - here.len()]);
                        }
                    }
                }
            }
        }
    }
}

fn read_entry(data: &[u8], off: usize) -> (r: DirEntry)
    requires
        off + 8 <= data@.len(),
    ensures
        r == entry_at(data@, off as int),
{
    assert(data@.len() == data.len());
    DirEntry {
        inode: read_u32(data, off),
        rec_len: read_u16(data, off + 4),
        name_len: data[off + 6],
        file_type: data[off + 7],
    }
}

fn names_match(data: &[u8], off: usize, e: DirEntry, name: &[u8]) -> (r: bool)
    requires
        off + 8 <= data@.len(),
        e == entry_at(data@, off as int),
    ensures
        r == entry_names(data@, off as int, name@),
{
    if e.inode == 0 || e.name_len as usize != name.len() {
        return false;
    }
    if name.len() > data.len() - off - 8 {
        return false;
    }
    let start = off + 8;
    let mut i: usize = 0;
    while i < name.len()
        invariant
            i <= name@.len(),
            data@.len() == data.len(),
            start + name@.len() <= data@.len(),
            start == off + 8,
            forall|k: int| 0 <= k < i ==> data@[start + k] == name@[k],
        decreases name@.len() - i,
    {
        if data[start + i] != name[i] {
            assert(data@.subrange(start as int, start + name@.len())[i as int] != name@[i as int]);
            return false;
        }
        i += 1;
    }
    assert(data@.subrange(start as int, start + name@.len()) =~= name@);
    true
}

/// The inode that directory data `data` gives for `name`; 0 when no record
/// in use names it.
pub fn find_in_dir_data(data: &[u8], name: &[u8]) -> (r: u32)
    ensures
        r == dir_find_from(data@, 0, name@),
{
    let mut off: usize = 0;
    if data.len() < 8 {
        return 0;
    }
    loop
        invariant
            off + 8 <= data@.len(),
            data@.len() == data.len(),
            dir_find_from(data@, off as nat, name@) == dir_find_from(data@, 0, name@),
        decreases data@.len() - off,
    {
        let e = read_entry(data, off);
        if e.rec_len == 0 {
            return 0;
        }
        if names_match(data, off, e, name) {
            return e.inode;
        }
        if data.len() - off - 8 < e.rec_len as usize {
            return 0;
        }
        off = off + e.rec_len as usize;
    }
}

/// The records in use in directory data `data`, with their offsets.
pub fn list_dir_data(data: &[u8]) -> (r: Vec<(usize, DirEntry)>)
    ensures
        r@ == dir_list_from(data@, 0),
{
    let mut out: Vec<(usize, DirEntry)> = Vec::new();
    if data.len() < 8 {
        return out;
    }
    let mut off: usize = 0;
    loop
        invariant
            off + 8 <= data@.len(),
            data@.len() == data.len(),
            out@ + dir_list_from(data@, off as nat) == dir_list_from(data@, 0),
        decreases data@.len() - off,
    {
        let e = read_entry(data, off);
        let ghost before = out@;
        if e.rec_len == 0 {
            assert(out@ + dir_list_from(data@, off as nat) =~= out@);
            return out;
        }
        if e.inode != 0 {
            out.push((off, e));
        }
        if data.len() - off - 8 < e.rec_len as usize {
            assert(out@ =~= before + dir_list_from(data@, off as nat));
            return out;
        }
        let next = off + e.rec_len as usize;
        assert(out@ + dir_list_from(data@, next as nat) =~= before + dir_list_from(data@, off as nat));
        off = next;
    }
}

/// The inode that `name` has in directory `dir_inode`, whose data is
/// `data`; 0 when `dir_inode` is not a directory, has no data, or has no
/// such entry.
pub fn lookup(dir_inode: &Inode, data: &[u8], name: &[u8]) -> (r: u32)
    ensures
        r == (if !mode_is(dir_inode.i_mode, S_IFDIR) || data@.len() == 0 {
            0
        } else {
            dir_find_from(data@, 0, name@)
        }),
{
    if dir_inode.i_mode & S_IFMT != S_IFDIR {
        return 0;
    }
    if data.len() == 0 {
        return 0;
    }
    find_in_dir_data(data, name)
}

/// A path component to keep: not empty and not ".".
pub open spec fn keep_component(c: Seq<u8>) -> Seq<Seq<u8>> {
    if c.len() == 0 || c == seq![0x2Eu8] {
        seq![]
    } else {
        seq![c]
    }
}

/// The components of `p` from index `i` on, `cur` being the part of the
/// current component already read: split at '/', dropping empty ones and
/// ".".
pub open spec fn components_from(p: Seq<u8>, i: nat, cur: Seq<u8>) -> Seq<Seq<u8>>
    decreases p.len() - i,
{
    if i >= p.len() {
        keep_component(cur)
    } else if p[i as int] == 0x2F {
        keep_component(cur) + components_from(p, i + 1, seq![])
    } else {
        components_from(p, i + 1, cur.push(p[i as int]))
    }
}

/// The directory names that path `p` goes through, in order (leading,
/// doubled and trailing slashes and "." change nothing).
pub open spec fn path_components(p: Seq<u8>) -> Seq<Seq<u8>> {
    components_from(p, 0, seq![])
}

proof fn lemma_components_shift(pre: Seq<u8>, b: Seq<u8>, j: nat, cur: Seq<u8>)
    requires
        j <= b.len(),
    ensures
        components_from(pre + b, pre.len() + j, cur) == components_from(b, j, cur),
    decreases b.len() - j,
{
    let p = pre + b;
    if j < b.len() {
        assert(p[(pre.len() + j) as int] == b[j as int]);
        lemma_components_shift(pre, b, j + 1, seq![]);
        lemma_components_shift(pre, b, j + 1, cur.push(b[j as int]));
    }
}

proof fn lemma_components_join_from(a: Seq<u8>, b: Seq<u8>, i: nat, cur: Seq<u8>)
    requires
        i <= a.len(),
    ensures
        components_from(a + seq![0x2Fu8] + b, i, cur) == components_from(a, i, cur) + path_components(b),
    decreases a.len() - i,
{
    let p = a + seq![0x2Fu8] + b;
    if i == a.len() {
        assert(p[i as int] == 0x2F);
        assert(p =~= (a + seq![0x2Fu8]) + b);
        lemma_components_shift(a + seq![0x2Fu8], b, 0, seq![]);
    } else {
        assert(p[i as int] == a[i as int]);
        if a[i as int] == 0x2F {
            lemma_components_join_from(a, b, i + 1, seq![]);
            assert(keep_component(cur) + (components_from(a, i + 1, seq![]) + path_components(b))
                =~= keep_component(cur) + components_from(a, i + 1, seq![]) + path_components(b));
        } else {
            lemma_components_join_from(a, b, i + 1, cur.push(a[i as int]));
        }
    }
}

/// Joining two paths with '/' joins their components; so doubled slashes
/// and "." components change nothing.
pub proof fn lemma_components_join(a: Seq<u8>, b: Seq<u8>)
    ensures
        path_components(a + seq![0x2Fu8] + b) == path_components(a) + path_components(b),
{
    lemma_components_join_from(a, b, 0, seq![]);
}

/// The empty path, "/" and "." have no components: they name the start
/// directory itself.
pub proof fn lemma_root_components()
    ensures
        path_components(seq![]) == Seq::<Seq<u8>>::empty(),
        path_components(seq![0x2Fu8]) == Seq::<Seq<u8>>::empty(),
        path_components(seq![0x2Eu8]) == Seq::<Seq<u8>>::empty(),
{
    assert(keep_component(seq![]) =~= Seq::<Seq<u8>>::empty());
    assert(components_from(seq![0x2Fu8], 1, seq![]) =~= Seq::<Seq<u8>>::empty());
    assert(seq![0x2Eu8] =~= Seq::<u8>::empty().push(0x2Eu8));
    assert(components_from(seq![0x2Eu8], 1, seq![0x2Eu8]) =~= Seq::<Seq<u8>>::empty());
}

fn push_component(out: &mut Vec<Vec<u8>>, cur: Vec<u8>)
    ensures
        final(out)@.len() <= old(out)@.len() + 1,
        final(out)@.map_values(|c: Vec<u8>| c@) == old(out)@.map_values(|c: Vec<u8>| c@) + keep_component(cur@),
{
    let keep = !(cur.len() == 0 || (cur.len() == 1 && cur[0] == 0x2E));
    let ghost o = old(out)@;
    if keep {
        assert(cur@ != seq![0x2Eu8] && cur@.len() != 0) by {
            if cur@ =~= seq![0x2Eu8] {
                assert(cur@.len() == 1 && cur@[0] == 0x2E);
            }
        }
        out.push(cur);
        assert(out@.map_values(|c: Vec<u8>| c@) =~= o.map_values(|c: Vec<u8>| c@) + keep_component(cur@));
    } else {
        assert(keep_component(cur@) =~= Seq::<Seq<u8>>::empty()) by {
            if cur@.len() != 0 {
                assert(cur@ =~= seq![0x2Eu8]);
            }
        }
        assert(out@.map_values(|c: Vec<u8>| c@) =~= o.map_values(|c: Vec<u8>| c@) + keep_component(cur@));
    }
}

/// The components of `path` (see `path_components`).
pub fn split_path(path: &[u8]) -> (r: Vec<Vec<u8>>)
    ensures
        r@.map_values(|c: Vec<u8>| c@) == path_components(path@),
{
    let mut out: Vec<Vec<u8>> = Vec::new();
    let mut cur: Vec<u8> = Vec::new();
    let mut i: usize = 0;
    while i < path.len()
        invariant
            i <= path@.len(),
            out@.map_values(|c: Vec<u8>| c@) + components_from(path@, i as nat, cur@) == path_components(
                path@,
            ),
        decreases path@.len() - i,
    {
        let ghost o = out@.map_values(|c: Vec<u8>| c@);
        let ghost c0 = cur@;
        if path[i] == 0x2F {
            let done = cur;
            cur = Vec::new();
            push_component(&mut out, done);
            assert(out@.map_values(|c: Vec<u8>| c@) + components_from(path@, (i + 1) as nat, cur@)
                =~= o + components_from(path@, i as nat, c0));
        } else {
            cur.push(path[i]);
            assert(cur@ =~= c0.push(path@[i as int]));
        }
        i += 1;
    }
    let ghost o = out@.map_values(|c: Vec<u8>| c@);
    let ghost c0 = cur@;
    push_component(&mut out, cur);
    assert(out@.map_values(|c: Vec<u8>| c@) =~= o + components_from(path@, i as nat, c0));
    out
}

/// The next thing to do while resolving a path.
#[derive(Debug)]
pub enum PathStep {
    /// The inode the path names (0: it names nothing).
    Done(u32),
    /// Look `name` up in directory inode `dir_ino` (see `lookup`) and feed
    /// back the inode found, or 0 when the directory cannot be read.
    Lookup { dir_ino: u32, name: Vec<u8> },
}

/// Resolution of a path in progress.
pub struct PathWalk {
    comps: Vec<Vec<u8>>,
    next: usize,
    current: u32,
}

/// The step a walk at component `next` of `comps`, now at inode `cur`,
/// takes.
pub open spec fn path_step(comps: Seq<Seq<u8>>, next: nat, cur: u32, step: PathStep) -> bool {
    if next >= comps.len() {
        step == PathStep::Done(cur)
    } else {
        step matches PathStep::Lookup { dir_ino, name } && dir_ino == cur && name@ == comps[next as int]
    }
}

impl PathWalk {
    /// The components still to look up, and the inode reached so far.
    pub closed spec fn remaining(&self) -> Seq<Seq<u8>> {
        self.comps@.map_values(|c: Vec<u8>| c@).skip(self.next as int)
    }

    pub closed spec fn current(&self) -> u32 {
        self.current
    }

    pub closed spec fn wf(&self) -> bool {
        self.next <= self.comps@.len()
    }

    /// Starts resolving `path` from directory inode `start_ino`.
    pub fn start(path: &[u8], start_ino: u32) -> (r: (PathWalk, PathStep))
        ensures
            r.0.wf(),
            r.0.remaining() == path_components(path@),
            r.0.current() == start_ino,
            path_step(path_components(path@), 0, start_ino, r.1),
    {
        let comps = split_path(path);
        let w = PathWalk { comps, next: 0, current: start_ino };
        assert(w.remaining() =~= path_components(path@));
        let step = w.step();
        (w, step)
    }

    fn step(&self) -> (r: PathStep)
        requires
            self.wf(),
        ensures
            path_step(self.remaining(), 0, self.current, r),
    {
        if self.next >= self.comps.len() {
            PathStep::Done(self.current)
        } else {
            let name = self.comps[self.next].clone();
            assert(name@ == self.remaining()[0]);
            PathStep::Lookup { dir_ino: self.current, name }
        }
    }

    /// Takes the inode `found` for the last `Lookup`: 0 ends the walk with
    /// 0, else the walk moves on from it.
    pub fn feed(&mut self, found: u32) -> (r: PathStep)
        requires
            old(self).wf(),
            old(self).remaining().len() > 0,
        ensures
            final(self).wf(),
            found == 0 ==> r == PathStep::Done(0),
            found != 0 ==> final(self).remaining() == old(self).remaining().drop_first()
                && final(self).current() == found
                && path_step(final(self).remaining(), 0, found, r),
    {
        if found == 0 {
            return PathStep::Done(0);
        }
        let n = self.next;
        assert(n < self.comps.len()) by {
            assert(self.remaining().len() == self.comps@.len() - n);
        }
        self.current = found;
        self.next = n + 1;
        assert(self.remaining() =~= old(self).remaining().drop_first());
        self.step()
    }
}

/// A mounted file system: the disk port it lives on and its superblock.
pub struct Ext3 {
    pub port: usize,
    pub sb: Superblock,
}

impl Ext3 {
    /// Mounts the file system on `port` from the superblock bytes `data`
    /// read there; `None` when they hold no ext superblock.
    pub fn mount(port: usize, data: &[u8]) -> (r: Option<Ext3>)
        requires
            data@.len() >= SUPERBLOCK_SIZE,
        ensures
            r is None <==> le16(data@, 56) != EXT_MAGIC,
            r matches Some(fs) ==> fs.port == port && superblock_of(fs.sb, data@),
    {
        match Superblock::parse(data) {
            Some(sb) => Some(Ext3 { port, sb }),
            None => None,
        }
    }

    /// The inode to list for `path`: the root for "" and "/", else the
    /// path has to be resolved.
    pub fn list_dir_start(&self, path: &[u8]) -> (r: Option<u32>)
        ensures
            r == (if path@.len() == 0 || path@ == seq![0x2Fu8] { Some(ROOT_INO) } else { None::<u32> }),
    {
        if path.len() == 0 || (path.len() == 1 && path[0] == 0x2F) {
            assert(path@.len() == 1 ==> path@ =~= seq![0x2Fu8]);
            Some(ROOT_INO)
        } else {
            assert(path@ != seq![0x2Fu8] || path@.len() == 0) by {
                if path@ =~= seq![0x2Fu8] {
                    assert(path@.len() == 1);
                }
            }
            None
        }
    }
}

/// The tag that a listing shows for file type `ft`.
pub open spec fn type_tag(ft: u8) -> Seq<u8> {
    if ft == FT_DIR {
        seq![0x5Bu8, 0x44, 0x49, 0x52, 0x5D, 0x20]
    } else if ft == FT_REG_FILE {
        seq![0x5Bu8, 0x46, 0x49, 0x4C, 0x5D, 0x20]
    } else if ft == FT_SYMLINK {
        seq![0x5Bu8, 0x4C, 0x4E, 0x4B, 0x5D, 0x20]
    } else {
        seq![0x5Bu8, 0x3F, 0x3F, 0x3F, 0x5D, 0x20]
    }
}

/// One line of a directory listing: two spaces, the type tag, the name,
/// and the inode number.
pub open spec fn listing_line(name: Seq<u8>, ino: u32, ft: u8) -> Seq<u8> {
    seq![0x20u8, 0x20] + type_tag(ft) + name + seq![0x20u8, 0x28, 0x69, 0x6E, 0x6F, 0x3D]
        + crate::serial::format_num(ino as nat, 10) + seq![0x29u8, 0x0A]
}

fn push_all(out: &mut Vec<u8>, s: &[u8])
    ensures
        final(out)@ == old(out)@ + s@,
{
    let mut i: usize = 0;
    while i < s.len()
        invariant
            i <= s@.len(),
            out@ == old(out)@ + s@.subrange(0, i as int),
        decreases s@.len() - i,
    {
        out.push(s[i]);
        i += 1;
        assert(out@ =~= old(out)@ + s@.subrange(0, i as int));
    }
    assert(s@.subrange(0, s@.len() as int) =~= s@);
}

/// The listing line for an entry named `name` with inode `ino` and file
/// type `ft`, as the root listing prints it.
pub fn dump_line(name: &[u8], ino: u32, ft: u8) -> (r: Vec<u8>)
    ensures
        r@ == listing_line(name@, ino, ft),
{
    let mut out: Vec<u8> = Vec::new();
    push_all(&mut out, &[0x20u8, 0x20]);
    let tag: [u8; 6] = if ft == FT_DIR {
        [0x5B, 0x44, 0x49, 0x52, 0x5D, 0x20]
    } else if ft == FT_REG_FILE {
        [0x5B, 0x46, 0x49, 0x4C, 0x5D, 0x20]
    } else if ft == FT_SYMLINK {
        [0x5B, 0x4C, 0x4E, 0x4B, 0x5D, 0x20]
    } else {
        [0x5B, 0x3F, 0x3F, 0x3F, 0x5D, 0x20]
    };
    assert(tag@ =~= type_tag(ft));
    push_all(&mut out, &tag);
    push_all(&mut out, name);
    push_all(&mut out, &[0x20u8, 0x28, 0x69, 0x6E, 0x6F, 0x3D]);
    let num = crate::serial::dec(ino as u64);
    push_all(&mut out, num.as_slice());
    push_all(&mut out, &[0x29u8, 0x0A]);
    assert(out@ =~= listing_line(name@, ino, ft));
    out
}

} // verus!

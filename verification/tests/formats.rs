use avaria::bytes::{read_u16, read_u32, read_u64};
use avaria::elf::{load_at, load_check, parse_header, program_headers, ElfError};
use avaria::ext3::{
    blocks_needed, block_ptr_offset, bgd_inode_table, data_chunk, dump_line, find_in_dir_data,
    inode_alloc_size, inode_byte_offset, inode_location, list_dir_data, lookup, read_block,
    sector_span, split_path, BlockStep, BlockWalk, Ext3, Inode, InodeLocation, PathStep, PathWalk,
    SectorSpan, Superblock, FT_DIR, FT_REG_FILE, ROOT_INO,
};
use avaria::initrd::{parse_octal, octal_ok, TarFs};
use avaria::psf::{PsfFont, UnicodeMap};
use avaria::vfs::FileSystem;

#[test]
fn little_endian_reads() {
    let d = [1u8, 2, 3, 4, 5, 6, 7, 8, 9];
    assert_eq!(read_u16(&d, 1), 0x0302);
    assert_eq!(read_u32(&d, 0), 0x0403_0201);
    assert_eq!(read_u64(&d, 1), 0x0908_0706_0504_0302);
}

fn tar_header(name: &str, size: usize, typeflag: u8) -> Vec<u8> {
    let mut h = vec![0u8; 512];
    h[..name.len()].copy_from_slice(name.as_bytes());
    let field = format!("{:011o}\0", size);
    h[124..136].copy_from_slice(field.as_bytes());
    h[156] = typeflag;
    h
}

fn tar_member(name: &str, data: &[u8]) -> Vec<u8> {
    let mut v = tar_header(name, data.len(), b'0');
    let mut body = data.to_vec();
    body.resize((data.len() + 511) / 512 * 512, 0);
    v.extend(body);
    v
}

fn archive() -> Vec<u8> {
    let mut a = Vec::new();
    a.extend(tar_header("./", 0, b'5'));
    a.extend(tar_header("./boot/", 0, b'5'));
    a.extend(tar_member("./boot/modules/a.ko", b"AAAA"));
    a.extend(tar_member("./boot/modules/b.txt", b"text"));
    a.extend(tar_member("./res/font.psf", &[7u8; 600]));
    a.extend(tar_member("./boot/modules/c.ko", b"CC"));
    a.extend(vec![0u8; 1024]);
    a
}

#[test]
fn octal_fields() {
    assert_eq!(parse_octal(b"00000000644\0"), 0o644);
    assert_eq!(parse_octal(b"17 "), 0o17);
    assert!(octal_ok(b"00000001000\0"));
    assert!(!octal_ok(b"12/4"));
}

#[test]
fn tar_parse_and_find() {
    let a = archive();
    assert!(TarFs::check(&a));
    let fs = TarFs::parse(&a).unwrap();
    assert_eq!(fs.len(), 5);
    assert_eq!(fs.entry_name(0), b"boot/");
    assert!(fs.entry_is_dir(0));
    let i = fs.find("/res/font.psf").unwrap();
    assert_eq!(fs.entry_data(i).len(), 600);
    assert_eq!(fs.find("boot"), Some(0));
    assert_eq!(fs.find("missing"), None);
    assert_eq!(fs.read("boot/modules/a.ko"), Some(&b"AAAA"[..]));
    assert_eq!(fs.read("/boot"), None);
    assert!(fs.path_exists("boot"));
    assert!(!fs.path_exists("boot/"));
    assert!(!fs.path_exists("nope"));
    assert!(fs.list("/").is_none());
}

#[test]
fn tar_matching_members() {
    let a = archive();
    let fs = TarFs::parse(&a).unwrap();
    let hits = fs.for_each_matching("/boot/modules/", ".ko");
    let names: Vec<&[u8]> = hits.iter().map(|&i| fs.entry_name(i)).collect();
    assert_eq!(names, vec![&b"boot/modules/a.ko"[..], &b"boot/modules/c.ko"[..]]);
}

#[test]
fn tar_rejects_bad_utf8_and_malformed_sizes() {
    let mut a = tar_member("ok", b"1");
    a[0] = 0xFF;
    assert!(TarFs::check(&a));
    assert!(TarFs::parse(&a).is_none());
    let mut b = tar_header("big", 0, b'0');
    b[124..136].copy_from_slice(b"00000001000\0");
    assert!(!TarFs::check(&b));
    let mut c = tar_header("neg", 0, b'0');
    c[124..128].copy_from_slice(b"12/4");
    assert!(!TarFs::check(&c));
}

#[test]
fn tar_empty_archive() {
    let a = vec![0u8; 1024];
    let fs = TarFs::parse(&a).unwrap();
    assert_eq!(fs.len(), 0);
    assert_eq!(fs.find(""), None);
}

fn font_bytes(with_unicode: bool) -> Vec<u8> {
    let mode = if with_unicode { 2 } else { 0 };
    let mut d = vec![0x36u8, 0x04, mode, 16];
    for g in 0..256usize {
        for row in 0..16usize {
            d.push(if g == b'A' as usize && row == 0 { 0x81 } else { g as u8 });
        }
    }
    if with_unicode {
        for g in 0..256u16 {
            if g == 65 {
                d.extend_from_slice(&0x0410u16.to_le_bytes());
            }
            d.extend_from_slice(&0xFFFFu16.to_le_bytes());
        }
    }
    d
}

#[test]
fn unicode_map_first_mapping_wins() {
    let mut m = UnicodeMap::new();
    m.insert(0x410, 65);
    m.insert(0x410, 66);
    m.insert(0x411, 67);
    assert_eq!(m.lookup(0x410), Some(65));
    assert_eq!(m.lookup(0x411), Some(67));
    assert_eq!(m.lookup(0x412), None);
}

#[test]
fn psf_parse_and_glyph_lookup() {
    let d = font_bytes(true);
    let f = PsfFont::parse(&d).unwrap();
    assert_eq!((f.charsize(), f.width(), f.height()), (16, 8, 16));
    assert_eq!(f.glyph_index('A' as u32), 65);
    assert_eq!(f.glyph_index(0x410), 65);
    assert_eq!(f.glyph_index(0x20AC), 63);
    let plain = font_bytes(false);
    let g = PsfFont::parse(&plain).unwrap();
    assert_eq!(g.glyph_index(0x410), 63);
    assert!(PsfFont::parse(&plain[..100]).is_none());
    assert!(PsfFont::parse(&[0x36, 0x05, 0, 16]).is_none());
}

#[test]
fn psf_draws_glyph_rows() {
    let d = font_bytes(false);
    let f = PsfFont::parse(&d).unwrap();
    let mut fb = avaria::vesa::Framebuffer::new(vec![0u8; 16 * 4 * 16], 16, 16, 64, 4);
    f.draw_char(&mut fb, 0, 0, 'A' as u32, 0xFF0000, 0x0000FF);
    let px = fb.pixels();
    assert_eq!(&px[0..4], &[0x00, 0x00, 0xFF, 0xFF]);
    assert_eq!(&px[4..8], &[0xFF, 0x00, 0x00, 0xFF]);
    assert_eq!(&px[28..32], &[0x00, 0x00, 0xFF, 0xFF]);
    f.draw_str(&mut fb, 0, 0, "AAA", 0x00FF00, 0);
    let px = fb.pixels();
    assert_eq!(&px[64 * 0 + 32..64 * 0 + 36], &[0x00, 0xFF, 0x00, 0xFF]);
}

#[test]
fn psf_draw_str_overflow_domain() {
    let d = font_bytes(false);
    let f = PsfFont::parse(&d).unwrap();
    let mut fb = avaria::vesa::Framebuffer::new(vec![0u8; 16 * 4 * 16], 16, 16, 64, 4);
    assert!(f.fits_str(&fb, usize::MAX, usize::MAX, ""));
    assert!(!f.fits_str(&fb, usize::MAX - 4, 0, "A"));
    assert!(!f.fits_str(&fb, 0, usize::MAX - 4, "\n"));
    let far = usize::MAX - 20;
    assert!(f.fits_str(&fb, 0, far, "AAAA"));
    f.draw_str(&mut fb, 0, far, "AAAA", 0x00FF00, 0);
    assert!(fb.pixels().iter().all(|&b| b == 0));
}

fn elf_image(vaddr: u64, body: &[u8], memsz: u64) -> Vec<u8> {
    let mut d = vec![0u8; 64 + 56];
    d[0..4].copy_from_slice(&[0x7f, b'E', b'L', b'F']);
    d[4] = 2;
    d[5] = 1;
    d[16..18].copy_from_slice(&2u16.to_le_bytes());
    d[18..20].copy_from_slice(&62u16.to_le_bytes());
    d[24..32].copy_from_slice(&(vaddr + 4).to_le_bytes());
    d[32..40].copy_from_slice(&64u64.to_le_bytes());
    d[54..56].copy_from_slice(&56u16.to_le_bytes());
    d[56..58].copy_from_slice(&1u16.to_le_bytes());
    let p = 64;
    d[p..p + 4].copy_from_slice(&1u32.to_le_bytes());
    d[p + 8..p + 16].copy_from_slice(&120u64.to_le_bytes());
    d[p + 16..p + 24].copy_from_slice(&vaddr.to_le_bytes());
    d[p + 32..p + 40].copy_from_slice(&(body.len() as u64).to_le_bytes());
    d[p + 40..p + 48].copy_from_slice(&memsz.to_le_bytes());
    d.extend_from_slice(body);
    d
}

#[test]
fn elf_header_errors_in_order() {
    assert_eq!(parse_header(&[0u8; 10]).err(), Some(ElfError::TooSmall));
    let good = elf_image(0x40_0000, b"code", 8);
    let mut bad = good.clone();
    bad[1] = b'X';
    assert_eq!(parse_header(&bad).err(), Some(ElfError::BadMagic));
    let mut bad = good.clone();
    bad[4] = 1;
    assert_eq!(parse_header(&bad).err(), Some(ElfError::Not64Bit));
    let mut bad = good.clone();
    bad[5] = 2;
    assert_eq!(parse_header(&bad).err(), Some(ElfError::NotLittleEndian));
    let mut bad = good.clone();
    bad[16] = 1;
    assert_eq!(parse_header(&bad).err(), Some(ElfError::NotExecutable));
    let mut bad = good.clone();
    bad[18] = 3;
    assert_eq!(parse_header(&bad).err(), Some(ElfError::NotX86_64));
    let h = parse_header(&good).ok().unwrap();
    assert_eq!(h.e_entry, 0x40_0004);
    assert_eq!(program_headers(&good, &h).ok().unwrap()[0].p_vaddr, 0x40_0000);
    let mut short = good.clone();
    short.truncate(100);
    let h2 = parse_header(&short).ok().unwrap();
    assert_eq!(program_headers(&short, &h2).err(), Some(ElfError::BadPhdr));
}

#[test]
fn elf_load_copies_and_zeroes() {
    let img = elf_image(0x40_0000, b"code", 8);
    let mut buf = vec![0xEEu8; 16];
    assert!(load_check(&img, buf.len()));
    let l = load_at(&img, &mut buf, 0x9000).ok().unwrap();
    assert_eq!(l.entry, 0x9004);
    assert_eq!(l.load_base, 0x9000);
    assert_eq!(l.load_size, 8);
    assert_eq!(&buf[..8], b"code\0\0\0\0");
    assert_eq!(buf[8], 0xEE);
    let mut small = vec![0u8; 4];
    assert_eq!(load_at(&img, &mut small, 0).err(), Some(ElfError::BadPhdr));
}

#[test]
fn elf_load_check_rejects_overlong_copy() {
    let img = elf_image(0x40_0000, b"codecode", 4);
    assert!(!load_check(&img, 4));
    assert!(load_check(&img, 8));
}

#[test]
fn elf_load_span_past_buffer_is_refused_before_copying() {
    let img = elf_image(0x40_0000, &[0xAB; 0x40], 0x2000);
    let mut buf = vec![0x11u8; 16];
    assert!(load_check(&img, buf.len()));
    assert_eq!(load_at(&img, &mut buf, 0).err(), Some(ElfError::BadPhdr));
    assert_eq!(buf, vec![0x11u8; 16]);
}

fn superblock_bytes(log_block: u32, rev: u32, inode_size: u16) -> Vec<u8> {
    let mut d = vec![0u8; 1024];
    d[0..4].copy_from_slice(&64u32.to_le_bytes());
    d[4..8].copy_from_slice(&8193u32.to_le_bytes());
    d[24..28].copy_from_slice(&log_block.to_le_bytes());
    d[32..36].copy_from_slice(&8192u32.to_le_bytes());
    d[40..44].copy_from_slice(&32u32.to_le_bytes());
    d[56..58].copy_from_slice(&0xEF53u16.to_le_bytes());
    d[76..80].copy_from_slice(&rev.to_le_bytes());
    d[88..90].copy_from_slice(&inode_size.to_le_bytes());
    d[120..124].copy_from_slice(b"disk");
    d
}

fn sb(log_block: u32, rev: u32, inode_size: u16) -> Superblock {
    Superblock::parse(&superblock_bytes(log_block, rev, inode_size)).unwrap()
}

#[test]
fn ext3_superblock_fields() {
    let s = sb(2, 1, 256);
    assert_eq!(s.s_inodes_count, 64);
    assert_eq!(s.block_size(), 4096);
    assert_eq!(s.block_group_count(), 2);
    assert_eq!(s.inode_size(), 256);
    assert_eq!(s.label_len(), 4);
    assert_eq!(sb(0, 0, 256).inode_size(), 128);
    assert_eq!(sb(0, 1, 0).inode_size(), 128);
    let mut bad = superblock_bytes(0, 0, 0);
    bad[56] = 0;
    assert!(Superblock::parse(&bad).is_none());
    assert!(Ext3::mount(3, &bad).is_none());
    let fs = Ext3::mount(3, &superblock_bytes(0, 0, 0)).unwrap();
    assert_eq!(fs.port, 3);
    assert_eq!(fs.list_dir_start(b"/"), Some(ROOT_INO));
    assert_eq!(fs.list_dir_start(b""), Some(ROOT_INO));
    assert_eq!(fs.list_dir_start(b"/etc"), None);
}

fn inode_bytes(mode: u16, size: u32, size_high: u32, blocks: &[u32]) -> Vec<u8> {
    let mut d = vec![0u8; 128];
    d[0..2].copy_from_slice(&mode.to_le_bytes());
    d[4..8].copy_from_slice(&size.to_le_bytes());
    for (k, b) in blocks.iter().enumerate() {
        d[40 + 4 * k..44 + 4 * k].copy_from_slice(&b.to_le_bytes());
    }
    d[108..112].copy_from_slice(&size_high.to_le_bytes());
    d
}

#[test]
fn ext3_inode_fields() {
    let f = Inode::parse(&inode_bytes(0x81A4, 10, 1, &[5]));
    assert!(f.is_file());
    assert!(!f.is_dir());
    assert_eq!(f.size(), 0x1_0000_000A);
    assert_eq!(f.i_block[0], 5);
    let d = Inode::parse(&inode_bytes(0x41ED, 1024, 1, &[9]));
    assert!(d.is_dir());
    assert_eq!(d.size(), 1024);
    assert_eq!(inode_alloc_size(256), 256);
    assert_eq!(inode_alloc_size(64), 128);
}

#[test]
fn ext3_inode_location() {
    let s = sb(0, 1, 256);
    assert_eq!(inode_location(&s, 0), None);
    assert_eq!(inode_location(&s, 2), Some(InodeLocation { bgd_offset: 2048, index: 1 }));
    assert_eq!(inode_location(&s, 33), Some(InodeLocation { bgd_offset: 2048 + 32, index: 0 }));
    let s4 = sb(2, 1, 256);
    assert_eq!(inode_location(&s4, 2), Some(InodeLocation { bgd_offset: 4096, index: 1 }));
    let mut bgd = vec![0u8; 32];
    bgd[8..12].copy_from_slice(&5u32.to_le_bytes());
    assert_eq!(bgd_inode_table(&bgd), 5);
    assert_eq!(inode_byte_offset(&s4, 5, 1), 5 * 4096 + 256);
}

#[test]
fn ext3_block_mapping() {
    let s = sb(0, 1, 256);
    let mut blocks = [0u32; 15];
    for k in 0..12 {
        blocks[k] = 100 + k as u32;
    }
    blocks[12] = 200;
    blocks[13] = 300;
    let ino = Inode::parse(&inode_bytes(0x81A4, 0, 0, &blocks));
    let (_, step) = BlockWalk::start(&s, &ino, 3);
    assert_eq!(step, BlockStep::Found(103));
    let (_, step) = BlockWalk::start(&s, &ino, 12 + 5);
    assert_eq!(step, BlockStep::Read { block: 200, index: 5 });
    let (mut w, step) = BlockWalk::start(&s, &ino, 12 + 256 + 256 + 7);
    assert_eq!(step, BlockStep::Read { block: 300, index: 1 });
    assert_eq!(w.feed(400), BlockStep::Read { block: 400, index: 7 });
    assert_eq!(w.feed(555), BlockStep::Found(555));
    let (mut w, _) = BlockWalk::start(&s, &ino, 12 + 256 + 3);
    assert_eq!(w.feed(0), BlockStep::Found(0));
    let (_, step) = BlockWalk::start(&s, &ino, 12 + 256 + 65536 + 1);
    assert_eq!(step, BlockStep::Found(0));
}

#[test]
fn ext3_disk_ranges() {
    assert_eq!(sector_span(1000, 0), None);
    assert_eq!(
        sector_span(1000, 100),
        Some(SectorSpan { sector_start: 1, offset_in_sector: 488, sector_count: 2 })
    );
    assert_eq!(
        sector_span(1024, 1024),
        Some(SectorSpan { sector_start: 2, offset_in_sector: 0, sector_count: 2 })
    );
    assert_eq!(read_block(3, 4096), (12288, 4096));
    assert_eq!(block_ptr_offset(1024, 7, 3), 7 * 1024 + 12);
    assert_eq!(blocks_needed(5000, 1024), 5);
    assert_eq!(data_chunk(5000, 1024, 4), 904);
    assert_eq!(data_chunk(5000, 1024, 1), 1024);
}

fn dir_record(ino: u32, rec_len: u16, ft: u8, name: &[u8]) -> Vec<u8> {
    let mut v = Vec::new();
    v.extend_from_slice(&ino.to_le_bytes());
    v.extend_from_slice(&rec_len.to_le_bytes());
    v.push(name.len() as u8);
    v.push(ft);
    v.extend_from_slice(name);
    v.resize(rec_len as usize, 0);
    v
}

fn dir_data() -> Vec<u8> {
    let mut d = Vec::new();
    d.extend(dir_record(2, 12, FT_DIR, b"."));
    d.extend(dir_record(2, 12, FT_DIR, b".."));
    d.extend(dir_record(0, 16, FT_REG_FILE, b"gone"));
    d.extend(dir_record(12, 20, FT_REG_FILE, b"hello.txt"));
    d.extend(dir_record(13, 64, FT_DIR, b"etc"));
    d
}

#[test]
fn ext3_directory_search() {
    let d = dir_data();
    assert_eq!(find_in_dir_data(&d, b"hello.txt"), 12);
    assert_eq!(find_in_dir_data(&d, b"etc"), 13);
    assert_eq!(find_in_dir_data(&d, b"gone"), 0);
    assert_eq!(find_in_dir_data(&d, b"missing"), 0);
    let mut cut = d.clone();
    cut[12 + 4] = 0;
    cut[12 + 5] = 0;
    assert_eq!(find_in_dir_data(&cut, b"etc"), 0);
    let listed: Vec<u32> = list_dir_data(&d).iter().map(|(_, e)| e.inode).collect();
    assert_eq!(listed, vec![2, 2, 12, 13]);
    let dir = Inode::parse(&inode_bytes(0x41ED, d.len() as u32, 0, &[9]));
    let file = Inode::parse(&inode_bytes(0x81A4, d.len() as u32, 0, &[9]));
    assert_eq!(lookup(&dir, &d, b"etc"), 13);
    assert_eq!(lookup(&file, &d, b"etc"), 0);
    assert_eq!(lookup(&dir, &[], b"etc"), 0);
}

#[test]
fn ext3_path_walk() {
    let comps = split_path(b"//etc/./init.d//rc/");
    assert_eq!(comps, vec![b"etc".to_vec(), b"init.d".to_vec(), b"rc".to_vec()]);
    assert!(split_path(b"/").is_empty());
    let (_, step) = PathWalk::start(b"/", ROOT_INO);
    assert!(matches!(step, PathStep::Done(2)));
    let (mut w, step) = PathWalk::start(b"/etc/passwd", ROOT_INO);
    match step {
        PathStep::Lookup { dir_ino, name } => {
            assert_eq!(dir_ino, 2);
            assert_eq!(name, b"etc".to_vec());
        }
        PathStep::Done(_) => panic!("expected a lookup"),
    }
    match w.feed(13) {
        PathStep::Lookup { dir_ino, name } => {
            assert_eq!(dir_ino, 13);
            assert_eq!(name, b"passwd".to_vec());
        }
        PathStep::Done(_) => panic!("expected a lookup"),
    }
    assert!(matches!(w.feed(40), PathStep::Done(40)));
    let (mut w, _) = PathWalk::start(b"a/b", ROOT_INO);
    assert!(matches!(w.feed(0), PathStep::Done(0)));
}

#[test]
fn ext3_paths_normalise() {
    assert_eq!(split_path(b"/a//./b"), split_path(b"a/b"));
    assert!(split_path(b"").is_empty());
    assert!(matches!(PathWalk::start(b"", ROOT_INO).1, PathStep::Done(2)));
    assert!(matches!(PathWalk::start(b"/./", ROOT_INO).1, PathStep::Done(2)));
}

#[test]
fn ext3_listing_line() {
    assert_eq!(dump_line(b"etc", 13, FT_DIR), b"  [DIR] etc (ino=13)\n".to_vec());
    assert_eq!(dump_line(b"a", 0, FT_REG_FILE), b"  [FIL] a (ino=0)\n".to_vec());
    assert_eq!(dump_line(b"l", 7, 7), b"  [LNK] l (ino=7)\n".to_vec());
    assert_eq!(dump_line(b"x", 1, 9), b"  [???] x (ino=1)\n".to_vec());
}

use aao_os::bootloader::elf_loader::{
    check_elf_header, load_segments, segment_image, segment_pages, Elf64Header, Elf64Phdr, ElfLoadError,
    PT_LOAD,
};

fn put(buf: &mut Vec<u8>, off: usize, bytes: &[u8]) {
    buf[off..off + bytes.len()].copy_from_slice(bytes);
}

fn phdr(buf: &mut Vec<u8>, off: usize, ty: u32, offset: u64, paddr: u64, filesz: u64, memsz: u64) {
    put(buf, off, &ty.to_le_bytes());
    put(buf, off + 4, &5u32.to_le_bytes());
    put(buf, off + 8, &offset.to_le_bytes());
    put(buf, off + 16, &(paddr + 0xFFFF_8000_0000_0000).to_le_bytes());
    put(buf, off + 24, &paddr.to_le_bytes());
    put(buf, off + 32, &filesz.to_le_bytes());
    put(buf, off + 40, &memsz.to_le_bytes());
    put(buf, off + 48, &0x1000u64.to_le_bytes());
}

fn image() -> Vec<u8> {
    let mut b = vec![0u8; 512];
    put(&mut b, 0, b"\x7FELF");
    b[4] = 2;
    put(&mut b, 16, &2u16.to_le_bytes());
    put(&mut b, 18, &0x3Eu16.to_le_bytes());
    put(&mut b, 20, &1u32.to_le_bytes());
    put(&mut b, 24, &0x10_0010u64.to_le_bytes());
    put(&mut b, 32, &64u64.to_le_bytes());
    put(&mut b, 54, &56u16.to_le_bytes());
    put(&mut b, 56, &3u16.to_le_bytes());
    phdr(&mut b, 64, PT_LOAD, 400, 0x10_0000, 8, 20);
    phdr(&mut b, 120, 4, 0, 0, 0, 0);
    phdr(&mut b, 176, PT_LOAD, 0, 0x20_0000, 0, 5000);
    put(&mut b, 400, &[1, 2, 3, 4, 5, 6, 7, 8]);
    b
}

#[test]
fn header_is_checked_and_decoded() {
    let b = image();
    let h: Elf64Header = check_elf_header(&b, b.len()).unwrap();
    assert_eq!(&h.e_ident[0..4], b"\x7FELF");
    assert_eq!(h.e_ident[4], 2);
    assert_eq!(h.e_type, 2);
    assert_eq!(h.e_machine, 0x3E);
    assert_eq!(h.e_version, 1);
    assert_eq!(h.e_entry, 0x10_0010);
    assert_eq!(h.e_phoff, 64);
    assert_eq!(h.e_phentsize, 56);
    assert_eq!(h.e_phnum, 3);
}

#[test]
fn short_read_is_a_load_error() {
    let b = image();
    assert_eq!(check_elf_header(&b, 63).unwrap_err(), ElfLoadError::Truncated);
}

#[test]
fn bad_magic_is_a_load_error() {
    let mut b = image();
    b[1] = b'X';
    assert_eq!(check_elf_header(&b, b.len()).unwrap_err(), ElfLoadError::BadMagic);
}

#[test]
fn only_load_segments_are_kept() {
    let b = image();
    let h = check_elf_header(&b, b.len()).unwrap();
    let segs: Vec<Elf64Phdr> = load_segments(&b, &h);
    assert_eq!(segs.len(), 2);
    assert_eq!(segs[0].p_paddr, 0x10_0000);
    assert_eq!(segs[0].p_flags, 5);
    assert_eq!(segs[0].p_vaddr, 0xFFFF_8000_0010_0000);
    assert_eq!(segs[0].p_align, 0x1000);
    assert_eq!(segs[1].p_paddr, 0x20_0000);
    assert_eq!(segs[1].p_memsz, 5000);
}

#[test]
fn segment_image_is_file_bytes_then_zeros() {
    let b = image();
    let h = check_elf_header(&b, b.len()).unwrap();
    let segs = load_segments(&b, &h);
    assert_eq!(segment_image(&b, &segs[0]), vec![1, 2, 3, 4, 5, 6, 7, 8, 0, 0, 0, 0, 0, 0, 0, 0, 0, 0, 0, 0]);
    let bss = segment_image(&b, &segs[1]);
    assert_eq!(bss.len(), 5000);
    assert!(bss.iter().all(|&x| x == 0));
}

#[test]
fn pages_round_up() {
    assert_eq!(segment_pages(0), 0);
    assert_eq!(segment_pages(1), 1);
    assert_eq!(segment_pages(4096), 1);
    assert_eq!(segment_pages(4097), 2);
    assert_eq!(segment_pages(5000), 2);
}

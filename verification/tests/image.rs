use inka::program::{declared_size, ImageError, Program};
use inka::{Base, Find};

const LFANEW: usize = 0x40;
const OPT_SIZE: usize = 240;
const TABLE_OFF: usize = LFANEW + 24 + OPT_SIZE;

/// Builds a minimal 64-bit image: legacy header, new-style headers, and a
/// section table, inside a zero-filled buffer of `total` bytes whose header
/// declares `declared` as the mapped size.
fn build_image(total: usize, declared: u32, sections: &[([u8; 8], u32, u32)]) -> Vec<u8> {
    let mut img = vec![0u8; total];
    img[0] = 0x4d;
    img[1] = 0x5a;
    img[0x3c..0x40].copy_from_slice(&(LFANEW as u32).to_le_bytes());
    img[LFANEW] = 0x50;
    img[LFANEW + 1] = 0x45;
    img[LFANEW + 6..LFANEW + 8].copy_from_slice(&(sections.len() as u16).to_le_bytes());
    img[LFANEW + 20..LFANEW + 22].copy_from_slice(&(OPT_SIZE as u16).to_le_bytes());
    img[LFANEW + 24..LFANEW + 26].copy_from_slice(&0x20bu16.to_le_bytes());
    img[LFANEW + 80..LFANEW + 84].copy_from_slice(&declared.to_le_bytes());
    for (i, (name, va, vs)) in sections.iter().enumerate() {
        let off = TABLE_OFF + 40 * i;
        img[off..off + 8].copy_from_slice(name);
        img[off + 8..off + 12].copy_from_slice(&vs.to_le_bytes());
        img[off + 12..off + 16].copy_from_slice(&va.to_le_bytes());
    }
    img
}

fn base() -> Base {
    Base::new(0x140000000).unwrap()
}

#[test]
fn parse_sections_and_ranges() {
    let img = build_image(
        0x2000,
        0x2000,
        &[
            (*b".text\0\0\0", 0x400, 0x200),
            (*b".data\0\0\0", 0x600, 0x100),
        ],
    );
    let p = Program::new(base(), img).unwrap();
    assert_eq!(p.base().addr(), 0x140000000);
    assert_eq!(p.len(), 0x2000);
    let sections = p.sections();
    assert_eq!(sections.len(), 2);
    assert_eq!(sections[0].name(), ".text");
    assert_eq!(sections[0].base().addr(), 0x140000000 + 0x400);
    assert_eq!(sections[0].len(), 0x200);
    assert_eq!(sections[1].name(), ".data");
    assert_eq!(sections[1].base().addr(), 0x140000000 + 0x600);
    assert_eq!(sections[1].len(), 0x100);
    // every section stays inside the program, and none overlap
    for s in sections {
        assert!(s.base().addr() >= p.base().addr());
        assert!(s.base().addr() + s.len() <= p.base().addr() + p.len());
    }
    for w in sections.windows(2) {
        assert!(w[0].base().addr() + w[0].len() <= w[1].base().addr());
    }
}

#[test]
fn section_bytes_come_from_the_image() {
    let mut img = build_image(0x1000, 0x1000, &[(*b"code\0\0\0\0", 0x800, 0x10)]);
    for i in 0..0x10 {
        img[0x800 + i] = (i as u8) + 1;
    }
    let p = Program::new(base(), img).unwrap();
    let s = p.get_section("code").unwrap();
    assert_eq!(s.as_slice(), &[1, 2, 3, 4, 5, 6, 7, 8, 9, 10, 11, 12, 13, 14, 15, 16]);
    assert_eq!(s.find(&[3, 4]).unwrap().addr(), 0x140000000 + 0x802);
}

#[test]
fn get_section_first_of_duplicate_names_wins() {
    let img = build_image(
        0x2000,
        0x2000,
        &[
            (*b"twin\0\0\0\0", 0x400, 0x100),
            (*b"twin\0\0\0\0", 0x500, 0x100),
        ],
    );
    let p = Program::new(base(), img).unwrap();
    let s = p.get_section("twin").unwrap();
    assert_eq!(s.base().addr(), 0x140000000 + 0x400);
}

#[test]
fn get_section_absent_is_none() {
    let img = build_image(0x1000, 0x1000, &[(*b".text\0\0\0", 0x400, 0x100)]);
    let p = Program::new(base(), img).unwrap();
    assert!(p.get_section(".data").is_none());
}

#[test]
fn section_name_stops_at_first_zero() {
    let img = build_image(0x1000, 0x1000, &[(*b"ab\0cdefg", 0x400, 0x10)]);
    let p = Program::new(base(), img).unwrap();
    assert_eq!(p.sections()[0].name(), "ab");
}

#[test]
fn section_name_invalid_text_falls_back() {
    let img = build_image(0x1000, 0x1000, &[([0xff, 0xfe, 0, 0, 0, 0, 0, 0], 0x400, 0x10)]);
    let p = Program::new(base(), img).unwrap();
    assert_eq!(p.sections()[0].name(), "Invalid UTF-8");
}

#[test]
fn truncated_buffer_is_rejected() {
    let img = vec![0x4d, 0x5a, 0, 0];
    assert_eq!(Program::new(base(), img).unwrap_err(), ImageError::Truncated);
}

#[test]
fn bad_dos_magic_is_rejected() {
    let mut img = build_image(0x1000, 0x1000, &[]);
    img[0] = b'X';
    assert_eq!(Program::new(base(), img).unwrap_err(), ImageError::BadDosMagic);
}

#[test]
fn bad_pe_magic_is_rejected() {
    let mut img = build_image(0x1000, 0x1000, &[]);
    img[LFANEW + 1] = b'X';
    assert_eq!(Program::new(base(), img).unwrap_err(), ImageError::BadPeMagic);
}

#[test]
fn bad_optional_magic_is_rejected() {
    let mut img = build_image(0x1000, 0x1000, &[]);
    img[LFANEW + 24..LFANEW + 26].copy_from_slice(&0x10bu16.to_le_bytes());
    assert_eq!(Program::new(base(), img).unwrap_err(), ImageError::BadOptionalMagic);
}

#[test]
fn absurd_section_count_is_rejected() {
    let mut img = build_image(0x2000, 0x2000, &[]);
    img[LFANEW + 6..LFANEW + 8].copy_from_slice(&97u16.to_le_bytes());
    assert_eq!(Program::new(base(), img).unwrap_err(), ImageError::TooManySections);
}

#[test]
fn declared_size_must_match() {
    let img = build_image(0x1000, 0x1800, &[]);
    assert_eq!(Program::new(base(), img).unwrap_err(), ImageError::SizeMismatch);
}

#[test]
fn section_leaving_the_image_is_rejected() {
    let img = build_image(0x1000, 0x1000, &[(*b".text\0\0\0", 0xf00, 0x200)]);
    assert_eq!(Program::new(base(), img).unwrap_err(), ImageError::BadSectionLayout);
}

#[test]
fn overlapping_sections_are_rejected() {
    let img = build_image(
        0x2000,
        0x2000,
        &[
            (*b"one\0\0\0\0\0", 0x400, 0x200),
            (*b"two\0\0\0\0\0", 0x500, 0x100),
        ],
    );
    assert_eq!(Program::new(base(), img).unwrap_err(), ImageError::BadSectionLayout);
}

#[test]
fn declared_size_reads_the_header() {
    let img = build_image(0x1000, 0x1800, &[]);
    assert_eq!(declared_size(&img[..0x100]), Some(0x1800));
    assert_eq!(declared_size(&img[..4]), None);
    let mut bad = img.clone();
    bad[1] = b'X';
    assert_eq!(declared_size(&bad[..0x100]), None);
}

#[test]
fn program_find_and_contains() {
    let mut img = build_image(0x1000, 0x1000, &[]);
    img[0x900] = 0xde;
    img[0x901] = 0xad;
    img[0x902] = 0xbe;
    img[0x903] = 0xef;
    let p = Program::new(base(), img).unwrap();
    assert!(p.contains(&[0xde, 0xad, 0xbe, 0xef]));
    assert!(!p.contains(&[0xde, 0xad, 0xbe, 0xad]));
    assert_eq!(p.find(&[0xde, 0xad, 0xbe, 0xef]).unwrap().addr(), 0x140000000 + 0x900);
    assert_eq!(p.rfind(&[0xde, 0xad, 0xbe, 0xef]).unwrap().addr(), 0x140000000 + 0x900);
    assert_eq!(p.as_slice().len(), 0x1000);
}

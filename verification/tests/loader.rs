use boot_core::error::BootError;
use boot_core::image::{ElfImage, ProgramHeader, EM_X86_64, PT_LOAD};
use boot_core::loader::{complete_load, load_segment, plan_image, plan_load, LoadRange, ProgramSegment};

const PT_NOTE: u32 = 4;

fn loadable(offset: u64, file_size: u64, vaddr: u64, mem_size: u64) -> ProgramHeader {
    ProgramHeader { kind: PT_LOAD, offset, vaddr, file_size, mem_size }
}

fn image_of(entry: u64, headers: Vec<ProgramHeader>) -> ElfImage {
    ElfImage { entry, wide: true, machine: EM_X86_64, headers }
}

fn push_u16(out: &mut Vec<u8>, v: u16) {
    out.extend_from_slice(&v.to_le_bytes());
}

fn push_u32(out: &mut Vec<u8>, v: u32) {
    out.extend_from_slice(&v.to_le_bytes());
}

fn push_u64(out: &mut Vec<u8>, v: u64) {
    out.extend_from_slice(&v.to_le_bytes());
}

/// A 64-bit little-endian executable with the given machine, entry and
/// program headers, followed by `payload`.
fn elf_file(machine: u16, entry: u64, headers: &[ProgramHeader], payload: &[u8]) -> Vec<u8> {
    let mut out: Vec<u8> = vec![0x7f, b'E', b'L', b'F', 2, 1, 1, 0, 0, 0, 0, 0, 0, 0, 0, 0];
    push_u16(&mut out, 2);
    push_u16(&mut out, machine);
    push_u32(&mut out, 1);
    push_u64(&mut out, entry);
    push_u64(&mut out, 64);
    push_u64(&mut out, 0);
    push_u32(&mut out, 0);
    push_u16(&mut out, 64);
    push_u16(&mut out, 56);
    push_u16(&mut out, headers.len() as u16);
    push_u16(&mut out, 64);
    push_u16(&mut out, 0);
    push_u16(&mut out, 0);
    for h in headers {
        push_u32(&mut out, h.kind);
        push_u32(&mut out, 5);
        push_u64(&mut out, h.offset);
        push_u64(&mut out, h.vaddr);
        push_u64(&mut out, h.vaddr);
        push_u64(&mut out, h.file_size);
        push_u64(&mut out, h.mem_size);
        push_u64(&mut out, 0x1000);
    }
    out.extend_from_slice(payload);
    out
}

#[test]
fn one_segment_is_copied_and_zero_filled() {
    let bytes: Vec<u8> = vec![1, 2, 3, 4];
    let image = image_of(0x100000, vec![loadable(0, 4, 0x100000, 8)]);
    let plan = plan_load(&image, &bytes).unwrap();
    assert_eq!(plan.range(), LoadRange { low: 0x100000, high: 0x100008 });
    assert_eq!(plan.page_count(), 1);
    let mut memory = vec![0xAAu8; 4096];
    let entry = complete_load(&plan, Some(&mut memory[..]));
    assert_eq!(entry, Ok(0x100000));
    assert_eq!(&memory[0..8], &[1, 2, 3, 4, 0, 0, 0, 0]);
    assert!(memory[8..].iter().all(|b| *b == 0xAA));
}

#[test]
fn range_is_lowest_start_and_highest_end() {
    let bytes = vec![0u8; 64];
    let image = image_of(
        0x2000,
        vec![
            loadable(0, 16, 0x3000, 0x100),
            ProgramHeader { kind: PT_NOTE, offset: 0, vaddr: 0x10, file_size: 4, mem_size: 0x9000 },
            loadable(16, 16, 0x1000, 0x20),
            loadable(32, 8, 0x2000, 0x1800),
        ],
    );
    let plan = plan_load(&image, &bytes).unwrap();
    assert_eq!(plan.range(), LoadRange { low: 0x1000, high: 0x3800 });
    assert_eq!(plan.page_count(), 3);
    assert_eq!(plan.segment_count(), 3);
    assert_eq!(
        plan.segment(0),
        Some(ProgramSegment { offset: 0, file_size: 16, vaddr: 0x3000, mem_size: 0x100 })
    );
    assert_eq!(
        plan.segment(1),
        Some(ProgramSegment { offset: 16, file_size: 16, vaddr: 0x1000, mem_size: 0x20 })
    );
    assert_eq!(
        plan.segment(2),
        Some(ProgramSegment { offset: 32, file_size: 8, vaddr: 0x2000, mem_size: 0x1800 })
    );
    assert_eq!(plan.segment(3), None);
    assert_eq!(plan.entry(), 0x2000);
}

#[test]
fn image_without_loadable_segment_is_rejected() {
    let bytes = vec![0u8; 64];
    let none = image_of(0x1000, vec![]);
    assert_eq!(plan_load(&none, &bytes).err(), Some(BootError::ImageFormat));
    let only_notes = image_of(
        0x1000,
        vec![ProgramHeader { kind: PT_NOTE, offset: 0, vaddr: 0x1000, file_size: 4, mem_size: 4 }],
    );
    assert_eq!(plan_load(&only_notes, &bytes).err(), Some(BootError::ImageFormat));
}

#[test]
fn image_for_another_machine_is_rejected() {
    let bytes = vec![0u8; 64];
    let headers = vec![loadable(0, 4, 0x1000, 4)];
    let arm = ElfImage { entry: 0x1000, wide: true, machine: 183, headers: headers.clone() };
    assert_eq!(plan_load(&arm, &bytes).err(), Some(BootError::ImageFormat));
    let narrow = ElfImage { entry: 0x1000, wide: false, machine: EM_X86_64, headers: headers.clone() };
    assert_eq!(plan_load(&narrow, &bytes).err(), Some(BootError::ImageFormat));
    let good = ElfImage { entry: 0x1000, wide: true, machine: EM_X86_64, headers };
    assert!(plan_load(&good, &bytes).is_ok());
}

#[test]
fn segment_that_does_not_fit_is_rejected() {
    let bytes = vec![0u8; 16];
    let larger_on_disk = image_of(0, vec![loadable(0, 8, 0x1000, 4)]);
    assert_eq!(plan_load(&larger_on_disk, &bytes).err(), Some(BootError::ImageFormat));
    let past_the_image = image_of(0, vec![loadable(12, 8, 0x1000, 8)]);
    assert_eq!(plan_load(&past_the_image, &bytes).err(), Some(BootError::ImageFormat));
    let offset_wraps = image_of(0, vec![loadable(u64::MAX, 8, 0x1000, 8)]);
    assert_eq!(plan_load(&offset_wraps, &bytes).err(), Some(BootError::ImageFormat));
    let end_wraps = image_of(0, vec![loadable(0, 8, u64::MAX - 4, 8)]);
    assert_eq!(plan_load(&end_wraps, &bytes).err(), Some(BootError::ImageFormat));
    let bad_after_good = image_of(0, vec![loadable(0, 8, 0x1000, 8), loadable(0, 17, 0x2000, 32)]);
    assert_eq!(plan_load(&bad_after_good, &bytes).err(), Some(BootError::ImageFormat));
    let exactly_fits = image_of(0, vec![loadable(8, 8, u64::MAX - 8, 8)]);
    let plan = plan_load(&exactly_fits, &bytes).unwrap();
    assert_eq!(plan.range(), LoadRange { low: u64::MAX - 8, high: u64::MAX });
}

#[test]
fn page_count_rounds_up() {
    assert_eq!(LoadRange { low: 0x1000, high: 0x1000 }.page_count(), 0);
    assert_eq!(LoadRange { low: 0x1000, high: 0x1001 }.page_count(), 1);
    assert_eq!(LoadRange { low: 0x1000, high: 0x2000 }.page_count(), 1);
    assert_eq!(LoadRange { low: 0x1000, high: 0x2001 }.page_count(), 2);
    assert_eq!(LoadRange { low: 0, high: u64::MAX }.page_count(), 0x10_0000_0000_0000);
}

#[test]
fn refused_or_short_region_is_an_allocation_error() {
    let bytes: Vec<u8> = vec![9, 8, 7, 6];
    let image = image_of(0x5000, vec![loadable(0, 4, 0x5000, 16)]);
    let plan = plan_load(&image, &bytes).unwrap();
    assert_eq!(complete_load(&plan, None), Err(BootError::Allocation));
    let mut short = vec![0x55u8; 15];
    assert_eq!(complete_load(&plan, Some(&mut short[..])), Err(BootError::Allocation));
    assert_eq!(short, vec![0x55u8; 15]);
    assert_eq!(plan.place(&mut short[..]), Err(BootError::Allocation));
    let mut exact = vec![0x55u8; 16];
    assert_eq!(plan.place(&mut exact[..]), Ok(0x5000));
    assert_eq!(exact, vec![9, 8, 7, 6, 0, 0, 0, 0, 0, 0, 0, 0, 0, 0, 0, 0]);
}

#[test]
fn segments_land_at_their_distance_from_the_lowest() {
    let bytes: Vec<u8> = vec![1, 2, 3, 4, 5, 6, 7, 8];
    let image = image_of(0x1010, vec![loadable(4, 4, 0x1010, 6), loadable(0, 2, 0x1000, 4)]);
    let plan = plan_load(&image, &bytes).unwrap();
    assert_eq!(plan.range(), LoadRange { low: 0x1000, high: 0x1016 });
    let mut memory = vec![0xEEu8; 0x20];
    assert_eq!(plan.place(&mut memory[..]), Ok(0x1010));
    assert_eq!(&memory[0..4], &[1, 2, 0, 0]);
    assert!(memory[4..0x10].iter().all(|b| *b == 0xEE));
    assert_eq!(&memory[0x10..0x16], &[5, 6, 7, 8, 0, 0]);
    assert!(memory[0x16..].iter().all(|b| *b == 0xEE));
}

#[test]
fn later_segment_wins_where_two_overlap() {
    let bytes: Vec<u8> = vec![1, 2, 3, 4, 5, 6, 7, 8];
    let image = image_of(0, vec![loadable(0, 4, 0x1000, 4), loadable(4, 2, 0x1002, 4)]);
    let plan = plan_load(&image, &bytes).unwrap();
    let mut memory = vec![0xEEu8; 8];
    assert_eq!(plan.place(&mut memory[..]), Ok(0));
    assert_eq!(memory, vec![1, 2, 5, 6, 0, 0, 0xEE, 0xEE]);
}

#[test]
fn load_segment_leaves_the_rest_alone() {
    let image: Vec<u8> = vec![10, 11, 12, 13, 14];
    let segment = ProgramSegment { offset: 1, file_size: 3, vaddr: 0x102, mem_size: 5 };
    let mut memory = vec![0x77u8; 10];
    load_segment(&mut memory[..], 0x100, &image, &segment);
    assert_eq!(memory, vec![0x77, 0x77, 11, 12, 13, 0, 0, 0x77, 0x77, 0x77]);
}

#[test]
fn empty_segment_changes_nothing() {
    let image: Vec<u8> = vec![1, 2, 3];
    let segment = ProgramSegment { offset: 3, file_size: 0, vaddr: 0x100, mem_size: 0 };
    let mut memory = vec![0x77u8; 4];
    load_segment(&mut memory[..], 0x100, &image, &segment);
    assert_eq!(memory, vec![0x77u8; 4]);
}

#[test]
fn parsed_file_is_planned() {
    let payload: Vec<u8> = vec![0xC3, 0x90, 0x90, 0x90];
    let headers = vec![
        ProgramHeader { kind: PT_NOTE, offset: 0, vaddr: 0, file_size: 0, mem_size: 0 },
        loadable(64 + 2 * 56, 4, 0x20_0000, 0x10),
    ];
    let file = elf_file(EM_X86_64, 0x20_0000, &headers, &payload);
    let plan = plan_image(&file).unwrap();
    assert_eq!(plan.entry(), 0x20_0000);
    assert_eq!(plan.segment_count(), 1);
    assert_eq!(
        plan.segment(0),
        Some(ProgramSegment { offset: 176, file_size: 4, vaddr: 0x20_0000, mem_size: 0x10 })
    );
    assert_eq!(plan.range(), LoadRange { low: 0x20_0000, high: 0x20_0010 });
    let mut memory = vec![0xFFu8; 4096];
    assert_eq!(plan.place(&mut memory[..]), Ok(0x20_0000));
    assert_eq!(&memory[0..16], &[0xC3, 0x90, 0x90, 0x90, 0, 0, 0, 0, 0, 0, 0, 0, 0, 0, 0, 0]);
    assert_eq!(memory[16], 0xFF);
}

#[test]
fn bytes_that_are_no_image_are_rejected() {
    assert_eq!(plan_image(&[]).err(), Some(BootError::ImageFormat));
    assert_eq!(plan_image(b"not an executable at all, just text").err(), Some(BootError::ImageFormat));
    let mut bad_magic = elf_file(EM_X86_64, 0x1000, &[loadable(0, 4, 0x1000, 4)], &[]);
    bad_magic[1] = b'X';
    assert_eq!(plan_image(&bad_magic).err(), Some(BootError::ImageFormat));
}

#[test]
fn parsed_file_for_another_machine_is_rejected() {
    let headers = vec![loadable(0, 4, 0x1000, 4)];
    let riscv = elf_file(243, 0x1000, &headers, &[]);
    assert_eq!(plan_image(&riscv).err(), Some(BootError::ImageFormat));
    let same_for_x86 = elf_file(EM_X86_64, 0x1000, &headers, &[]);
    assert!(plan_image(&same_for_x86).is_ok());
}

#[test]
fn parsed_file_without_loadable_segment_is_rejected() {
    let headers = vec![ProgramHeader { kind: PT_NOTE, offset: 0, vaddr: 0, file_size: 0, mem_size: 0 }];
    let file = elf_file(EM_X86_64, 0x1000, &headers, &[]);
    assert_eq!(plan_image(&file).err(), Some(BootError::ImageFormat));
    let no_headers = elf_file(EM_X86_64, 0x1000, &[], &[]);
    assert_eq!(plan_image(&no_headers).err(), Some(BootError::ImageFormat));
}

#[test]
fn error_messages_differ() {
    let all = [
        BootError::ImageFormat,
        BootError::Allocation,
        BootError::PlatformTableNotFound,
        BootError::PlatformTableInvalid,
        BootError::UnsupportedPixelFormat,
    ];
    for (i, a) in all.iter().enumerate() {
        for (j, b) in all.iter().enumerate() {
            assert_eq!(a.message() == b.message(), i == j);
        }
    }
    assert_eq!(BootError::Allocation.message(), "physical range unavailable");
}

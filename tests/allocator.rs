use ma_proper::{erase_slice, Failure, MAProper, Metadata, Region};

#[test]
fn zero_size_gives_null() {
    for align in [1usize, 4, 16, 64, 3] {
        let mut region = MAProper.reserve(0, align).unwrap();
        assert!(region.is_null());
        assert_eq!(region.offset, 0);
        assert_eq!(MAProper.release(&mut region, 0, align), Ok(0));
        assert!(region.is_null());
    }
}

#[test]
fn null_release_changes_nothing() {
    let mut region = Region::null();
    assert_eq!(MAProper.release(&mut region, 0, 8), Ok(0));
    assert!(region.memory.is_empty());
    assert_eq!(region.offset, 0);
}

#[test]
fn reserve_nine_bytes_aligned_to_one() {
    let mut region = MAProper.reserve(9, 1).unwrap();
    assert_eq!(region.offset, 16);
    assert_eq!(region.memory.len(), 25);
    assert_eq!(
        &region.memory[..16],
        b"\x19\x00\x00\x00\x00\x00\x00\x00\x39\x0B\x0C\xAA\x90\x7B\xB6\x5D"
    );
    region.memory[16..].copy_from_slice(b"secret!!!");
    assert_eq!(MAProper.release(&mut region, 9, 1), Ok(25));
    assert_eq!(region.memory, vec![0u8; 25]);
}

#[test]
fn reserve_large_aligned_to_sixty_four() {
    let mut region = MAProper.reserve(67_108_864, 64).unwrap();
    assert_eq!(region.offset, 64);
    assert_eq!(region.memory.len(), 67_108_928);
    region.memory[64] = 0x55;
    region.memory[67_108_927] = 0x77;
    assert_eq!(MAProper.release(&mut region, 67_108_864, 64), Ok(67_108_928));
    assert_eq!(region.memory.len(), 67_108_928);
    assert!(region.memory.iter().all(|b| *b == 0));
}

#[test]
fn payload_offset_keeps_alignment() {
    for align in [1usize, 4, 16, 64] {
        let region = MAProper.reserve(5, align).unwrap();
        assert_eq!(region.offset % align, 0);
        assert_eq!(region.offset, if align < 16 { 16 } else { align });
    }
}

#[test]
fn release_erases_payload_and_metadata() {
    let mut region = MAProper.reserve(40, 32).unwrap();
    for i in 32..72 {
        region.memory[i] = 0xEE;
    }
    assert_eq!(MAProper.release(&mut region, 40, 32), Ok(72));
    assert_eq!(region.memory, vec![0u8; 72]);
}

#[test]
fn reserve_rejects_bad_alignment() {
    assert!(matches!(MAProper.reserve(8, 3), Err(Failure::InvalidLayout)));
    assert!(matches!(MAProper.reserve(8, 0), Err(Failure::InvalidLayout)));
}

#[test]
fn reserve_runs_out_of_memory_on_overflow() {
    assert!(matches!(MAProper.reserve(usize::MAX, 1), Err(Failure::OutOfMemory)));
    assert!(matches!(MAProper.reserve(usize::MAX - 15, 1), Err(Failure::OutOfMemory)));
    assert!(matches!(MAProper.reserve(isize::MAX as usize, 1), Err(Failure::OutOfMemory)));
    assert!(matches!(MAProper.reserve(isize::MAX as usize - 16, 8), Err(Failure::OutOfMemory)));
}

#[test]
fn release_rejects_bad_alignment() {
    let mut region = MAProper.reserve(8, 8).unwrap();
    assert_eq!(MAProper.release(&mut region, 8, 6), Err(Failure::InvalidLayout));
    assert_eq!(MAProper.release(&mut region, 8, 8), Ok(24));
}

#[test]
fn release_with_larger_alignment_finds_no_metadata() {
    let mut region = MAProper.reserve(8, 8).unwrap();
    assert_eq!(MAProper.release(&mut region, 8, 64), Err(Failure::InvalidMetadata));
    assert_eq!(region.memory[0], 24);
}

#[test]
fn double_release_is_caught() {
    let mut region = MAProper.reserve(100, 16).unwrap();
    assert_eq!(MAProper.release(&mut region, 100, 16), Ok(116));
    assert_eq!(MAProper.release(&mut region, 100, 16), Err(Failure::InvalidMetadata));
}

#[test]
fn corrupted_length_is_caught() {
    let mut region = MAProper.reserve(10, 1).unwrap();
    region.memory[0] ^= 1;
    assert_eq!(MAProper.release(&mut region, 10, 1), Err(Failure::InvalidMetadata));
    assert_eq!(region.memory[16], 0);
    assert_eq!(region.memory[0], 26 ^ 1);
}

#[test]
fn erase_slice_zeroes_everything() {
    let mut data = *b"password";
    erase_slice(&mut data);
    assert_eq!(data, [0u8; 8]);
    let mut empty: [u8; 0] = [];
    erase_slice(&mut empty);
}

#[test]
fn reserved_metadata_decodes_to_true_length() {
    for align in [1usize, 2, 8, 16, 32, 128] {
        for size in [1usize, 7, 16, 1000] {
            let region = MAProper.reserve(size, align).unwrap();
            let meta_len = if align < 16 { 16 } else { align };
            let base = region.offset - meta_len;
            assert_eq!(Metadata::read(&region.memory[base..]), Some(meta_len + size));
        }
    }
}

#[test]
fn release_after_reserve_succeeds() {
    for align in [1usize, 4, 16, 64, 256] {
        for size in [0usize, 1, 15, 16, 17, 4096] {
            let mut region = MAProper.reserve(size, align).unwrap();
            let len = region.memory.len();
            assert_eq!(MAProper.release(&mut region, size, align), Ok(len));
            assert!(region.memory.iter().all(|b| *b == 0));
        }
    }
}

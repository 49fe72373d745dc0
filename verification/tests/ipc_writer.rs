use vortex_core::ipc_writer::{MessageWriter, ALIGNMENT};

#[test]
fn new_writer_starts_at_zero() {
    let w = MessageWriter::new(Vec::<u8>::new());
    assert_eq!(w.tell(), 0);
    assert_eq!(ALIGNMENT, 64);
    let inner = w.into_inner();
    assert!(inner.is_empty());
}

#[test]
fn record_written_advances_position() {
    let mut w = MessageWriter::new(());
    w.record_written(4);
    w.record_written(60);
    assert_eq!(w.tell(), 64);
}

#[test]
fn short_message_is_padded_to_one_unit() {
    let w = MessageWriter::new(());
    let layout = w.message_layout(10);
    // 4 + 10 = 14 bytes round up to 64: the length word says 60, then 50 zero bytes.
    assert_eq!(layout.length_prefix, vec![60u8, 0, 0, 0]);
    assert_eq!(layout.padding, 50);
}

#[test]
fn exactly_aligned_message_needs_no_padding() {
    let w = MessageWriter::new(());
    let layout = w.message_layout(60);
    assert_eq!(layout.length_prefix, vec![60u8, 0, 0, 0]);
    assert_eq!(layout.padding, 0);
}

#[test]
fn message_one_past_a_unit_takes_two() {
    let w = MessageWriter::new(());
    let layout = w.message_layout(61);
    assert_eq!(layout.length_prefix, vec![124u8, 0, 0, 0]);
    assert_eq!(layout.padding, 63);
}

#[test]
fn large_message_length_word_is_little_endian() {
    let w = MessageWriter::new(());
    let layout = w.message_layout(1000);
    // 1004 rounds up to 1024; the word is 1020 = 0x03FC.
    assert_eq!(layout.length_prefix, vec![0xFCu8, 0x03, 0, 0]);
    assert_eq!(layout.padding, 20);
}

#[test]
fn framing_needs_an_aligned_stream() {
    let mut w = MessageWriter::new(());
    assert!(w.can_frame_message(10));
    w.record_written(1);
    assert!(!w.can_frame_message(10));
    w.record_written(63);
    assert!(w.can_frame_message(10));
    assert!(!w.can_frame_message(usize::MAX));
}

#[test]
fn stream_stays_aligned_after_a_message() {
    let mut w = MessageWriter::new(());
    for body_len in [0usize, 1, 59, 60, 61, 200] {
        let layout = w.message_layout(body_len);
        w.record_written(layout.length_prefix.len());
        w.record_written(body_len);
        w.record_written(layout.padding);
        assert_eq!(w.tell() % 64, 0);
    }
}

#[test]
fn trailing_padding_rounds_up() {
    let w = MessageWriter::new(());
    assert_eq!(w.trailing_padding(0), 0);
    assert_eq!(w.trailing_padding(1), 63);
    assert_eq!(w.trailing_padding(64), 0);
    assert_eq!(w.trailing_padding(65), 63);
    assert_eq!(w.trailing_padding(100), 28);
}

#[test]
fn batch_paddings_fill_up_to_offsets() {
    let w = MessageWriter::new(());
    let lens = vec![3usize, 10, 64];
    let offsets = vec![0u64, 64, 128, 192];
    assert!(w.batch_layout_valid(&lens, &offsets));
    assert_eq!(w.buffer_paddings(&lens, &offsets), vec![61, 54, 0]);
}

#[test]
fn batch_paddings_ignore_first_offset() {
    let w = MessageWriter::new(());
    let lens = vec![5usize];
    let offsets = vec![40u64, 8];
    assert!(w.batch_layout_valid(&lens, &offsets));
    assert_eq!(w.buffer_paddings(&lens, &offsets), vec![3]);
}

#[test]
fn invalid_batch_layouts_are_detected() {
    let w = MessageWriter::new(());
    // One offset too few.
    assert!(!w.batch_layout_valid(&vec![3usize, 4], &vec![0u64, 64]));
    // A buffer that runs past its end offset.
    assert!(!w.batch_layout_valid(&vec![100usize], &vec![0u64, 64]));
    // A gap wider than the zero block.
    assert!(!w.batch_layout_valid(&vec![1usize], &vec![0u64, 1000]));
    // An end offset before the previous one.
    assert!(!w.batch_layout_valid(&vec![1usize, 1], &vec![0u64, 64, 32]));
    // No offsets at all.
    assert!(!w.batch_layout_valid(&vec![], &vec![]));
    assert!(w.batch_layout_valid(&vec![], &vec![0u64]));
}

#[test]
fn scratch_is_reset_with_room_for_the_length_word() {
    let mut w = MessageWriter::new(());
    let mut buf = w.take_scratch();
    assert_eq!(buf, vec![0u8, 0, 0, 0]);
    buf.extend_from_slice(&[1, 2, 3]);
    w.restore_scratch(buf);
    let again = w.take_scratch();
    assert_eq!(again, vec![0u8, 0, 0, 0]);
    // Taken twice without restoring: a fresh buffer is used.
    let fresh = w.take_scratch();
    assert_eq!(fresh, vec![0u8, 0, 0, 0]);
}

#[test]
fn get_mut_reaches_the_writer() {
    let mut w = MessageWriter::new(Vec::<u8>::new());
    w.get_mut().push(7);
    w.record_written(1);
    assert_eq!(w.tell(), 1);
    assert_eq!(w.into_inner(), vec![7u8]);
}

#[test]
fn in_memory_message_is_framed() {
    let mut w = MessageWriter::new(vec![9u8; 64]);
    w.record_written(0);
    let body = [1u8, 2, 3];
    w.write_message(&body);
    assert_eq!(w.tell(), 64);
    let out = w.written().clone();
    assert_eq!(out.len(), 128);
    assert_eq!(&out[..64], &[9u8; 64][..]);
    assert_eq!(&out[64..68], &[60u8, 0, 0, 0][..]);
    assert_eq!(&out[68..71], &[1u8, 2, 3][..]);
    assert!(out[71..].iter().all(|b| *b == 0));
}

#[test]
fn in_memory_page_and_schema() {
    let mut w = MessageWriter::new(Vec::new());
    w.write_dtype_raw(&[5u8; 10]);
    assert_eq!(w.tell(), 64);
    w.write_page(&[1u8; 60], &[2u8; 70]);
    assert_eq!(w.tell(), 64 + 64 + 128);
    let out = w.into_inner();
    assert_eq!(out.len(), 256);
    assert_eq!(&out[..10], &[5u8; 10][..]);
    assert_eq!(&out[64..68], &[60u8, 0, 0, 0][..]);
    assert_eq!(&out[128..198], &[2u8; 70][..]);
    assert!(out[198..].iter().all(|b| *b == 0));
}

#[test]
fn in_memory_batch_buffers_end_at_offsets() {
    let mut w = MessageWriter::new(Vec::new());
    let buffers = vec![vec![1u8; 3], vec![2u8; 10]];
    let offsets = vec![0u64, 64, 128];
    w.write_batch(&[7u8; 4], &buffers, &offsets);
    assert_eq!(w.tell(), 64 + 128);
    let out = w.into_inner();
    assert_eq!(out.len(), 192);
    assert_eq!(&out[64..67], &[1u8; 3][..]);
    assert!(out[67..128].iter().all(|b| *b == 0));
    assert_eq!(&out[128..138], &[2u8; 10][..]);
    assert!(out[138..].iter().all(|b| *b == 0));
}

#[test]
fn in_memory_write_all_counts_bytes() {
    let mut w = MessageWriter::new(vec![1u8]);
    w.write_all(&[2u8, 3]);
    w.write_all(&[]);
    assert_eq!(w.tell(), 2);
    assert_eq!(w.into_inner(), vec![1u8, 2, 3]);
}

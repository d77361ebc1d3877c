use buddhabrot::histogram::Histogram;
use buddhabrot::snapshot::{color_kind, encode_snapshot, snapshot_label, ColorKind, Snapshot};

fn decode(stream: &[u8]) -> (u32, u32, png::ColorType, png::BitDepth, Vec<u8>) {
    let decoder = png::Decoder::new(std::io::Cursor::new(stream.to_vec()));
    let mut reader = decoder.read_info().unwrap();
    let mut pixels = vec![0u8; reader.output_buffer_size().unwrap()];
    let frame = reader.next_frame(&mut pixels).unwrap();
    pixels.truncate(frame.buffer_size());
    (frame.width, frame.height, frame.color_type, frame.bit_depth, pixels)
}

#[test]
fn sequence_labels_are_padded_with_zeros_to_four_characters() {
    assert_eq!(snapshot_label(Snapshot::Sequence(0)), "0000");
    assert_eq!(snapshot_label(Snapshot::Sequence(7)), "0007");
    assert_eq!(snapshot_label(Snapshot::Sequence(15)), "0015");
    assert_eq!(snapshot_label(Snapshot::Sequence(16)), "0016");
    assert_eq!(snapshot_label(Snapshot::Sequence(100)), "0100");
    assert_eq!(snapshot_label(Snapshot::Sequence(999)), "0999");
    assert_eq!(snapshot_label(Snapshot::Sequence(1000)), "1000");
    assert_eq!(snapshot_label(Snapshot::Sequence(9999)), "9999");
}

#[test]
fn a_long_sequence_index_is_not_cut() {
    assert_eq!(snapshot_label(Snapshot::Sequence(10000)), "10000");
    assert_eq!(snapshot_label(Snapshot::Sequence(123456)), "123456");
    assert_eq!(snapshot_label(Snapshot::Sequence(i32::MAX)), "2147483647");
}

#[test]
fn a_negative_sequence_index_keeps_its_sign_behind_the_padding() {
    assert_eq!(snapshot_label(Snapshot::Sequence(-1)), "00-1");
    assert_eq!(snapshot_label(Snapshot::Sequence(-12)), "0-12");
    assert_eq!(snapshot_label(Snapshot::Sequence(-123)), "-123");
    assert_eq!(snapshot_label(Snapshot::Sequence(-1234)), "-1234");
    assert_eq!(snapshot_label(Snapshot::Sequence(i32::MIN)), "-2147483648");
}

#[test]
fn the_final_label_is_fin() {
    assert_eq!(snapshot_label(Snapshot::Final), "fin");
    for index in 0..100 {
        assert_ne!(snapshot_label(Snapshot::Sequence(index)), "fin");
    }
}

#[test]
fn sequence_labels_differ_from_one_another() {
    let labels: Vec<String> = (0..40).map(|i| snapshot_label(Snapshot::Sequence(i))).collect();
    for i in 0..labels.len() {
        for j in 0..i {
            assert_ne!(labels[i], labels[j]);
        }
    }
}

#[test]
fn one_channel_is_grey_and_three_are_rgb() {
    assert_eq!(color_kind(1), Some(ColorKind::Grayscale));
    assert_eq!(color_kind(3), Some(ColorKind::Rgb));
    assert_eq!(color_kind(0), None);
    assert_eq!(color_kind(2), None);
    assert_eq!(color_kind(4), None);
}

#[test]
fn a_snapshot_is_a_png_stream() {
    let h = Histogram::new(3, 2, 1).unwrap();
    let stream = encode_snapshot(&h).unwrap();
    assert_eq!(&stream[..8], &[137, 80, 78, 71, 13, 10, 26, 10]);
    assert_ne!(&stream, h.counters());
    // the header chunk: length 13, "IHDR", width, height, depth, colour type
    assert_eq!(&stream[8..16], &[0, 0, 0, 13, b'I', b'H', b'D', b'R']);
    assert_eq!(&stream[16..24], &[0, 0, 0, 3, 0, 0, 0, 2]);
    assert_eq!(stream[24], 8);
    assert_eq!(stream[25], 0);
    assert_eq!(&stream[stream.len() - 8..stream.len() - 4], b"IEND");
}

#[test]
fn a_grey_snapshot_decodes_to_the_counters() {
    let mut h = Histogram::new(5, 4, 1).unwrap();
    for i in 0..20 {
        h.raise(i % 5, i / 5, 0, (i * 11) as u8);
    }
    let stream = encode_snapshot(&h).unwrap();
    let (width, height, color, depth, pixels) = decode(&stream);
    assert_eq!((width, height), (5, 4));
    assert_eq!(color, png::ColorType::Grayscale);
    assert_eq!(depth, png::BitDepth::Eight);
    assert_eq!(&pixels, h.counters());
}

#[test]
fn an_rgb_snapshot_decodes_to_the_counters() {
    let mut h = Histogram::new(4, 3, 3).unwrap();
    for i in 0..12 {
        for channel in 0..3 {
            h.raise(i % 4, i / 4, channel, (i * 20 + channel as i32) as u8);
        }
    }
    let stream = encode_snapshot(&h).unwrap();
    let (width, height, color, depth, pixels) = decode(&stream);
    assert_eq!((width, height), (4, 3));
    assert_eq!(color, png::ColorType::Rgb);
    assert_eq!(depth, png::BitDepth::Eight);
    assert_eq!(&pixels, h.counters());
    assert_eq!(h.counters()[(2 * 4 + 1) * 3 + 2], 9 * 20 + 2);
}

#[test]
fn equal_histograms_give_equal_streams() {
    let mut a = Histogram::new(6, 6, 3).unwrap();
    let mut b = Histogram::new(6, 6, 3).unwrap();
    a.raise(2, 3, 1, 40);
    b.raise(2, 3, 1, 40);
    assert_eq!(encode_snapshot(&a).unwrap(), encode_snapshot(&b).unwrap());
    b.raise(2, 3, 1, 1);
    assert_ne!(encode_snapshot(&a).unwrap(), encode_snapshot(&b).unwrap());
}

#[test]
fn every_histogram_is_encoded() {
    for &(width, height) in &[(2, 2), (2, 9), (9, 2), (17, 31), (300, 200)] {
        for &channels in &[1usize, 3] {
            let mut h = Histogram::new(width, height, channels).unwrap();
            h.raise(width - 1, height - 1, channels - 1, 255);
            h.raise(0, 0, 0, 1);
            let stream = encode_snapshot(&h);
            assert!(stream.is_ok());
            let (w, hh, _, _, pixels) = decode(&stream.unwrap());
            assert_eq!((w, hh), (width as u32, height as u32));
            assert_eq!(&pixels, h.counters());
        }
    }
}

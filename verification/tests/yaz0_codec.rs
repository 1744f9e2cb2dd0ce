use wildbits::error::ErrorKind;
use wildbits::yaz0::{check_stream, compress, decompress, decompress_if, is_yaz0};

fn sample() -> Vec<u8> {
    let mut v = Vec::new();
    for i in 0..2000u32 {
        v.push((i % 7) as u8);
        v.push((i / 3 % 251) as u8);
    }
    v
}

#[test]
fn compress_then_decompress_gives_the_data_back() {
    let data = sample();
    let packed = compress(&data).unwrap();
    assert!(is_yaz0(&packed));
    assert_ne!(packed, data);
    assert_eq!(&packed[4..8], &(data.len() as u32).to_be_bytes());
    assert!(check_stream(&packed));
    assert_eq!(decompress(&packed).unwrap(), data);
}

#[test]
fn empty_data_compresses_to_a_bare_header() {
    let packed = compress(&[]).unwrap();
    assert_eq!(packed.len(), 16);
    assert_eq!(decompress(&packed).unwrap(), Vec::<u8>::new());
}

#[test]
fn literal_stream_is_decoded() {
    // header for 3 bytes, one group byte with three literal bits, three literals
    let stream = [b'Y', b'a', b'z', b'0', 0, 0, 0, 3, 0, 0, 0, 0, 0, 0, 0, 0, 0xE0, 12, 34, 56];
    assert!(check_stream(&stream));
    assert_eq!(decompress(&stream).unwrap(), vec![12, 34, 56]);
}

#[test]
fn run_stream_is_decoded() {
    // one literal 7, then a run of 3 bytes from distance 1: 0x10 0x00
    let stream = [b'Y', b'a', b'z', b'0', 0, 0, 0, 4, 0, 0, 0, 0, 0, 0, 0, 0, 0x80, 7, 0x10, 0x00];
    assert!(check_stream(&stream));
    assert_eq!(decompress(&stream).unwrap(), vec![7, 7, 7, 7]);
}

#[test]
fn truncated_stream_is_refused() {
    let data = sample();
    let mut packed = compress(&data).unwrap();
    packed.truncate(packed.len() - 5);
    assert!(!check_stream(&packed));
    assert_eq!(decompress(&packed), Err(ErrorKind::Compression));
}

#[test]
fn run_before_the_start_is_refused() {
    // a run as the very first operation reaches back before the output
    let stream = [b'Y', b'a', b'z', b'0', 0, 0, 0, 4, 0, 0, 0, 0, 0, 0, 0, 0, 0x00, 0x10, 0x00];
    assert!(!check_stream(&stream));
    assert_eq!(decompress(&stream), Err(ErrorKind::Compression));
}

#[test]
fn run_past_the_announced_size_is_refused() {
    // one literal, then a run of 3 although only 2 bytes are announced
    let stream = [b'Y', b'a', b'z', b'0', 0, 0, 0, 2, 0, 0, 0, 0, 0, 0, 0, 0, 0x80, 7, 0x10, 0x00];
    assert!(!check_stream(&stream));
    assert_eq!(decompress(&stream), Err(ErrorKind::Compression));
}

#[test]
fn short_buffers_are_refused() {
    assert!(!check_stream(b"Yaz0"));
    assert!(!check_stream(b""));
    assert_eq!(decompress(b"Yaz0"), Err(ErrorKind::Compression));
    assert_eq!(decompress(b"not compressed at all"), Err(ErrorKind::Compression));
}

#[test]
fn decompress_if_leaves_other_content_alone() {
    let plain = b"SARC and more".to_vec();
    assert_eq!(decompress_if(&plain).unwrap(), plain);
    assert_eq!(decompress_if(&[]).unwrap(), Vec::<u8>::new());
    let data = sample();
    let packed = compress(&data).unwrap();
    assert_eq!(decompress_if(&packed).unwrap(), data);
    assert_eq!(decompress_if(b"Yaz0"), Err(ErrorKind::Compression));
}

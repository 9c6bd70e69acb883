use pixel_canvas::broadcast::chunk_payload;
use pixel_canvas::rle::{rle_compress, rle_decompress};
use pixel_canvas::settings::BROADCAST_CHUNK_SIZE;
use pixel_canvas::transport::{encode_pixel_datagram, parse_pixel_datagram, PixelDatagram};
use pixel_canvas::wire::compute_diff;

#[test]
fn test_rle_round_trip_small() {
    let src = [7u8, 7, 7, 3, 3];
    let mut dst = vec![0u8; 10];
    let n = rle_compress(&src, &mut dst);
    assert_eq!(n, 4);
    assert_eq!(&dst[..4], &[3, 7, 2, 3]);

    let mut out = vec![0u8; 5];
    let m = rle_decompress(&dst[..4], &mut out);
    assert_eq!(m, 5);
    assert_eq!(&out[..], &src[..]);
}

#[test]
fn test_rle_long_run_splits_at_cap() {
    let src = vec![42u8; 300];
    let mut dst = vec![0u8; 600];
    let n = rle_compress(&src, &mut dst);
    assert_eq!(n, 4);
    assert_eq!(&dst[..4], &[255, 42, 45, 42]);

    let mut out = vec![0u8; 300];
    let m = rle_decompress(&dst[..4], &mut out);
    assert_eq!(m, 300);
    assert!(out.iter().all(|&b| b == 42));
}

#[test]
fn test_rle_empty_input() {
    let src: [u8; 0] = [];
    let mut dst = vec![0u8; 4];
    assert_eq!(rle_compress(&src, &mut dst), 0);
    let mut out = vec![0u8; 4];
    assert_eq!(rle_decompress(&[], &mut out), 0);
}

#[test]
fn test_rle_decoder_respects_capacity() {
    // (4, 9)(2, 1) decodes to six bytes, but only four fit.
    let encoded = [4u8, 9, 2, 1];
    let mut out = vec![0u8; 4];
    let m = rle_decompress(&encoded, &mut out);
    assert_eq!(m, 4);
    assert_eq!(&out[..], &[9, 9, 9, 9]);
}

#[test]
fn test_rle_decoder_ignores_trailing_byte() {
    // A trailing odd byte is not a pair and is ignored.
    let encoded = [2u8, 5, 77];
    let mut out = vec![0u8; 8];
    let m = rle_decompress(&encoded, &mut out);
    assert_eq!(m, 2);
    assert_eq!(&out[..2], &[5, 5]);
}

#[test]
fn test_compute_diff_records() {
    let mut last = vec![0u8, 0, 0, 0];
    let new = [0u8, 9, 0, 7];
    let d = compute_diff(&mut last, &new);
    assert_eq!(d, vec![1, 0, 0, 0, 9, 3, 0, 0, 0, 7]);
    assert_eq!(&last[..], &new[..]);
}

#[test]
fn test_compute_diff_no_change() {
    let mut last = vec![5u8, 6, 7];
    let new = [5u8, 6, 7];
    let d = compute_diff(&mut last, &new);
    assert!(d.is_empty());
}

#[test]
fn test_chunk_payload_sizes_and_concat() {
    let data: Vec<u8> = (0..2500u32).map(|i| (i % 251) as u8).collect();
    let chunks = chunk_payload(&data);
    assert_eq!(chunks.len(), 3);
    assert_eq!(chunks[0].len(), BROADCAST_CHUNK_SIZE);
    assert_eq!(chunks[1].len(), BROADCAST_CHUNK_SIZE);
    assert_eq!(chunks[2].len(), 100);
    let joined: Vec<u8> = chunks.concat();
    assert_eq!(joined, data);
}

#[test]
fn test_chunk_payload_empty() {
    let chunks = chunk_payload(&[]);
    assert!(chunks.is_empty());
}

#[test]
fn test_parse_pixel_datagram_exact_length() {
    let payload = [100u8, 0, 200, 0, 255];
    let p = parse_pixel_datagram(&payload).unwrap();
    assert_eq!(p.x, 100);
    assert_eq!(p.y, 200);
    assert_eq!(p.color, 255);

    assert!(parse_pixel_datagram(&payload[..4]).is_none());
    assert!(parse_pixel_datagram(&[1, 2, 3, 4, 5, 6]).is_none());
}

#[test]
fn test_pixel_datagram_round_trip() {
    let p = PixelDatagram { x: 999, y: 777, color: 13 };
    let bytes = encode_pixel_datagram(&p);
    assert_eq!(bytes.len(), 5);
    let q = parse_pixel_datagram(&bytes).unwrap();
    assert_eq!(q, p);
}

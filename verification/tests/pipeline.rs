use pixel_canvas::canvas::{BufferPool, Canvas};
use pixel_canvas::cooldown::CooldownArray;
use pixel_canvas::master::{seq_read_consistent, CanvasSeq, MasterCore, PixelWrite};
use pixel_canvas::rle::rle_decompress;
use pixel_canvas::settings::{CANVAS_SIZE, CANVAS_WIDTH};
use pixel_canvas::spsc::SpscRingBuffer;
use pixel_canvas::timing_wheel::TimingWheel;
use pixel_canvas::transport::parse_pixel_datagram;
use pixel_canvas::worker::{admit_datagrams, BroadcastPayload, BroadcastState};

#[test]
fn test_canvas_snapshot() {
    let mut canvas = Canvas::new();
    canvas.set_pixel(10, 10, 255);

    let mut pool = BufferPool::new();
    canvas.snapshot_to_pool(&mut pool, 1);

    let buffer = pool.raw_slice(1);
    assert_eq!(buffer[10 * CANVAS_WIDTH + 10], 255);
    assert_eq!(buffer[0], 0); // other pixels are unaffected
}

#[test]
fn test_set_pixel_out_of_bounds_is_noop() {
    let mut canvas = Canvas::new();
    canvas.set_pixel(CANVAS_WIDTH, 0, 9);
    canvas.set_pixel(0, 10_000, 9);
    assert!(canvas.pixels.iter().all(|&b| b == 0));
}

#[test]
fn test_publish_fills_next_slot() {
    let mut canvas = Canvas::new();
    canvas.set_pixel(2, 0, 7);
    let master = MasterCore::new(Vec::new(), canvas);
    let mut pool = BufferPool::new();

    master.publish(&mut pool);
    let active = pool.active_slot();
    assert_eq!(active, 1);

    // The active slot's raw buffer is the canvas, and its payload decodes
    // back to the canvas.
    assert_eq!(pool.raw_slice(active)[2], 7);
    let payload = pool.payload_of(active);
    let mut out = vec![0u8; CANVAS_SIZE];
    let n = rle_decompress(&payload, &mut out);
    assert_eq!(n, CANVAS_SIZE);
    assert_eq!(out[2], 7);
    assert_eq!(out[0], 0);
}

#[test]
fn test_master_drains_in_order() {
    let mut queue = SpscRingBuffer::<PixelWrite>::new();
    queue.push(PixelWrite { x: 0, y: 0, color: 1 }).unwrap();
    queue.push(PixelWrite { x: 0, y: 0, color: 2 }).unwrap();
    queue.push(PixelWrite { x: 5, y: 0, color: 3 }).unwrap();

    let mut master = MasterCore::new(vec![queue], Canvas::new());
    master.drain_round();

    // Later writes to the same pixel win; both queues drained fully.
    assert_eq!(master.canvas.pixels[0], 2);
    assert_eq!(master.canvas.pixels[5], 3);
}

#[test]
fn test_end_to_end_pixel_write() {
    // A client datagram: x=100, y=200, color=255, in the 5-byte wire form.
    let datagram = [100u8, 0, 200, 0, 255];
    let p = parse_pixel_datagram(&datagram).unwrap();

    let mut cooldown = CooldownArray::new();
    let mut wheel = TimingWheel::new();
    let mut queue = SpscRingBuffer::<PixelWrite>::new();
    let mut pool = BufferPool::new();
    let mut state = BroadcastState::new(pool.active_slot());

    // First publication (blank canvas): the first payload a client sees is
    // a full snapshot.
    let mut master = MasterCore::new(vec![queue], Canvas::new());
    master.publish(&mut pool);
    match state.observe(&pool) {
        BroadcastPayload::Full(f) => {
            let mut out = vec![0u8; CANVAS_SIZE];
            assert_eq!(rle_decompress(&f, &mut out), CANVAS_SIZE);
            assert!(out.iter().all(|&b| b == 0));
        },
        _ => panic!("first broadcast must be a full snapshot"),
    }

    // The accepted write flows worker -> queue -> master -> canvas.
    queue = SpscRingBuffer::<PixelWrite>::new();
    let accepted = admit_datagrams(&mut cooldown, &mut wheel, &mut queue, 3, &vec![p]);
    assert_eq!(accepted, 1);
    // The same pixel sent again within the cooldown window is rejected.
    let again = admit_datagrams(&mut cooldown, &mut wheel, &mut queue, 3, &vec![p]);
    assert_eq!(again, 0);

    master = MasterCore::new(vec![queue], master.canvas);
    master.drain_round();
    master.publish(&mut pool);

    // The next broadcast is a diff holding exactly the one accepted write:
    // index = 200 * width + 100 (little-endian u32), colour 255.
    match state.observe(&pool) {
        BroadcastPayload::Diff(d) => {
            let index = (200 * CANVAS_WIDTH + 100) as u32;
            let mut expected = index.to_le_bytes().to_vec();
            expected.push(255);
            assert_eq!(d, expected);
        },
        _ => panic!("second broadcast must be a diff"),
    }

    // No new publication: nothing to send.
    match state.observe(&pool) {
        BroadcastPayload::Quiet => {},
        _ => panic!("no publication happened"),
    }
}

#[test]
fn test_canvas_seqlock() {
    let mut s = CanvasSeq::new();
    let before = s.sample();
    assert!(seq_read_consistent(before, s.sample()));

    // A write in progress invalidates any read that overlaps it.
    s.begin_write();
    assert!(!seq_read_consistent(before, s.sample()));
    s.end_write();

    assert!(seq_read_consistent(s.sample(), s.sample()));
    assert_eq!(s.sample(), 2);
}

use pixel_canvas::clock::AtomicTime;
use pixel_canvas::cooldown::CooldownArray;
use pixel_canvas::master::PixelWrite;
use pixel_canvas::metrics::{AlignedAtomic, LoadMetrics};
use pixel_canvas::settings::{SPSC_CAPACITY, TIMING_WHEEL_TICKS, TX_CAPACITY};
use pixel_canvas::spsc::SpscRingBuffer;
use pixel_canvas::timing_wheel::TimingWheel;
use pixel_canvas::transport::PixelDatagram;
use pixel_canvas::worker::{admit_pixel, maintenance_due, tick_if_second_elapsed, TxSlotPool};

#[test]
fn test_cooldown_array() {
    let mut arr = CooldownArray::new();
    assert!(!arr.is_on_cooldown(10));
    assert!(!arr.is_on_cooldown(52000));

    arr.set_cooldown(10);
    arr.set_cooldown(52000);

    assert!(arr.is_on_cooldown(10));
    assert!(arr.is_on_cooldown(52000));
    assert!(!arr.is_on_cooldown(11));
    assert!(!arr.is_on_cooldown(52001));
}

#[test]
fn test_timing_wheel() {
    let mut master = CooldownArray::new();
    let mut wheel = TimingWheel::new();

    master.set_cooldown(55);
    wheel.add_cooldown(55);

    // ticking TIMING_WHEEL_TICKS-1 times shouldn't clear it
    for _ in 0..TIMING_WHEEL_TICKS - 1 {
        wheel.tick(&mut master);
        assert!(master.is_on_cooldown(55));
    }

    // Next tick should clear it
    wheel.tick(&mut master);
    assert!(!master.is_on_cooldown(55));
}

#[test]
fn test_spsc_ring_buffer() {
    let mut buffer = SpscRingBuffer::<usize>::new();
    assert_eq!(buffer.pop(), None);
    assert!(buffer.push(42).is_ok());
    assert_eq!(buffer.pop(), Some(42));
    assert_eq!(buffer.pop(), None);
}

#[test]
fn test_spsc_ring_buffer_full() {
    let mut buffer = SpscRingBuffer::<usize>::new();
    for i in 0..SPSC_CAPACITY {
        assert!(buffer.push(i).is_ok());
    }
    assert!(buffer.push(SPSC_CAPACITY).is_err());
    assert_eq!(buffer.pop(), Some(0));
    assert!(buffer.push(SPSC_CAPACITY).is_ok());
    assert!(buffer.push(SPSC_CAPACITY + 1).is_err());

    for i in 1..=SPSC_CAPACITY {
        assert_eq!(buffer.pop(), Some(i));
    }
    assert_eq!(buffer.pop(), None);
}

#[test]
fn test_metrics_counters_wrap() {
    let mut counter = AlignedAtomic::new(5);
    counter.add(2);
    assert_eq!(counter.get(), 7);
    // The client "subtracts" one by adding a wrapped value.
    counter.add(usize::MAX);
    assert_eq!(counter.get(), 6);

    let m = LoadMetrics::new(String::from("w0"));
    assert_eq!(m.id, "w0");
    assert_eq!(m.active.get(), 0);
    assert_eq!(m.tx_pixels.get(), 0);
}

#[test]
fn test_clock_seconds() {
    let mut clock = AtomicTime::new(123_456);
    assert_eq!(clock.now_ms(), 123_456);
    assert_eq!(clock.now_sec(), 123);
    clock.store_ms(999_999);
    assert_eq!(clock.now_ms(), 999_999);
    assert_eq!(clock.now_sec(), 999);
}

#[test]
fn test_admit_pixel_enforces_cooldown() {
    let mut cooldown = CooldownArray::new();
    let mut wheel = TimingWheel::new();
    let mut queue = SpscRingBuffer::<PixelWrite>::new();
    let p = PixelDatagram { x: 3, y: 4, color: 9 };

    assert!(admit_pixel(&mut cooldown, &mut wheel, &mut queue, 17, p));
    assert!(cooldown.is_on_cooldown(17));
    assert_eq!(queue.pop(), Some(PixelWrite { x: 3, y: 4, color: 9 }));

    // The second write within the cooldown window is rejected silently.
    assert!(!admit_pixel(&mut cooldown, &mut wheel, &mut queue, 17, p));
    assert_eq!(queue.pop(), None);

    // Another user is unaffected.
    assert!(admit_pixel(&mut cooldown, &mut wheel, &mut queue, 18, p));
}

#[test]
fn test_tick_decision() {
    let mut wheel = TimingWheel::new();
    let mut cooldown = CooldownArray::new();
    let mut last_tick_sec: u64 = 100;

    assert!(!tick_if_second_elapsed(&mut wheel, &mut cooldown, 100, &mut last_tick_sec));
    assert_eq!(last_tick_sec, 100);

    assert!(tick_if_second_elapsed(&mut wheel, &mut cooldown, 101, &mut last_tick_sec));
    assert_eq!(last_tick_sec, 101);
}

#[test]
fn test_maintenance_throttle() {
    let mut last_ms: u64 = 1000;
    assert!(!maintenance_due(1010, &mut last_ms));
    assert_eq!(last_ms, 1000);
    assert!(maintenance_due(1020, &mut last_ms));
    assert_eq!(last_ms, 1020);
}

#[test]
fn test_tx_slot_pool_discipline() {
    let mut pool = TxSlotPool::new();
    let a = pool.acquire().unwrap();
    let b = pool.acquire().unwrap();
    // No two in-flight sends share a slot.
    assert_ne!(a, b);
    assert_eq!(a, TX_CAPACITY - 1);
    assert_eq!(b, TX_CAPACITY - 2);

    // A completed send returns its slot; returning it twice is a no-op.
    assert!(pool.release(a));
    assert!(!pool.release(a));
    // The recycled slot is handed out again.
    assert_eq!(pool.acquire(), Some(a));
}

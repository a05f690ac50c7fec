use ssd1322::driver::SSD1322;
use ssd1322::fakes::RecordingDelay;
use ssd1322::fakes::RecordingLine;
use ssd1322::fakes::RecordingTransport;

const BUFFER_SIZE: usize = 128 * 64;

fn make() -> SSD1322<RecordingTransport, RecordingLine> {
    SSD1322::new(
        RecordingTransport::new(),
        RecordingLine::new(),
        RecordingLine::new(),
    )
}

fn make_failing(n: usize) -> SSD1322<RecordingTransport, RecordingLine> {
    SSD1322::new(
        RecordingTransport::failing_at(n),
        RecordingLine::new(),
        RecordingLine::new(),
    )
}

/// The byte list the register-programming phase sends, in order.
fn register_bytes() -> Vec<u8> {
    vec![
        0xB3, 0x91, 0xCA, 0x3F, 0xA1, 0x00, 0xA2, 0x00, 0xA0, 0x16, 0x11, 0xA6, 0xAE, 0xB4, 0xA0,
        0xFD, 0xD1, 0x82, 0x20,
    ]
}

/// The byte list that programs the addressing window, in order.
fn window_bytes() -> Vec<u8> {
    vec![0x15, 0x1C, 0x5B, 0x75, 0x00, 0x3F, 0x5C]
}

#[test]
fn size_is_fixed() {
    let d = make();
    assert_eq!(d.size(), (128, 64));
}

#[test]
fn new_driver_buffers_are_zeroed_and_silent() {
    let d = make();
    assert_eq!(d.front_data().len(), BUFFER_SIZE);
    assert_eq!(d.back_data().len(), BUFFER_SIZE);
    assert!(d.front_data().iter().all(|b| *b == 0));
    assert!(d.back_data().iter().all(|b| *b == 0));
    assert!(d.transport_ref().bytes().is_empty());
    assert!(d.dc_ref().history().is_empty());
    assert!(d.res_ref().history().is_empty());
}

#[test]
fn set_pixel_writes_both_nibbles_at_linear_index() {
    let mut d = make();
    d.draw_pixel(5, 3, 9);
    let idx = 3 * 128 + 5;
    assert_eq!(d.back_data()[idx], 0x99);
    for (i, b) in d.back_data().iter().enumerate() {
        if i != idx {
            assert_eq!(*b, 0x00);
        }
    }
    assert!(d.front_data().iter().all(|b| *b == 0));
    assert!(d.transport_ref().bytes().is_empty());
}

#[test]
fn set_pixel_corners() {
    let mut d = make();
    d.draw_pixel(0, 0, 15);
    d.draw_pixel(127, 63, 1);
    assert_eq!(d.back_data()[0], 0xFF);
    assert_eq!(d.back_data()[63 * 128 + 127], 0x11);
}

#[test]
fn set_pixel_out_of_bounds_is_a_no_op() {
    let mut d = make();
    d.draw_pixel(20, 20, 6);
    let back_before = d.back_data().clone();
    let front_before = d.front_data().clone();
    d.draw_pixel(-1, 0, 9);
    d.draw_pixel(128, 0, 9);
    d.draw_pixel(0, -1, 9);
    d.draw_pixel(0, 64, 9);
    d.draw_pixel(i32::MIN, i32::MAX, 9);
    assert_eq!(*d.back_data(), back_before);
    assert_eq!(*d.front_data(), front_before);
    assert!(d.transport_ref().bytes().is_empty());
}

#[test]
fn clear_fills_back_buffer_only() {
    let mut d = make();
    d.clear(12);
    assert!(d.back_data().iter().all(|b| *b == 0xCC));
    assert!(d.front_data().iter().all(|b| *b == 0x00));
    assert!(d.transport_ref().bytes().is_empty());
}

#[test]
fn clear_twice_equals_clear_once() {
    let mut d1 = make();
    let mut d2 = make();
    d1.clear(5);
    d2.clear(5);
    d2.clear(5);
    assert_eq!(*d1.back_data(), *d2.back_data());
    assert_eq!(*d1.front_data(), *d2.front_data());
}

#[test]
fn draw_iter_applies_pixels_in_order() {
    let mut d = make();
    let pixels = vec![(1, 0, 3u8), (1, 0, 7u8), (200, 0, 9u8), (2, 1, 15u8)];
    d.draw_iter(&pixels);
    assert_eq!(d.back_data()[1], 0x77);
    assert_eq!(d.back_data()[128 + 2], 0xFF);
    assert!(d.transport_ref().bytes().is_empty());
}

#[test]
fn flush_swaps_buffers() {
    let mut d = make();
    d.draw_pixel(10, 2, 4);
    let drawn = d.back_data().clone();
    assert!(d.flush().is_ok());
    assert_eq!(*d.front_data(), drawn);
    assert!(d.back_data().iter().all(|b| *b == 0));
    d.draw_pixel(11, 2, 8);
    assert_eq!(d.back_data()[2 * 128 + 11], 0x88);
    assert_eq!(*d.front_data(), drawn);
}

#[test]
fn flush_transmits_window_then_buffer() {
    let mut d = make();
    d.clear(7);
    assert!(d.flush().is_ok());
    let mut expected = window_bytes();
    expected.extend(std::iter::repeat(0x77).take(BUFFER_SIZE));
    assert_eq!(*d.transport_ref().bytes(), expected);
    assert_eq!(
        *d.dc_ref().history(),
        vec![false, true, true, false, true, true, false, true]
    );
    assert!(d.res_ref().history().is_empty());
}

#[test]
fn init_emits_the_documented_sequence() {
    let mut d = make();
    let mut delay = RecordingDelay::new();
    assert!(d.init(&mut delay).is_ok());
    let mut expected = register_bytes();
    expected.extend(window_bytes());
    expected.extend(std::iter::repeat(0x00).take(BUFFER_SIZE));
    expected.push(0xAF);
    assert_eq!(*d.transport_ref().bytes(), expected);
    assert_eq!(*delay.history(), vec![10, 300, 200]);
    assert_eq!(*d.res_ref().history(), vec![true, false, true]);
    let mut dc = vec![
        false, true, false, true, false, true, false, true, false, true, true, false, false,
        false, true, true, false, true, true,
    ];
    dc.extend(vec![false, true, true, false, true, true, false]);
    dc.push(true);
    dc.push(false);
    assert_eq!(*d.dc_ref().history(), dc);
}

#[test]
fn init_then_flush_round_trip() {
    let mut d = make();
    let mut delay = RecordingDelay::new();
    assert!(d.init(&mut delay).is_ok());
    let sent = d.transport_ref().bytes().len();
    d.clear(15);
    assert!(d.flush().is_ok());
    let bytes = d.transport_ref().bytes();
    assert_eq!(bytes.len(), sent + 7 + BUFFER_SIZE);
    assert!(bytes[sent + 7..].iter().all(|b| *b == 0xFF));
}

#[test]
fn flush_failure_on_each_write_stops_the_bus() {
    // The flush makes 8 transport writes: 7 single command or data bytes,
    // then the buffer block. Failing each in turn must surface the error
    // and leave exactly the bytes written before the failure.
    let header = window_bytes();
    for k in 0..8 {
        let mut d = make_failing(k);
        d.clear(7);
        assert!(d.flush().is_err());
        let expected: Vec<u8> = header.iter().copied().take(k).collect();
        assert_eq!(*d.transport_ref().bytes(), expected);
    }
    let mut d = make_failing(8);
    d.clear(7);
    assert!(d.flush().is_ok());
}

#[test]
fn init_failure_on_each_write_stops_the_bus() {
    // The initialization makes 28 transport writes: 26 single bytes, the
    // buffer block, and the display-on command.
    let mut singles = register_bytes();
    singles.extend(window_bytes());
    for k in 0..28 {
        let mut d = make_failing(k);
        let mut delay = RecordingDelay::new();
        assert!(d.init(&mut delay).is_err());
        let mut expected: Vec<u8> = singles.iter().copied().take(k).collect();
        if k > 26 {
            expected = singles.clone();
            expected.extend(std::iter::repeat(0x00).take(BUFFER_SIZE));
        }
        assert_eq!(*d.transport_ref().bytes(), expected);
        // The reset pulse and its two holds happen before any write; the
        // display-on settle hold is never reached on failure.
        assert_eq!(*delay.history(), vec![10, 300]);
        assert_eq!(*d.res_ref().history(), vec![true, false, true]);
    }
    let mut d = make_failing(28);
    let mut delay = RecordingDelay::new();
    assert!(d.init(&mut delay).is_ok());
}

#[test]
fn failed_flush_leaves_error_and_no_retry() {
    let mut d = make_failing(3);
    d.clear(2);
    assert!(d.flush().is_err());
    let after_error = d.transport_ref().bytes().clone();
    assert_eq!(after_error, vec![0x15, 0x1C, 0x5B]);
    // A later flush starts over from the window commands.
    assert!(d.flush().is_ok());
    assert_eq!(d.transport_ref().bytes().len(), after_error.len() + 7 + BUFFER_SIZE);
}

use std::sync::Arc;
use tetris_bot::capture::{CaptureError, Frame, ScreenCapture};
use tetris_bot::config::CaptureConfig;

/// A screen on which every byte tells where it is.
fn pixels(w: usize, h: usize) -> Vec<u8> {
    let mut data = Vec::new();
    for y in 0..h {
        for x in 0..w {
            data.extend([(x % 250) as u8, (y % 250) as u8, ((x + y) % 250) as u8, 255]);
        }
    }
    data
}

fn screen(w: u32, h: u32) -> Frame {
    Frame { data: Arc::new(pixels(w as usize, h as usize)), width: w, height: h, stride: w * 4 }
}

fn config(x: u32, y: u32, width: u32, height: u32) -> CaptureConfig {
    CaptureConfig { x, y, width, height, target_fps: 60 }
}

#[test]
fn pixels_are_stored_blue_first() {
    let frame = screen(20, 10);
    assert_eq!(frame.pixel_rgb(3, 7), (10, 7, 3));
    assert_eq!(frame.pixel_rgb(19, 9), (28, 9, 19));
}

#[test]
fn cropping_moves_the_origin() {
    let frame = screen(40, 30);
    let cut = frame.crop(5, 6, 10, 8);
    assert_eq!((cut.width, cut.height, cut.stride), (10, 8, 40));
    assert_eq!(cut.data.len(), 320);
    for y in 0..8 {
        for x in 0..10 {
            assert_eq!(cut.pixel_rgb(x, y), frame.pixel_rgb(x + 5, y + 6));
        }
    }
    assert!(cut.is_full());
}

#[test]
fn cropping_respects_the_stride() {
    let mut data = Vec::new();
    for y in 0..3u8 {
        for x in 0..4u8 {
            data.extend([x, y, x + y, 0]);
        }
        data.extend([99, 99, 99, 99, 99, 99, 99, 99]);
    }
    let frame = Frame { data: Arc::new(data), width: 4, height: 3, stride: 24 };
    let cut = frame.crop(1, 1, 2, 2);
    assert_eq!(*cut.data, vec![1, 1, 2, 0, 2, 1, 3, 0, 1, 2, 3, 0, 2, 2, 4, 0]);
}

#[test]
fn empty_regions_can_be_cropped() {
    let frame = screen(4, 4);
    assert!(frame.covers(2, 2, 0, 0));
    let cut = frame.crop(2, 2, 0, 0);
    assert_eq!((cut.width, cut.height, cut.stride, cut.data.len()), (0, 0, 0, 0));
}

#[test]
fn regions_that_reach_past_the_data_are_not_covered() {
    let frame = screen(10, 10);
    assert!(frame.covers(0, 0, 10, 10));
    assert!(!frame.covers(0, 1, 10, 10));
    assert!(!frame.covers(1, 0, 10, 10));
    assert!(!frame.covers(0, 0, u32::MAX, 1));
    assert!(!frame.covers(0, u32::MAX, 1, 1));
}

#[test]
fn frames_with_missing_bytes_are_not_full() {
    let mut data = pixels(5, 5);
    data.truncate(99);
    let frame = Frame { data: Arc::new(data), width: 5, height: 5, stride: 20 };
    assert!(frame.is_full());
    let frame = Frame { data: Arc::new(vec![0; 98]), width: 5, height: 5, stride: 20 };
    assert!(!frame.is_full());
    let frame = Frame { data: Arc::new(vec![]), width: 0, height: 5, stride: 0 };
    assert!(frame.is_full());
    let frame = Frame { data: Arc::new(vec![]), width: 2, height: u32::MAX, stride: u32::MAX };
    assert!(!frame.is_full());
}

#[test]
fn clones_share_the_pixels() {
    let frame = screen(4, 4);
    let twin = frame.clone();
    assert!(Arc::ptr_eq(&frame.data, &twin.data));
    assert_eq!((twin.width, twin.height, twin.stride), (4, 4, 16));
}

#[test]
fn the_first_timeout_is_an_error() {
    let mut capture = ScreenCapture::new(&config(0, 0, 8, 8));
    assert!(!capture.frame_is_new);
    let error = capture.grab_frame(None).err().unwrap();
    assert_eq!(error, CaptureError::NoFrameYet);
    assert_eq!(error.message(), "No frame captured yet (DXGI timeout on first capture)");
    assert!(!capture.frame_is_new);
}

#[test]
fn a_timeout_brings_the_last_frame_again() {
    let mut capture = ScreenCapture::new(&config(2, 3, 4, 5));
    let first = capture.grab_frame(Some((pixels(20, 20), 20, 20))).ok().unwrap();
    assert!(capture.frame_is_new);
    assert_eq!((first.width, first.height), (4, 5));
    assert_eq!(first.pixel_rgb(0, 0), (5, 3, 2));
    let again = capture.grab_frame(None).ok().unwrap();
    assert!(!capture.frame_is_new);
    assert_eq!(again.data, first.data);
    assert_eq!((again.width, again.height, again.stride), (4, 5, 16));
}

#[test]
fn the_whole_screen_is_not_copied() {
    let data = pixels(6, 6);
    let at = data.as_ptr();
    let mut capture = ScreenCapture::new(&config(0, 0, 6, 6));
    let frame = capture.grab_frame(Some((data, 6, 6))).ok().unwrap();
    assert_eq!(frame.data.as_ptr(), at);
    assert_eq!(frame.stride, 24);
}

#[test]
fn the_region_ends_at_the_border_of_the_screen() {
    let mut capture = ScreenCapture::new(&config(15, 16, 100, 100));
    let frame = capture.grab_frame(Some((pixels(20, 20), 20, 20))).ok().unwrap();
    assert_eq!((frame.width, frame.height), (5, 4));
    assert_eq!(frame.pixel_rgb(4, 3), (38, 19, 19));
}

#[test]
fn screens_that_do_not_reach_the_region_are_refused() {
    let capture = ScreenCapture::new(&config(15, 16, 100, 100));
    assert!(capture.accepts(&pixels(20, 20), 20, 20));
    assert!(!capture.accepts(&pixels(10, 20), 10, 20));
    assert!(!capture.accepts(&pixels(20, 10), 20, 10));
    // Fewer bytes than the size asks for.
    assert!(!capture.accepts(&pixels(20, 19), 20, 20));
    // A region right at the border is empty.
    assert!(capture.accepts(&pixels(15, 20), 15, 20));
}

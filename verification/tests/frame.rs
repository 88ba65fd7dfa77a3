use pathtracer::frame::{Frame, FrameError};

#[test]
fn height_is_three_quarters_of_width() {
    assert_eq!(Frame::new(640, 1), Ok(Frame { width: 640, height: 480, samples: 1 }));
    assert_eq!(Frame::new(32, 4), Ok(Frame { width: 32, height: 24, samples: 4 }));
    assert_eq!(Frame::new(1024, 2).unwrap().height, 768);
}

#[test]
fn height_is_rounded_down() {
    assert_eq!(Frame::new(1, 1).unwrap().height, 0);
    assert_eq!(Frame::new(2, 1).unwrap().height, 1);
    assert_eq!(Frame::new(3, 1).unwrap().height, 2);
    assert_eq!(Frame::new(4, 1).unwrap().height, 3);
    assert_eq!(Frame::new(5, 1).unwrap().height, 3);
    assert_eq!(Frame::new(6, 1).unwrap().height, 4);
    assert_eq!(Frame::new(7, 1).unwrap().height, 5);
    assert_eq!(Frame::new(641, 1).unwrap().height, 480);
    assert_eq!(Frame::new(643, 1).unwrap().height, 482);
    for w in 1..2000usize {
        assert_eq!(Frame::new(w, 1).unwrap().height, w * 480 / 640);
    }
}

#[test]
fn frame_without_samples_or_width_is_refused() {
    assert_eq!(Frame::new(640, 0), Err(FrameError::NoSamples));
    assert_eq!(Frame::new(0, 3), Err(FrameError::NoWidth));
    assert_eq!(Frame::new(0, 0), Err(FrameError::NoSamples));
}

#[test]
fn frame_beyond_the_machine_is_refused() {
    assert_eq!(Frame::new(usize::MAX, 1), Err(FrameError::TooLarge));
    assert_eq!(Frame::new(usize::MAX / 2, 1), Err(FrameError::TooLarge));
    // the largest width whose pixels can be counted on a 64-bit machine
    if usize::BITS == 64 {
        assert_eq!(Frame::new(4_959_401_049, 1).map(|f| f.height), Ok(3_719_550_786));
        assert_eq!(Frame::new(4_959_401_050, 1), Err(FrameError::TooLarge));
    }
}

#[test]
fn bands_follow_one_another() {
    let frame = Frame::new(32, 4).unwrap();
    assert_eq!(frame.pixels(), 768);
    assert_eq!(frame.band(0), (0, 32));
    assert_eq!(frame.band(1), (32, 64));
    assert_eq!(frame.band(23), (736, 768));
    for y in 1..frame.height {
        assert_eq!(frame.band(y).0, frame.band(y - 1).1);
    }
}

#[test]
fn every_pixel_is_in_one_band() {
    let frame = Frame::new(7, 1).unwrap();
    assert_eq!(frame.height, 5);
    let mut owner = vec![usize::MAX; frame.pixels()];
    for y in 0..frame.height {
        let (start, end) = frame.band(y);
        for i in start..end {
            assert_eq!(owner[i], usize::MAX);
            owner[i] = y;
        }
    }
    for i in 0..frame.pixels() {
        assert_eq!(owner[i], i / frame.width);
    }
}

#[test]
fn index_is_inside_the_band() {
    let frame = Frame::new(12, 1).unwrap();
    for y in 0..frame.height {
        let (start, end) = frame.band(y);
        for x in 0..frame.width {
            let i = frame.index(x, y);
            assert_eq!(i, start + x);
            assert!(i < end);
        }
    }
    assert_eq!(frame.index(11, 8), 107);
}

#[test]
fn camera_rows_run_from_the_bottom() {
    let frame = Frame::new(32, 1).unwrap();
    assert_eq!(frame.row(0), 23);
    assert_eq!(frame.row(23), 0);
    assert_eq!(frame.row(10), 13);
    for y in 0..frame.height {
        assert_eq!(frame.row(frame.row(y)), y);
    }
}

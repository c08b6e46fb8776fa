use audio_stream::capture::{deinterleave, CaptureWindow, Handoffs, WINDOW_SIZE};
use crossbeam::channel::{bounded, unbounded};

fn ramp(n: usize) -> Vec<i32> {
    (0..n as i32).collect()
}

fn feed_in_chunks(size: usize, total: usize, chunk: usize) -> (Vec<Vec<i32>>, usize) {
    let mut window: CaptureWindow<i32> = CaptureWindow::new(size).unwrap();
    let input = ramp(total);
    let mut complete: Vec<Vec<i32>> = Vec::new();
    for piece in input.chunks(chunk) {
        complete.extend(window.feed(piece));
    }
    (complete, window.filled())
}

fn expect_windows(complete: &[Vec<i32>], size: usize) {
    for (k, w) in complete.iter().enumerate() {
        let expected: Vec<i32> = ((k * size) as i32..((k + 1) * size) as i32).collect();
        assert_eq!(w, &expected);
    }
}

#[test]
fn reference_window_size() {
    assert_eq!(WINDOW_SIZE, 1920);
}

#[test]
fn window_of_size_zero_is_refused() {
    assert!(CaptureWindow::<i16>::new(0).is_none());
}

#[test]
fn new_window_is_empty() {
    let w: CaptureWindow<i16> = CaptureWindow::new(8).unwrap();
    assert_eq!(w.size(), 8);
    assert_eq!(w.filled(), 0);
}

#[test]
fn chunks_of_one_sample() {
    let (complete, held) = feed_in_chunks(WINDOW_SIZE, 3 * WINDOW_SIZE + 5, 1);
    assert_eq!(complete.len(), 3);
    expect_windows(&complete, WINDOW_SIZE);
    assert_eq!(held, 5);
}

#[test]
fn chunks_of_seven_samples() {
    let (complete, held) = feed_in_chunks(WINDOW_SIZE, 3 * WINDOW_SIZE, 7);
    assert_eq!(complete.len(), 3);
    expect_windows(&complete, WINDOW_SIZE);
    assert_eq!(held, 0);
    let (complete, held) = feed_in_chunks(WINDOW_SIZE, 3 * WINDOW_SIZE - 1, 7);
    assert_eq!(complete.len(), 2);
    assert_eq!(held, WINDOW_SIZE - 1);
}

#[test]
fn chunks_of_half_a_window() {
    let (complete, held) = feed_in_chunks(WINDOW_SIZE, 4 * WINDOW_SIZE, 960);
    assert_eq!(complete.len(), 4);
    expect_windows(&complete, WINDOW_SIZE);
    assert_eq!(held, 0);
}

#[test]
fn chunks_of_a_whole_window() {
    let (complete, held) = feed_in_chunks(WINDOW_SIZE, 4 * WINDOW_SIZE, 1920);
    assert_eq!(complete.len(), 4);
    expect_windows(&complete, WINDOW_SIZE);
    assert_eq!(held, 0);
}

#[test]
fn one_chunk_of_several_windows() {
    let mut window: CaptureWindow<i32> = CaptureWindow::new(4).unwrap();
    let complete = window.feed(&ramp(11));
    assert_eq!(complete, vec![vec![0, 1, 2, 3], vec![4, 5, 6, 7]]);
    assert_eq!(window.filled(), 3);
    let complete = window.feed(&[11]);
    assert_eq!(complete, vec![vec![8, 9, 10, 11]]);
    assert_eq!(window.filled(), 0);
}

#[test]
fn empty_chunk_changes_nothing() {
    let mut window: CaptureWindow<i32> = CaptureWindow::new(4).unwrap();
    assert!(window.feed(&[1, 2]).is_empty());
    assert!(window.feed(&[]).is_empty());
    assert_eq!(window.filled(), 2);
}

#[test]
fn handoff_fires_only_when_the_window_is_full() {
    let mut window: CaptureWindow<i32> = CaptureWindow::new(WINDOW_SIZE).unwrap();
    let input = ramp(WINDOW_SIZE);
    for (i, s) in input.iter().enumerate() {
        let complete = window.feed(&[*s]);
        if i + 1 < WINDOW_SIZE {
            assert!(complete.is_empty());
        } else {
            assert_eq!(complete.len(), 1);
            assert_eq!(complete[0], input);
        }
    }
}

#[test]
fn two_half_windows_hand_off_once() {
    let (tx, rx) = unbounded::<Vec<f32>>();
    let mut window: CaptureWindow<f32> = CaptureWindow::new(WINDOW_SIZE).unwrap();
    let first: Vec<f32> = (0..960).map(|i| i as f32).collect();
    let second: Vec<f32> = (960..1920).map(|i| i as f32).collect();
    assert_eq!(window.capture(&first, &tx), Handoffs { sent: 0, dropped: 0 });
    assert_eq!(rx.len(), 0);
    assert_eq!(window.capture(&second, &tx), Handoffs { sent: 1, dropped: 0 });
    assert_eq!(rx.len(), 1);
    let handed = rx.try_recv().unwrap();
    assert_eq!(handed.len(), 1920);
    let (left, right) = deinterleave(&handed);
    assert_eq!(left.len(), 960);
    assert_eq!(right.len(), 960);
    assert_eq!(left[0], 0.0);
    assert_eq!(right[0], 1.0);
    assert_eq!(left[959], 1918.0);
    assert_eq!(right[959], 1919.0);
    // each chunk of 960 samples holds 480 frames
    let (l, r) = deinterleave(&first);
    assert_eq!((l.len(), r.len()), (480, 480));
    assert!(rx.try_recv().is_err());
}

#[test]
fn full_channel_drops_the_window() {
    let (tx, rx) = bounded::<Vec<i32>>(1);
    let mut window: CaptureWindow<i32> = CaptureWindow::new(2).unwrap();
    assert_eq!(window.capture(&[1, 2, 3, 4, 5], &tx), Handoffs { sent: 1, dropped: 1 });
    assert_eq!(window.filled(), 1);
    assert_eq!(rx.try_recv(), Ok(vec![1, 2]));
    assert!(rx.try_recv().is_err());
    assert_eq!(window.capture(&[6], &tx), Handoffs { sent: 1, dropped: 0 });
    assert_eq!(rx.try_recv(), Ok(vec![5, 6]));
}

#[test]
fn disconnected_channel_drops_the_window() {
    let (tx, rx) = unbounded::<Vec<i32>>();
    drop(rx);
    let mut window: CaptureWindow<i32> = CaptureWindow::new(2).unwrap();
    assert_eq!(window.capture(&[1, 2, 3, 4], &tx), Handoffs { sent: 0, dropped: 2 });
    assert_eq!(window.filled(), 0);
}

#[test]
fn deinterleave_splits_even_and_odd_places() {
    let (left, right) = deinterleave(&[10, 11, 20, 21, 30, 31]);
    assert_eq!(left, vec![10, 20, 30]);
    assert_eq!(right, vec![11, 21, 31]);
}

#[test]
fn deinterleave_odd_length() {
    let (left, right) = deinterleave(&[10, 11, 20]);
    assert_eq!(left, vec![10, 20]);
    assert_eq!(right, vec![11]);
    let (left, right) = deinterleave(&[10]);
    assert_eq!(left, vec![10]);
    assert!(right.is_empty());
}

#[test]
fn deinterleave_nothing() {
    let (left, right) = deinterleave::<f32>(&[]);
    assert!(left.is_empty());
    assert!(right.is_empty());
}

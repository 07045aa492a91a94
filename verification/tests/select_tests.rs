use midiedit::pairing::Span;
use midiedit::select::{select_spans, span_in_window, track_in_set};

fn span(start_time: u128, end_time: u128) -> Span {
    Span {
        pitch: 60,
        start_idx: 0,
        start_time,
        start_intensity: 100,
        end_idx: 1,
        end_time,
        end_intensity: 0,
    }
}

#[test]
fn window_inside_span_overlaps() {
    assert!(span_in_window(&span(0, 20), Some(5), Some(15)));
}

#[test]
fn window_touching_end_overlaps() {
    assert!(span_in_window(&span(0, 20), Some(15), Some(25)));
}

#[test]
fn open_start_window_overlaps() {
    assert!(span_in_window(&span(0, 20), None, Some(10)));
}

#[test]
fn boundary_touch_without_overlap_is_excluded() {
    // end_time(20) > start(20) is false.
    assert!(!span_in_window(&span(0, 20), Some(20), Some(30)));
}

#[test]
fn unbounded_window_selects_everything() {
    assert!(span_in_window(&span(0, 0), None, None));
}

#[test]
fn select_spans_keeps_order() {
    let spans = vec![span(0, 20), span(30, 40), span(10, 22)];
    let kept = select_spans(&spans, Some(15), Some(25));
    assert_eq!(kept.len(), 2);
    assert_eq!(kept[0], spans[0]);
    assert_eq!(kept[1], spans[2]);
}

#[test]
fn empty_track_set_means_every_track() {
    let sel: Vec<usize> = vec![];
    assert!(track_in_set(&sel, 0));
    assert!(track_in_set(&sel, 7));
}

#[test]
fn track_set_membership() {
    let sel: Vec<usize> = vec![1, 3];
    assert!(!track_in_set(&sel, 0));
    assert!(track_in_set(&sel, 1));
    assert!(!track_in_set(&sel, 2));
    assert!(track_in_set(&sel, 3));
}

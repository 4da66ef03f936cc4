use tracing_samply::marker::{format_marker_line, marker_file_name};
use tracing_samply::stack::TimingStack;
use tracing_samply::tracker::{Mark, SpanTracker};

#[test]
fn stack_pops_in_reverse_push_order() {
    let mut s = TimingStack::new();
    assert_eq!(s.len(), 0);
    s.push(10);
    s.push(20);
    s.push(30);
    assert_eq!(s.len(), 3);
    assert_eq!(s.pop(), Some(30));
    assert_eq!(s.pop(), Some(20));
    assert_eq!(s.pop(), Some(10));
    assert_eq!(s.pop(), None);
    assert_eq!(s.len(), 0);
}

#[test]
fn stack_with_one_frame() {
    let mut s = TimingStack::with_frame(5);
    assert_eq!(s.len(), 1);
    assert_eq!(s.pop(), Some(5));
    assert_eq!(s.pop(), None);
}

#[test]
fn reentered_span_pairs_last_in_first_out() {
    let (a, b) = (1u64, 2u64);
    let mut t = SpanTracker::new();
    t.on_enter(a, 100);
    t.on_enter(a, 200);
    t.on_enter(b, 300);
    assert_eq!(t.on_exit(b, 400), Some(Mark { id: b, start_ns: 300, end_ns: 400 }));
    assert_eq!(t.on_exit(a, 500), Some(Mark { id: a, start_ns: 200, end_ns: 500 }));
    assert_eq!(t.on_exit(a, 600), Some(Mark { id: a, start_ns: 100, end_ns: 600 }));
    assert_eq!(t.open_frames(a), 0);
    assert_eq!(t.open_frames(b), 0);
}

#[test]
fn exit_without_open_frame_is_dropped() {
    let mut t = SpanTracker::new();
    assert_eq!(t.on_exit(9, 1), None);
    t.on_enter(9, 2);
    assert_eq!(t.on_exit(9, 3), Some(Mark { id: 9, start_ns: 2, end_ns: 3 }));
    assert_eq!(t.on_exit(9, 4), None);
    assert_eq!(t.open_frames(9), 0);
}

#[test]
fn one_mark_per_exit_with_start_before_end() {
    let mut t = SpanTracker::new();
    let mut clock = 0u64;
    let mut marks = Vec::new();
    let script: [(bool, u64); 10] = [
        (true, 1), (true, 2), (true, 1), (false, 1), (true, 3),
        (false, 2), (false, 3), (false, 1), (true, 2), (false, 2),
    ];
    for (enter, id) in script {
        clock += 7;
        if enter {
            t.on_enter(id, clock);
        } else if let Some(m) = t.on_exit(id, clock) {
            marks.push(m);
        }
    }
    assert_eq!(marks.len(), 5);
    assert_eq!(marks.iter().filter(|m| m.id == 1).count(), 2);
    assert_eq!(marks.iter().filter(|m| m.id == 2).count(), 2);
    assert_eq!(marks.iter().filter(|m| m.id == 3).count(), 1);
    assert!(marks.iter().all(|m| m.start_ns <= m.end_ns));
    assert_eq!(t.open_frames(1), 0);
}

#[test]
fn span_never_entered_never_marked() {
    let mut t = SpanTracker::new();
    t.on_enter(1, 10);
    assert_eq!(t.on_exit(2, 11), None);
    assert_eq!(t.on_exit(1, 12), Some(Mark { id: 1, start_ns: 10, end_ns: 12 }));
    assert_eq!(t.open_frames(2), 0);
}

#[test]
fn closing_a_span_drops_its_frames() {
    let mut t = SpanTracker::new();
    t.on_enter(4, 1);
    t.on_enter(4, 2);
    t.on_enter(5, 3);
    t.on_close(4);
    assert_eq!(t.open_frames(4), 0);
    assert_eq!(t.open_frames(5), 1);
    assert_eq!(t.on_exit(4, 9), None);
}

/// The enter and exit notifications of one call of an instrumented function:
/// a span `spanned` around two spans, one of them entered again through a
/// clone while open, and the other exited out of order.
fn spanned_events(t: &mut SpanTracker, clock: &mut u64, out: &mut Vec<u8>) {
    const SPANNED: u64 = 1;
    const INFO: u64 = 2;
    const OTHER: u64 = 3;
    let name = |id: u64| -> &'static [u8] {
        match id {
            SPANNED => b"spanned",
            INFO => b"info_span",
            _ => b"other_info_span",
        }
    };
    let script: [(bool, u64); 14] = [
        (true, SPANNED), (true, OTHER), (true, INFO), (true, INFO), (false, INFO),
        (true, INFO), (false, OTHER), (true, INFO), (false, INFO), (false, INFO),
        (false, INFO), (true, INFO), (false, INFO), (false, SPANNED),
    ];
    for (enter, id) in script {
        *clock += 1;
        if enter {
            t.on_enter(id, *clock);
        } else if let Some(m) = t.on_exit(id, *clock) {
            out.extend_from_slice(&format_marker_line(m.start_ns, m.end_ns, name(id)));
        }
    }
}

#[test]
fn basic() {
    let pid = 4321u32;
    let mut files = Vec::new();
    for tid in [4322u64, 4323] {
        let mut t = SpanTracker::new();
        let mut clock = 0u64;
        let mut contents = Vec::new();
        spanned_events(&mut t, &mut clock, &mut contents);
        files.push((marker_file_name(pid, Some(tid)), contents));
    }
    assert_ne!(files[0].0, files[1].0);
    let mut count = 0;
    for (fname, contents) in &files {
        let fname = String::from_utf8(fname.clone()).unwrap();
        assert!(fname.starts_with("marker-"), "{fname:?}");
        assert!(fname.contains(&pid.to_string()), "{fname:?}");
        assert!(fname.ends_with(".txt"), "{fname:?}");
        count += 1;

        let contents = String::from_utf8(contents.clone()).unwrap();
        let mut lines = contents.lines();
        let mut next = || lines.next().unwrap();
        assert!(next().ends_with(" info_span"));
        assert!(next().ends_with(" other_info_span"));
        assert!(next().ends_with(" info_span"));
        assert!(next().ends_with(" info_span"));
        assert!(next().ends_with(" info_span"));
        assert!(next().ends_with(" info_span"));
        assert!(next().ends_with(" spanned"));
        assert_eq!(lines.next(), None);
        assert_eq!(contents.lines().count(), 7);

        assert!(contents.ends_with("\n"));
    }
    assert_eq!(count, 2);
}

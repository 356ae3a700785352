use bar::runner::{Outcome, RunError, Window};
use std::collections::VecDeque;

/// Runs a batch on this thread: each started operation completes after the
/// next one is started, or when nothing more can start. Records the largest
/// number of operations seen in flight.
fn run<O, E>(
    total: usize,
    cap: usize,
    mut f: impl FnMut(usize) -> Outcome<O, E>,
    peak: &mut usize,
) -> Result<Vec<O>, RunError<E>> {
    let mut window = Window::new(total, cap);
    let mut in_flight: VecDeque<usize> = VecDeque::new();
    loop {
        while let Some(i) = window.start_next() {
            in_flight.push_back(i);
            *peak = (*peak).max(in_flight.len());
        }
        match in_flight.pop_front() {
            Some(i) => window.complete(i, f(i)),
            None => break,
        }
        if window.is_finished() {
            break;
        }
    }
    assert!(window.is_finished());
    window.into_result()
}

#[test]
fn test_try_map() {
    let input: Vec<usize> = (1..100).collect();
    let mut peak = 0;
    let mut result = run(input.len(), 50, |i| Outcome::<usize, String>::Done(input[i] * 2), &mut peak)
        .ok()
        .unwrap();
    result.sort();
    assert_eq!(result, input.iter().map(|x| x * 2).collect::<Vec<usize>>());
}

#[test]
fn test_try_for_each() {
    let input: Vec<usize> = (1..100).collect();
    let mut sum: usize = 0;
    let mut peak = 0;
    run(
        input.len(),
        50,
        |_| {
            sum += 1;
            Outcome::<(), String>::Done(())
        },
        &mut peak,
    )
    .ok()
    .expect("should not fail");
    assert_eq!(sum, 99);
}

#[test]
fn never_more_than_cap_in_flight() {
    for cap in 1..6 {
        for total in 0..20 {
            let mut peak = 0;
            let r = run(total, cap, |i| Outcome::<usize, ()>::Done(i), &mut peak);
            assert!(peak <= cap);
            assert_eq!(peak, cap.min(total));
            assert_eq!(r.ok().unwrap().len(), total);
        }
    }
}

#[test]
fn doubling_one_to_hundred_gives_each_double_once() {
    let input: Vec<u64> = (1..=100).collect();
    let mut peak = 0;
    let mut out = run(input.len(), 7, |i| Outcome::<u64, ()>::Done(input[i] * 2), &mut peak)
        .ok()
        .unwrap();
    out.sort();
    assert_eq!(out, (1..=100).map(|x| x * 2).collect::<Vec<u64>>());
}

#[test]
fn the_one_failure_is_returned() {
    let mut started = 0;
    let mut peak = 0;
    let r = run(
        100,
        3,
        |i| {
            started += 1;
            if i == 40 {
                Outcome::<usize, String>::Failed(format!("item {i} failed"))
            } else {
                Outcome::Done(i)
            }
        },
        &mut peak,
    );
    match r {
        Err(RunError::Failed(e)) => assert_eq!(e, "item 40 failed"),
        _ => panic!("expected the failure"),
    }
    // nothing starts after the failure beyond what was already in flight
    assert!(started <= 41 + 3);
}

#[test]
fn first_error_wins_and_later_ones_are_dropped() {
    let mut w: Window<u8, &str> = Window::new(3, 3);
    let a = w.start_next().unwrap();
    let b = w.start_next().unwrap();
    let c = w.start_next().unwrap();
    assert_eq!(w.start_next(), None);
    w.complete(b, Outcome::Failed("first"));
    assert_eq!(w.start_next(), None);
    w.complete(a, Outcome::Failed("second"));
    assert!(!w.is_finished());
    w.complete(c, Outcome::Done(1));
    assert!(w.is_finished());
    match w.into_result() {
        Err(RunError::Failed(e)) => assert_eq!(e, "first"),
        _ => panic!("expected the first error"),
    }
}

#[test]
fn a_crash_is_its_own_error() {
    let mut w: Window<u8, &str> = Window::new(2, 1);
    let a = w.start_next().unwrap();
    assert_eq!(w.start_next(), None);
    w.complete(a, Outcome::Crashed);
    assert!(w.is_finished());
    assert!(matches!(w.into_result(), Err(RunError::Crashed)));
}

#[test]
fn empty_batch_finishes_at_once() {
    let mut w: Window<u8, ()> = Window::new(0, 4);
    assert_eq!(w.start_next(), None);
    assert!(w.is_finished());
    assert_eq!(w.into_result().ok(), Some(vec![]));
}

#[test]
fn chunked_window_waits_for_the_whole_chunk() {
    let mut w: Window<usize, ()> = Window::chunked(5, 2);
    assert_eq!(w.start_next(), Some(0));
    assert_eq!(w.start_next(), Some(1));
    assert_eq!(w.start_next(), None);
    w.complete(0, Outcome::Done(0));
    // one of the chunk is still in flight: nothing new starts
    assert_eq!(w.start_next(), None);
    w.complete(1, Outcome::Done(1));
    assert_eq!(w.start_next(), Some(2));
    assert_eq!(w.start_next(), Some(3));
    assert_eq!(w.start_next(), None);
    w.complete(3, Outcome::Done(3));
    w.complete(2, Outcome::Done(2));
    assert_eq!(w.start_next(), Some(4));
    assert_eq!(w.start_next(), None);
    w.complete(4, Outcome::Done(4));
    assert!(w.is_finished());
    let mut out = w.into_result().ok().unwrap();
    out.sort();
    assert_eq!(out, vec![0, 1, 2, 3, 4]);
}

use raytracer::frame::Frame;
use raytracer::nearest::{choose_root, nearest, Root};
use raytracer::schedule::{Job, Schedule};
use raytracer::trace::{Outcome, Step, Tracer};

#[test]
fn nearest_of_nothing_is_none() {
    assert_eq!(nearest(&vec![]), None);
    assert_eq!(nearest(&vec![None, None, None]), None);
}

#[test]
fn nearest_skips_misses() {
    assert_eq!(nearest(&vec![None, Some(7), None]), Some(1));
}

#[test]
fn nearest_picks_least_key() {
    assert_eq!(nearest(&vec![Some(9), None, Some(3), Some(5)]), Some(2));
}

#[test]
fn nearest_keeps_first_on_ties() {
    assert_eq!(nearest(&vec![None, Some(4), Some(4), Some(6)]), Some(1));
}

#[test]
fn nearest_of_two_overlapping_spheres_is_the_nearer() {
    // Distances along one ray to two spheres, keyed by their bit patterns.
    let near = 0.5f32;
    let far = 1.5f32;
    assert_eq!(nearest(&vec![Some(far.to_bits()), Some(near.to_bits())]), Some(1));
    assert_eq!(nearest(&vec![Some(near.to_bits()), Some(far.to_bits())]), Some(0));
}

#[test]
fn root_choice_cases() {
    assert_eq!(choose_root(None, None), None);
    assert_eq!(choose_root(Some(3), None), Some(Root::Far));
    assert_eq!(choose_root(None, Some(3)), Some(Root::Near));
    assert_eq!(choose_root(Some(5), Some(2)), Some(Root::Near));
    assert_eq!(choose_root(Some(2), Some(5)), Some(Root::Far));
    assert_eq!(choose_root(Some(4), Some(4)), Some(Root::Far));
}

#[test]
fn root_choice_on_real_distances() {
    let t1 = 1.5f32;
    let t2 = 0.5f32;
    assert_eq!(choose_root(Some(t1.to_bits()), Some(t2.to_bits())), Some(Root::Near));
}

#[test]
fn zero_depth_is_black() {
    let t = Tracer::new(0);
    assert_eq!(t.step(), Step::Done(Outcome::Black));
}

#[test]
fn miss_at_once_is_sky_without_bounces() {
    let mut t = Tracer::new(7);
    assert_eq!(t.step(), Step::Probe);
    assert_eq!(t.record(false), Some(Outcome::Sky { bounces: 0 }));
}

#[test]
fn hits_spend_the_budget() {
    let mut t = Tracer::new(2);
    assert_eq!(t.step(), Step::Probe);
    assert_eq!(t.record(true), None);
    assert_eq!(t.bounces, 1);
    assert_eq!(t.step(), Step::Probe);
    assert_eq!(t.record(true), None);
    assert_eq!(t.step(), Step::Done(Outcome::Black));
}

#[test]
fn miss_after_bounces_counts_them() {
    let mut t = Tracer::new(3);
    assert_eq!(t.record(true), None);
    assert_eq!(t.record(true), None);
    assert_eq!(t.step(), Step::Probe);
    assert_eq!(t.record(false), Some(Outcome::Sky { bounces: 2 }));
}

#[test]
fn frame_starts_filled() {
    let f = Frame::new(3, 2, 7u32);
    assert_eq!(f.width(), 3);
    assert_eq!(f.height(), 2);
    for row in 0..2 {
        for col in 0..3 {
            assert_eq!(f.get(row, col), 7);
        }
    }
}

#[test]
fn frame_set_touches_one_cell() {
    let mut f = Frame::new(3, 2, 0u32);
    f.set(1, 2, 5);
    f.set(0, 1, 4);
    assert_eq!(f.get(1, 2), 5);
    assert_eq!(f.get(0, 1), 4);
    assert_eq!(f.get(0, 2), 0);
    assert_eq!(f.get(1, 1), 0);
}

#[test]
fn frame_accumulates_samples() {
    let mut f = Frame::new(2, 2, 0.0f32);
    for _ in 0..4 {
        let c = f.get(1, 0);
        f.set(1, 0, c + 0.25);
    }
    assert_eq!(f.get(1, 0), 1.0);
    assert_eq!(f.get(0, 0), 0.0);
}

#[test]
fn frame_rows_are_flipped_on_screen() {
    let f = Frame::new(4, 5, 0u8);
    assert_eq!(f.screen_line(0), 4);
    assert_eq!(f.screen_line(4), 0);
    assert_eq!(f.screen_line(2), 2);
}

#[test]
fn schedule_walks_every_pixel_each_pass() {
    let mut s = Schedule::new(2, 1, 2);
    let mut jobs = Vec::new();
    loop {
        let j = s.next();
        jobs.push(j);
        if j == Job::Finished {
            break;
        }
    }
    assert_eq!(
        jobs,
        vec![
            Job::Trace { pass: 0, row: 0, col: 0 },
            Job::Trace { pass: 0, row: 0, col: 1 },
            Job::Present { samples: 1 },
            Job::Trace { pass: 1, row: 0, col: 0 },
            Job::Trace { pass: 1, row: 0, col: 1 },
            Job::Present { samples: 2 },
            Job::Finished,
        ]
    );
    assert_eq!(s.next(), Job::Finished);
}

#[test]
fn schedule_goes_row_by_row() {
    let mut s = Schedule::new(1, 3, 1);
    assert_eq!(s.next(), Job::Trace { pass: 0, row: 0, col: 0 });
    assert_eq!(s.next(), Job::Trace { pass: 0, row: 1, col: 0 });
    assert_eq!(s.next(), Job::Trace { pass: 0, row: 2, col: 0 });
    assert_eq!(s.next(), Job::Present { samples: 1 });
    assert_eq!(s.next(), Job::Finished);
}

#[test]
fn schedule_of_empty_frame_only_presents() {
    let mut s = Schedule::new(0, 3, 2);
    assert_eq!(s.next(), Job::Present { samples: 1 });
    assert_eq!(s.next(), Job::Present { samples: 2 });
    assert_eq!(s.next(), Job::Finished);
}

#[test]
fn schedule_without_samples_is_finished() {
    let mut s = Schedule::new(4, 4, 0);
    assert_eq!(s.next(), Job::Finished);
}

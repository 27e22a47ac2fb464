use timelapsifier::files::{listed_videos, TimestampedFile};
use timelapsifier::pass::{
    after_encode, archive_moves, archive_report, output_video_path, plan_day_jobs,
};
use timelapsifier::timestamp::Timestamp;

fn when(year: u32, month: u32, day: u32, hour: u32, minute: u32, second: u32) -> Timestamp {
    Timestamp { year, month, day, hour, minute, second }
}

fn img(path: &str, t: Timestamp) -> TimestampedFile {
    TimestampedFile { file: String::from(path), timestamp: t }
}

fn sample_candidates() -> Vec<TimestampedFile> {
    vec![
        img("up/2022-07-13_10-50-50.jpg", when(2022, 7, 13, 10, 50, 50)),
        img("up/2022-07-12_05-30-26.jpg", when(2022, 7, 12, 5, 30, 26)),
        img("up/2022-07-12_05-30-25.jpg", when(2022, 7, 12, 5, 30, 25)),
    ]
}

#[test]
fn a_pass_plans_one_job_per_completed_day() {
    let jobs = plan_day_jobs(sample_candidates(), when(2022, 7, 14, 0, 0, 0));
    assert_eq!(jobs.len(), 2);
    assert_eq!(jobs[0].day, when(2022, 7, 12, 0, 0, 0));
    assert_eq!(jobs[0].files.len(), 2);
    assert_eq!(jobs[0].files[0].file, "up/2022-07-12_05-30-25.jpg");
    assert_eq!(jobs[1].day, when(2022, 7, 13, 0, 0, 0));
}

#[test]
fn a_pass_never_plans_the_current_day() {
    let jobs = plan_day_jobs(sample_candidates(), when(2022, 7, 13, 23, 59, 59));
    assert_eq!(jobs.len(), 1);
    assert_eq!(jobs[0].day, when(2022, 7, 12, 0, 0, 0));
    let none = plan_day_jobs(sample_candidates(), when(2022, 7, 12, 5, 30, 25));
    assert_eq!(none.len(), 0);
}

#[test]
fn a_failed_day_is_planned_again_next_pass() {
    let first = plan_day_jobs(sample_candidates(), when(2022, 7, 14, 0, 0, 0));
    // The encoder fails on the first day: nothing of it is archived.
    assert!(after_encode(&first[0], false, "processed").is_none());
    // The second day encoded; its images leave the unprocessed folder.
    let archived = after_encode(&first[1], true, "processed").unwrap();
    let mut remaining = sample_candidates();
    remaining.retain(|f| !archived.iter().any(|m| m.src == f.file));
    // The next pass finds the failed day's images untouched and plans the
    // same job again.
    let second = plan_day_jobs(remaining, when(2022, 7, 15, 1, 0, 0));
    assert_eq!(second.len(), 1);
    assert_eq!(second[0].day, first[0].day);
    assert_eq!(second[0].files.len(), first[0].files.len());
    for (a, b) in second[0].files.iter().zip(first[0].files.iter()) {
        assert_eq!(a.file, b.file);
    }
}

#[test]
fn archive_moves_keep_the_base_name() {
    let moves = archive_moves(&sample_candidates(), "processed/herbs/webcam");
    assert_eq!(moves.len(), 3);
    assert_eq!(moves[0].src, "up/2022-07-13_10-50-50.jpg");
    assert_eq!(moves[0].dst, "processed/herbs/webcam/2022-07-13_10-50-50.jpg");
}

#[test]
fn archive_reports_split_moved_from_failed() {
    let moves = archive_moves(&sample_candidates(), "processed");
    let report = archive_report(&moves, &vec![true, false, true]);
    assert_eq!(report.moved.len(), 2);
    assert_eq!(report.failed.len(), 1);
    assert_eq!(report.moved[0].src, "up/2022-07-13_10-50-50.jpg");
    assert_eq!(report.failed[0].src, "up/2022-07-12_05-30-26.jpg");
    assert_eq!(report.moved[1].src, "up/2022-07-12_05-30-25.jpg");
}

#[test]
fn rearchiving_plans_the_same_moves() {
    // Re-running the archiver over the same day plans the very same moves,
    // so sources already gone are simply found done and nothing piles up.
    let first = archive_moves(&sample_candidates(), "processed");
    let again = archive_moves(&sample_candidates(), "processed");
    assert_eq!(first.len(), again.len());
    for (a, b) in first.iter().zip(again.iter()) {
        assert_eq!(a.src, b.src);
        assert_eq!(a.dst, b.dst);
    }
    // An attempt whose sources were all already archived reports no failure.
    let report = archive_report(&again, &vec![true, true, true]);
    assert_eq!(report.moved.len(), 3);
    assert_eq!(report.failed.len(), 0);
}

#[test]
fn output_clips_are_named_by_their_day() {
    let p = output_video_path("output_mp4/days", &when(2022, 7, 12, 0, 0, 0));
    assert_eq!(p, "output_mp4/days/2022-07-12.mp4");
}

#[test]
fn equal_timestamps_keep_their_order_inside_a_bucket() {
    // The bucket half of stability: files sharing one timestamp stand in
    // their bucket exactly as among the candidates.
    let t = when(2022, 7, 12, 5, 30, 25);
    let cands = vec![
        img("up/later/2022-07-13_00-00-00.jpg", when(2022, 7, 13, 0, 0, 0)),
        img("first/2022-07-12_05-30-25.jpg", t),
        img("second/2022-07-12_05-30-25.jpg", t),
    ];
    let jobs = plan_day_jobs(cands, when(2022, 7, 14, 0, 0, 0));
    assert_eq!(jobs.len(), 2);
    assert_eq!(jobs[0].day, when(2022, 7, 12, 0, 0, 0));
    assert_eq!(jobs[0].files[0].file, "first/2022-07-12_05-30-25.jpg");
    assert_eq!(jobs[0].files[1].file, "second/2022-07-12_05-30-25.jpg");
}

#[test]
fn the_pass_own_clips_end_up_listed() {
    // Every clip a pass writes is found again by the listing helper, under
    // the day it was encoded for.
    let jobs = plan_day_jobs(sample_candidates(), when(2022, 7, 14, 0, 0, 0));
    let mut written = Vec::new();
    for job in &jobs {
        written.push(output_video_path("output_mp4/days", &job.day));
    }
    let listed = listed_videos(written);
    assert_eq!(listed.len(), jobs.len());
    for (v, job) in listed.iter().zip(jobs.iter()) {
        assert_eq!(v.timestamp, job.day);
    }
}

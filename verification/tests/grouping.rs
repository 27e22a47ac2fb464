use timelapsifier::files::TimestampedFile;
use timelapsifier::grouping::{floor_to_day, group_by_day, images_before_day_of};
use timelapsifier::sorting::sort_files_by_timestamp;
use timelapsifier::timestamp::Timestamp;

fn at(year: u32, month: u32, day: u32, hour: u32, minute: u32, second: u32) -> Timestamp {
    Timestamp { year, month, day, hour, minute, second }
}

fn shot(path: &str, t: Timestamp) -> TimestampedFile {
    TimestampedFile { file: String::from(path), timestamp: t }
}

fn two_day_candidates() -> Vec<TimestampedFile> {
    vec![
        shot("up/2022-07-13_10-50-50.jpg", at(2022, 7, 13, 10, 50, 50)),
        shot("up/2022-07-12_05-30-26.jpg", at(2022, 7, 12, 5, 30, 26)),
        shot("up/2022-07-12_05-30-25.jpg", at(2022, 7, 12, 5, 30, 25)),
    ]
}

#[test]
fn floor_zeroes_the_time_of_day() {
    assert_eq!(floor_to_day(&at(2022, 7, 12, 5, 30, 25)), at(2022, 7, 12, 0, 0, 0));
}

#[test]
fn sorting_is_ascending_by_timestamp() {
    let mut files = two_day_candidates();
    sort_files_by_timestamp(&mut files);
    assert_eq!(files[0].file, "up/2022-07-12_05-30-25.jpg");
    assert_eq!(files[1].file, "up/2022-07-12_05-30-26.jpg");
    assert_eq!(files[2].file, "up/2022-07-13_10-50-50.jpg");
}

#[test]
fn sorting_keeps_equal_timestamps_in_input_order() {
    let t = at(2022, 7, 12, 5, 30, 25);
    let mut files = vec![
        shot("up/later.jpg", at(2022, 7, 13, 0, 0, 0)),
        shot("first/2022-07-12_05-30-25.jpg", t),
        shot("second/2022-07-12_05-30-25.jpg", t),
    ];
    sort_files_by_timestamp(&mut files);
    assert_eq!(files[0].file, "first/2022-07-12_05-30-25.jpg");
    assert_eq!(files[1].file, "second/2022-07-12_05-30-25.jpg");
    assert_eq!(files[2].file, "up/later.jpg");
}

#[test]
fn no_groups_before_the_first_day() {
    let mut files = two_day_candidates();
    sort_files_by_timestamp(&mut files);
    let before = images_before_day_of(files, at(2022, 7, 12, 5, 30, 25));
    assert_eq!(before.len(), 0);
    let groups = group_by_day(before);
    assert_eq!(groups.len(), 0);
}

#[test]
fn one_group_for_one_completed_day() {
    let mut files = two_day_candidates();
    sort_files_by_timestamp(&mut files);
    let before = images_before_day_of(files, at(2022, 7, 13, 10, 50, 50));
    let groups = group_by_day(before);
    assert_eq!(groups.len(), 1);
    assert_eq!(groups[0].day, at(2022, 7, 12, 0, 0, 0));
    assert_eq!(groups[0].files.len(), 2);
}

#[test]
fn two_groups_for_two_completed_days() {
    let mut files = two_day_candidates();
    sort_files_by_timestamp(&mut files);
    let before = images_before_day_of(files, at(2022, 7, 14, 0, 0, 0));
    let groups = group_by_day(before);
    assert_eq!(groups.len(), 2);
    assert_eq!(groups[0].day, at(2022, 7, 12, 0, 0, 0));
    assert_eq!(groups[0].files.len(), 2);
    assert_eq!(groups[0].files[0].file, "up/2022-07-12_05-30-25.jpg");
    assert_eq!(groups[0].files[1].file, "up/2022-07-12_05-30-26.jpg");
    assert_eq!(groups[1].day, at(2022, 7, 13, 0, 0, 0));
    assert_eq!(groups[1].files.len(), 1);
    assert_eq!(groups[1].files[0].file, "up/2022-07-13_10-50-50.jpg");
}

#[test]
fn still_two_groups_much_later() {
    let mut files = two_day_candidates();
    sort_files_by_timestamp(&mut files);
    let before = images_before_day_of(files, at(2025, 1, 1, 0, 0, 0));
    let groups = group_by_day(before);
    assert_eq!(groups.len(), 2);
}

#[test]
fn grouping_the_flattened_groups_changes_nothing() {
    let mut files = two_day_candidates();
    sort_files_by_timestamp(&mut files);
    let before = images_before_day_of(files, at(2025, 1, 1, 0, 0, 0));
    let groups = group_by_day(before);

    let mut flattened: Vec<TimestampedFile> = Vec::new();
    for g in &groups {
        for f in &g.files {
            flattened.push(f.clone());
        }
    }
    let again = group_by_day(flattened);

    assert_eq!(again.len(), groups.len());
    for (a, b) in again.iter().zip(groups.iter()) {
        assert_eq!(a.day, b.day);
        assert_eq!(a.files.len(), b.files.len());
        for (fa, fb) in a.files.iter().zip(b.files.iter()) {
            assert_eq!(fa.file, fb.file);
            assert_eq!(fa.timestamp, fb.timestamp);
        }
    }
}

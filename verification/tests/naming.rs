use timelapsifier::filename::{parse_day, parse_timestamp};
use timelapsifier::files::TimestampedFile;
use timelapsifier::naming::{
    ffmpeg_args, ffmpeg_manifest, format_day, human_time, join_path, video_file_name,
};
use timelapsifier::timestamp::Timestamp;

fn date(year: u32, month: u32, day: u32) -> Timestamp {
    Timestamp { year, month, day, hour: 0, minute: 0, second: 0 }
}

#[test]
fn day_names_are_zero_padded() {
    assert_eq!(format_day(&date(2022, 7, 12)), "2022-07-12");
    assert_eq!(format_day(&date(987, 3, 4)), "0987-03-04");
    assert_eq!(format_day(&date(2022, 12, 31)), "2022-12-31");
}

#[test]
fn capture_names_parse_back() {
    let t = Timestamp { year: 2022, month: 7, day: 12, hour: 5, minute: 30, second: 25 };
    let stem = human_time(&t);
    assert_eq!(stem, "2022-07-12_05-30-25");
    let named = format!("{stem}.jpg");
    assert_eq!(parse_timestamp(&named), Ok(t));
}

#[test]
fn video_names_carry_the_day() {
    assert_eq!(video_file_name(&date(2022, 7, 12)), "2022-07-12.mp4");
}

#[test]
fn video_names_parse_back() {
    let d = date(2022, 7, 12);
    assert_eq!(parse_day(&video_file_name(&d)), Ok(d));
    let padded = date(987, 3, 4);
    assert_eq!(parse_day(&video_file_name(&padded)), Ok(padded));
}

#[test]
fn paths_join_with_one_slash() {
    assert_eq!(join_path("output_mp4/days", "2022-07-12.mp4"), "output_mp4/days/2022-07-12.mp4");
}

#[test]
fn the_manifest_lists_each_image_in_order() {
    let images = vec![
        TimestampedFile {
            file: String::from("up/2022-07-12_05-30-25.jpg"),
            timestamp: Timestamp { year: 2022, month: 7, day: 12, hour: 5, minute: 30, second: 25 },
        },
        TimestampedFile {
            file: String::from("up/2022-07-12_05-30-26.jpg"),
            timestamp: Timestamp { year: 2022, month: 7, day: 12, hour: 5, minute: 30, second: 26 },
        },
    ];
    assert_eq!(
        ffmpeg_manifest(&images),
        "file 'up/2022-07-12_05-30-25.jpg'\nfile 'up/2022-07-12_05-30-26.jpg'\n"
    );
    let none: Vec<TimestampedFile> = Vec::new();
    assert_eq!(ffmpeg_manifest(&none), "");
}

#[test]
fn the_encoder_arguments_are_fixed() {
    let args = ffmpeg_args("images-input.txt", "out/2022-07-12.mp4");
    let want = [
        "-y", "-f", "image2", "-r", "60", "-f", "concat", "-y", "-safe", "0", "-i",
        "images-input.txt", "-vcodec", "libx264", "-crf", "25", "-pix_fmt", "yuv420p",
        "out/2022-07-12.mp4",
    ];
    assert_eq!(args.len(), want.len());
    for (got, expect) in args.iter().zip(want.iter()) {
        assert_eq!(got, expect);
    }
}

use timelapsifier::files::{
    candidates, extension_of, file_name_of, files_of_ext_in, listed_videos, DirEntry,
};
use timelapsifier::timestamp::Timestamp;

fn entry(path: &str, is_file: bool) -> DirEntry {
    DirEntry { path: String::from(path), is_file }
}

#[test]
fn file_name_is_the_last_component() {
    assert_eq!(file_name_of("a/b/c.jpg"), "c.jpg");
    assert_eq!(file_name_of("c.jpg"), "c.jpg");
    assert_eq!(file_name_of("a/b/"), "");
    assert_eq!(file_name_of(""), "");
}

#[test]
fn extension_is_after_the_last_dot() {
    assert_eq!(extension_of("a.tar.gz"), Some(String::from("gz")));
    assert_eq!(extension_of("clip.MP4"), Some(String::from("MP4")));
    assert_eq!(extension_of("x."), Some(String::from("")));
    assert_eq!(extension_of(".hidden"), None);
    assert_eq!(extension_of("noext"), None);
    assert_eq!(extension_of(""), None);
}

#[test]
fn candidates_keep_only_parsing_regular_files() {
    let listing = vec![
        entry("up/2022-07-12_05-30-25.jpg", true),
        entry("up/notes.txt", true),
        entry("up/2022-07-13_10-50-50.jpg", false),
        entry("up/2022-07-13_10-50-50.jpg", true),
        entry("up/2022-13-01_00-00-00.jpg", true),
    ];
    let got = candidates(listing);
    assert_eq!(got.len(), 2);
    assert_eq!(got[0].file, "up/2022-07-12_05-30-25.jpg");
    assert_eq!(got[0].timestamp.day, 12);
    assert_eq!(got[1].file, "up/2022-07-13_10-50-50.jpg");
    assert_eq!(got[1].timestamp.day, 13);
}

#[test]
fn files_of_ext_in_folds_only_the_file_side() {
    let listing = vec![
        entry("out/a.JPG", true),
        entry("out/b.jpg", true),
        entry("out/c.png", true),
        entry("out/d.jpg", false),
        entry("out/noext", true),
        entry("out/clip.mp4", true),
    ];
    let exts = vec![String::from("jpg"), String::from("mp4")];
    let got = files_of_ext_in(listing, &exts);
    assert_eq!(got, vec!["out/a.JPG", "out/b.jpg", "out/clip.mp4"]);
}

#[test]
fn files_of_ext_in_takes_wanted_extensions_as_given() {
    // The file's extension is lowercased before the comparison; the wanted
    // list is not, so an upper-case entry matches nothing.
    let listing = vec![entry("out/a.JPG", true), entry("out/b.jpg", true)];
    let exts = vec![String::from("JPG")];
    let got = files_of_ext_in(listing, &exts);
    assert_eq!(got.len(), 0);
}

#[test]
fn listed_videos_carry_their_day() {
    let paths = vec![
        String::from("out/2022-07-12.mp4"),
        String::from("out/2022-07-13.mp4"),
        String::from("out/notes.txt"),
        String::from("out/2022-07-12_05-30-25.jpg"),
    ];
    let got = listed_videos(paths);
    assert_eq!(got.len(), 2);
    assert_eq!(got[0].file, "out/2022-07-12.mp4");
    assert_eq!(
        got[0].timestamp,
        Timestamp { year: 2022, month: 7, day: 12, hour: 0, minute: 0, second: 0 }
    );
    assert_eq!(got[1].file, "out/2022-07-13.mp4");
}

#[test]
fn listed_videos_skip_days_no_calendar_has() {
    let paths = vec![
        String::from("out/2022-13-01.mp4"),
        String::from("out/2021-02-29.mp4"),
        String::from("out/2020-02-29.mp4"),
    ];
    let got = listed_videos(paths);
    assert_eq!(got.len(), 1);
    assert_eq!(got[0].file, "out/2020-02-29.mp4");
}

//! Names and texts the pipeline writes: the `YYYY-MM-DD` day name, the
//! output video file name, joined paths, the encoder's concatenation
//! manifest, and the encoder's fixed argument list.

use vstd::prelude::*;

use crate::filename::{
    digit_val, is_digit, matches_day_pattern, matches_pattern, pattern_day, pattern_timestamp,
};
use crate::files::TimestampedFile;
use crate::timestamp::Timestamp;

verus! {

/// The character of a decimal digit value.
pub open spec fn digit_char(v: int) -> char {
    if v == 0 {
        '0'
    } else if v == 1 {
        '1'
    } else if v == 2 {
        '2'
    } else if v == 3 {
        '3'
    } else if v == 4 {
        '4'
    } else if v == 5 {
        '5'
    } else if v == 6 {
        '6'
    } else if v == 7 {
        '7'
    } else if v == 8 {
        '8'
    } else {
        '9'
    }
}

/// The ten characters `YYYY-MM-DD` of a date, zero-padded.
pub open spec fn spec_day_name(d: Timestamp) -> Seq<char> {
    seq![
        digit_char(d.year as int / 1000),
        digit_char((d.year as int / 100) % 10),
        digit_char((d.year as int / 10) % 10),
        digit_char(d.year as int % 10),
        '-',
        digit_char(d.month as int / 10),
        digit_char(d.month as int % 10),
        '-',
        digit_char(d.day as int / 10),
        digit_char(d.day as int % 10),
    ]
}

/// The file name of a day's clip: the day name with the video extension.
pub open spec fn spec_video_name(d: Timestamp) -> Seq<char> {
    spec_day_name(d) + seq!['.', 'm', 'p', '4']
}

/// The nineteen characters `YYYY-MM-DD_HH-MM-SS` of an instant: what the
/// uploader writes in front of the extension when it names a capture.
pub open spec fn spec_human_time(t: Timestamp) -> Seq<char> {
    spec_day_name(t) + seq![
        '_',
        digit_char(t.hour as int / 10),
        digit_char(t.hour as int % 10),
        '-',
        digit_char(t.minute as int / 10),
        digit_char(t.minute as int % 10),
        '-',
        digit_char(t.second as int / 10),
        digit_char(t.second as int % 10),
    ]
}

/// One manifest line naming an input image.
pub open spec fn spec_manifest_line(p: Seq<char>) -> Seq<char> {
    "file '"@ + p + "'\n"@
}

/// The whole concatenation manifest: one line per image, in order.
pub open spec fn spec_manifest(files: Seq<TimestampedFile>) -> Seq<char>
    decreases files.len(),
{
    if files.len() == 0 {
        Seq::empty()
    } else {
        spec_manifest(files.drop_last()) + spec_manifest_line(files.last().file@)
    }
}

/// The one-character string of a decimal digit value.
fn digit_str(v: u32) -> (r: &'static str)
    requires
        v < 10,
    ensures
        r@ == seq![digit_char(v as int)],
{
    if v == 0 {
        proof {
            reveal_strlit("0");
            assert("0"@ =~= seq![digit_char(0int)]);
        }
        "0"
    } else if v == 1 {
        proof {
            reveal_strlit("1");
            assert("1"@ =~= seq![digit_char(1int)]);
        }
        "1"
    } else if v == 2 {
        proof {
            reveal_strlit("2");
            assert("2"@ =~= seq![digit_char(2int)]);
        }
        "2"
    } else if v == 3 {
        proof {
            reveal_strlit("3");
            assert("3"@ =~= seq![digit_char(3int)]);
        }
        "3"
    } else if v == 4 {
        proof {
            reveal_strlit("4");
            assert("4"@ =~= seq![digit_char(4int)]);
        }
        "4"
    } else if v == 5 {
        proof {
            reveal_strlit("5");
            assert("5"@ =~= seq![digit_char(5int)]);
        }
        "5"
    } else if v == 6 {
        proof {
            reveal_strlit("6");
            assert("6"@ =~= seq![digit_char(6int)]);
        }
        "6"
    } else if v == 7 {
        proof {
            reveal_strlit("7");
            assert("7"@ =~= seq![digit_char(7int)]);
        }
        "7"
    } else if v == 8 {
        proof {
            reveal_strlit("8");
            assert("8"@ =~= seq![digit_char(8int)]);
        }
        "8"
    } else {
        proof {
            reveal_strlit("9");
            assert("9"@ =~= seq![digit_char(9int)]);
        }
        "9"
    }
}

/// Format a date as `YYYY-MM-DD`, zero-padded.
pub fn format_day(d: &Timestamp) -> (r: String)
    requires
        d.valid_date(),
    ensures
        r@ == spec_day_name(*d),
{
    proof {
        reveal_strlit("-");
    }
    let mut s = String::new();
    s.append(digit_str(d.year / 1000));
    s.append(digit_str((d.year / 100) % 10));
    s.append(digit_str((d.year / 10) % 10));
    s.append(digit_str(d.year % 10));
    s.append("-");
    s.append(digit_str(d.month / 10));
    s.append(digit_str(d.month % 10));
    s.append("-");
    s.append(digit_str(d.day / 10));
    s.append(digit_str(d.day % 10));
    proof {
        assert(s@ =~= spec_day_name(*d));
    }
    s
}

/// Format an instant as `YYYY-MM-DD_HH-MM-SS`, zero-padded: the name stem
/// the uploader gives a capture.
pub fn human_time(t: &Timestamp) -> (r: String)
    requires
        t.valid(),
    ensures
        r@ == spec_human_time(*t),
{
    proof {
        reveal_strlit("_");
        reveal_strlit("-");
    }
    let mut s = format_day(t);
    s.append("_");
    s.append(digit_str(t.hour / 10));
    s.append(digit_str(t.hour % 10));
    s.append("-");
    s.append(digit_str(t.minute / 10));
    s.append(digit_str(t.minute % 10));
    s.append("-");
    s.append(digit_str(t.second / 10));
    s.append(digit_str(t.second % 10));
    proof {
        assert(s@ =~= spec_human_time(*t));
    }
    s
}

/// A decimal digit's character is a digit character and reads back as the
/// same value.
proof fn lemma_digit_char_val(v: int)
    requires
        0 <= v < 10,
    ensures
        is_digit(digit_char(v)),
        digit_val(digit_char(v)) == v,
{
}

/// A name written by [`human_time`] parses back to the very timestamp it
/// was written from, whatever non-empty extension follows the dot.
pub proof fn lemma_human_time_round_trip(t: Timestamp, ext: Seq<char>)
    requires
        t.valid(),
        ext.len() >= 1,
    ensures
        matches_pattern(spec_human_time(t) + seq!['.'] + ext),
        pattern_timestamp(spec_human_time(t) + seq!['.'] + ext) == t,
{
    let name = spec_human_time(t) + seq!['.'] + ext;
    let y = t.year as int;
    assert forall|v: int| 0 <= v < 10 implies is_digit(#[trigger] digit_char(v)) && digit_val(
        digit_char(v),
    ) == v by {
        lemma_digit_char_val(v);
    }
    assert(name.len() == 20 + ext.len());
    assert(name[0] == digit_char(y / 1000));
    assert(name[1] == digit_char((y / 100) % 10));
    assert(name[2] == digit_char((y / 10) % 10));
    assert(name[3] == digit_char(y % 10));
    assert(name[4] == '-');
    assert(name[5] == digit_char(t.month as int / 10));
    assert(name[6] == digit_char(t.month as int % 10));
    assert(name[7] == '-');
    assert(name[8] == digit_char(t.day as int / 10));
    assert(name[9] == digit_char(t.day as int % 10));
    assert(name[10] == '_');
    assert(name[11] == digit_char(t.hour as int / 10));
    assert(name[12] == digit_char(t.hour as int % 10));
    assert(name[13] == '-');
    assert(name[14] == digit_char(t.minute as int / 10));
    assert(name[15] == digit_char(t.minute as int % 10));
    assert(name[16] == '-');
    assert(name[17] == digit_char(t.second as int / 10));
    assert(name[18] == digit_char(t.second as int % 10));
    assert(name[19] == '.');
    assert(1000 * (y / 1000) + 100 * ((y / 100) % 10) + 10 * ((y / 10) % 10) + y % 10 == y) by (
    nonlinear_arith)
        requires
            0 <= y <= 9999,
    ;
    assert(10 * (t.month as int / 10) + t.month as int % 10 == t.month as int) by (nonlinear_arith)
        requires
            0 <= t.month as int <= 12,
    ;
    assert(10 * (t.day as int / 10) + t.day as int % 10 == t.day as int) by (nonlinear_arith)
        requires
            0 <= t.day as int <= 31,
    ;
    assert(10 * (t.hour as int / 10) + t.hour as int % 10 == t.hour as int) by (nonlinear_arith)
        requires
            0 <= t.hour as int <= 23,
    ;
    assert(10 * (t.minute as int / 10) + t.minute as int % 10 == t.minute as int) by (
    nonlinear_arith)
        requires
            0 <= t.minute as int <= 59,
    ;
    assert(10 * (t.second as int / 10) + t.second as int % 10 == t.second as int) by (
    nonlinear_arith)
        requires
            0 <= t.second as int <= 59,
    ;
}

/// A clip name written by [`video_file_name`] parses back, through the
/// day-clip pattern, to the very day it was written from: what a produced
/// clip is named, the listing helper reads.
pub proof fn lemma_video_name_round_trip(d: Timestamp)
    requires
        d.valid_date(),
        d.hour == 0 && d.minute == 0 && d.second == 0,
    ensures
        matches_day_pattern(spec_video_name(d)),
        pattern_day(spec_video_name(d)) == d,
{
    let name = spec_video_name(d);
    let y = d.year as int;
    assert forall|v: int| 0 <= v < 10 implies is_digit(#[trigger] digit_char(v)) && digit_val(
        digit_char(v),
    ) == v by {
        lemma_digit_char_val(v);
    }
    assert(name.len() == 14);
    assert(name[0] == digit_char(y / 1000));
    assert(name[1] == digit_char((y / 100) % 10));
    assert(name[2] == digit_char((y / 10) % 10));
    assert(name[3] == digit_char(y % 10));
    assert(name[4] == '-');
    assert(name[5] == digit_char(d.month as int / 10));
    assert(name[6] == digit_char(d.month as int % 10));
    assert(name[7] == '-');
    assert(name[8] == digit_char(d.day as int / 10));
    assert(name[9] == digit_char(d.day as int % 10));
    assert(name[10] == '.');
    assert(1000 * (y / 1000) + 100 * ((y / 100) % 10) + 10 * ((y / 10) % 10) + y % 10 == y) by (
    nonlinear_arith)
        requires
            0 <= y <= 9999,
    ;
    assert(10 * (d.month as int / 10) + d.month as int % 10 == d.month as int) by (nonlinear_arith)
        requires
            0 <= d.month as int <= 12,
    ;
    assert(10 * (d.day as int / 10) + d.day as int % 10 == d.day as int) by (nonlinear_arith)
        requires
            0 <= d.day as int <= 31,
    ;
}

/// The file name of a day's clip, `YYYY-MM-DD.mp4`.
pub fn video_file_name(day: &Timestamp) -> (r: String)
    requires
        day.valid_date(),
    ensures
        r@ == spec_video_name(*day),
{
    proof {
        reveal_strlit(".mp4");
    }
    let mut s = format_day(day);
    s.append(".mp4");
    proof {
        assert(s@ =~= spec_video_name(*day));
    }
    s
}

/// A folder path and a file name joined with a single `/`.
pub fn join_path(folder: &str, name: &str) -> (r: String)
    ensures
        r@ == folder@ + seq!['/'] + name@,
{
    proof {
        reveal_strlit("/");
    }
    let mut s = String::from_str(folder);
    s.append("/");
    s.append(name);
    proof {
        assert(s@ =~= folder@ + seq!['/'] + name@);
    }
    s
}

/// The encoder's concatenation manifest for an ordered list of images:
/// one `file '<path>'` line per image, in the given order.
pub fn ffmpeg_manifest(images: &Vec<TimestampedFile>) -> (r: String)
    ensures
        r@ == spec_manifest(images@),
{
    let mut s = String::new();
    let mut i: usize = 0;
    proof {
        assert(images@.take(0) =~= Seq::<TimestampedFile>::empty());
    }
    while i < images.len()
        invariant
            i <= images@.len(),
            s@ == spec_manifest(images@.take(i as int)),
        decreases images@.len() - i,
    {
        proof {
            let q = images@.take(i + 1);
            assert(q.drop_last() =~= images@.take(i as int));
            assert(q.last() == images@[i as int]);
        }
        s.append("file '");
        s.append(images[i].file.as_str());
        s.append("'\n");
        proof {
            assert(s@ =~= spec_manifest(images@.take(i + 1)));
        }
        i = i + 1;
    }
    proof {
        assert(images@.take(images@.len() as int) =~= images@);
    }
    s
}

/// The encoder's fixed argument list: overwrite, image input at a fixed
/// frame rate, the concatenation manifest as input, and the fixed codec,
/// quality and pixel-format settings, writing the given output.
pub fn ffmpeg_args(manifest_path: &str, output_mp4: &str) -> (r: Vec<String>)
    ensures
        r@.map_values(|a: String| a@) == seq![
            "-y"@,
            "-f"@,
            "image2"@,
            "-r"@,
            "60"@,
            "-f"@,
            "concat"@,
            "-y"@,
            "-safe"@,
            "0"@,
            "-i"@,
            manifest_path@,
            "-vcodec"@,
            "libx264"@,
            "-crf"@,
            "25"@,
            "-pix_fmt"@,
            "yuv420p"@,
            output_mp4@,
        ],
{
    let mut v: Vec<String> = Vec::new();
    v.push(String::from_str("-y"));
    v.push(String::from_str("-f"));
    v.push(String::from_str("image2"));
    v.push(String::from_str("-r"));
    v.push(String::from_str("60"));
    v.push(String::from_str("-f"));
    v.push(String::from_str("concat"));
    v.push(String::from_str("-y"));
    v.push(String::from_str("-safe"));
    v.push(String::from_str("0"));
    v.push(String::from_str("-i"));
    v.push(String::from_str(manifest_path));
    v.push(String::from_str("-vcodec"));
    v.push(String::from_str("libx264"));
    v.push(String::from_str("-crf"));
    v.push(String::from_str("25"));
    v.push(String::from_str("-pix_fmt"));
    v.push(String::from_str("yuv420p"));
    v.push(String::from_str(output_mp4));
    proof {
        assert(v@.map_values(|a: String| a@) =~= seq![
            "-y"@,
            "-f"@,
            "image2"@,
            "-r"@,
            "60"@,
            "-f"@,
            "concat"@,
            "-y"@,
            "-safe"@,
            "0"@,
            "-i"@,
            manifest_path@,
            "-vcodec"@,
            "libx264"@,
            "-crf"@,
            "25"@,
            "-pix_fmt"@,
            "yuv420p"@,
            output_mp4@,
        ]);
    }
    v
}

} // verus!

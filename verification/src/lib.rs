//! A verified core for a daily timelapse assembler.
//!
//! A webcam drops timestamped images into an "unprocessed" folder. Once per
//! night a scheduler pass scans that folder, groups the images of every
//! completed calendar day, has an external encoder turn each group into one
//! video clip, and archives the encoded images. This crate holds the logic of
//! that pipeline — the filename timestamp parser, the stable sort, the day
//! bucketing, the wake-time arithmetic and the archiving decisions — each with
//! a proved contract. The surrounding process (directory scans, the encoder
//! subprocess, file renames, the sleep) stays outside and drives these
//! functions with plain values.

pub mod calendar;
pub mod clock;
pub mod error;
pub mod filename;
pub mod files;
pub mod grouping;
pub mod herbs;
pub mod naming;
pub mod pass;
pub mod seqs;
pub mod sorting;
pub mod timestamp;
pub mod urls;

//! The herb webcam's folders and image checks.
//!
//! The webcam uploads stills of a fixed size into the unprocessed folder;
//! the timelapse job archives them into the processed folder and writes its
//! clips into the output folder. The folder names are fixed relative paths,
//! and an uploaded image is accepted only at exactly 1280 by 720 pixels.

use vstd::prelude::*;

verus! {

/// Where uploaded webcam images arrive, relative to the working directory.
pub fn new_image_output_relative_folder() -> (r: &'static str)
    ensures
        r@ == "upload/herbs/webcam"@,
{
    "upload/herbs/webcam"
}

/// Where archived webcam images go, relative to the working directory.
pub fn processed_image_output_relative_folder() -> (r: &'static str)
    ensures
        r@ == "processed/herbs/webcam"@,
{
    "processed/herbs/webcam"
}

/// Where the day clips go, relative to the working directory.
pub fn timelapse_output_relative_folder() -> (r: &'static str)
    ensures
        r@ == "static/herbs/basil/timelapse/days"@,
{
    "static/herbs/basil/timelapse/days"
}

/// The bearer token needed to post an image: the configured secret when
/// one is set, else the fixed fallback. The caller reads the configuration
/// and should warn whenever the fallback ends up in use.
pub fn new_image_auth(configured: Option<String>) -> (r: String)
    ensures
        match configured {
            Some(s) => r == s,
            None => r@ == "basilisk"@,
        },
{
    match configured {
        Some(s) => s,
        None => String::from_str("basilisk"),
    }
}

/// Why an uploaded image was rejected. The reading and decoding failures
/// carry the underlying message as text.
#[derive(Clone, Debug, PartialEq, Eq)]
pub enum ImageError {
    /// Reading the upload failed.
    Io(String),
    /// Decoding the image failed.
    Image(String),
    /// The image decoded, but not to the webcam's fixed size.
    BadSize { width: u32, height: u32 },
}

/// Accept exactly the webcam's 1280 by 720 frames; anything else is
/// rejected with its actual size.
pub fn check_image_dimensions(width: u32, height: u32) -> (r: Result<(), ImageError>)
    ensures
        r is Ok <==> (width == 1280 && height == 720),
        match r {
            Ok(_) => true,
            Err(ImageError::BadSize { width: w, height: h }) => w == width && h == height,
            Err(_) => false,
        },
{
    if width != 1280 || height != 720 {
        Err(ImageError::BadSize { width, height })
    } else {
        Ok(())
    }
}

} // verus!

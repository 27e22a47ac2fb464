use timelapsifier::herbs::{
    check_image_dimensions, new_image_auth, new_image_output_relative_folder,
    processed_image_output_relative_folder, timelapse_output_relative_folder, ImageError,
};

#[test]
fn the_upload_token_falls_back_when_unset() {
    assert_eq!(new_image_auth(Some(String::from("hunter"))), "hunter");
    assert_eq!(new_image_auth(None), "basilisk");
}

#[test]
fn the_folders_are_fixed_relative_paths() {
    assert_eq!(new_image_output_relative_folder(), "upload/herbs/webcam");
    assert_eq!(processed_image_output_relative_folder(), "processed/herbs/webcam");
    assert_eq!(timelapse_output_relative_folder(), "static/herbs/basil/timelapse/days");
}

#[test]
fn only_the_webcam_size_is_accepted() {
    assert_eq!(check_image_dimensions(1280, 720), Ok(()));
    assert_eq!(
        check_image_dimensions(1280, 721),
        Err(ImageError::BadSize { width: 1280, height: 721 })
    );
    assert_eq!(
        check_image_dimensions(1920, 1080),
        Err(ImageError::BadSize { width: 1920, height: 1080 })
    );
    assert_eq!(
        check_image_dimensions(0, 0),
        Err(ImageError::BadSize { width: 0, height: 0 })
    );
}

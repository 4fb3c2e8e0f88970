use frameflow::mime::mime_for_path;

#[test]
fn known_extensions_classify() {
    assert_eq!(mime_for_path("/videos/clip.mp4"), "video/mp4");
    assert_eq!(mime_for_path("/images/shot.png"), "image/png");
    assert_eq!(mime_for_path("photo.jpg"), "image/jpeg");
    assert_eq!(mime_for_path("photo.jpeg"), "image/jpeg");
    assert_eq!(mime_for_path("song.mp3"), "audio/mpeg");
    assert_eq!(mime_for_path("take.wav"), "audio/wav");
}

#[test]
fn unknown_extension_falls_back_to_binary() {
    assert_eq!(mime_for_path("data.xyz"), "application/octet-stream");
}

#[test]
fn classification_is_case_insensitive() {
    assert_eq!(mime_for_path("CLIP.MP4"), "video/mp4");
    assert_eq!(mime_for_path("Shot.PnG"), "image/png");
}

#[test]
fn missing_extension_falls_back_to_binary() {
    assert_eq!(mime_for_path("/videos/clip"), "application/octet-stream");
    assert_eq!(mime_for_path(""), "application/octet-stream");
}

#[test]
fn leading_dot_names_have_no_extension() {
    assert_eq!(mime_for_path("/home/.png"), "application/octet-stream");
}

#[test]
fn trailing_dot_is_an_empty_extension() {
    assert_eq!(mime_for_path("clip."), "application/octet-stream");
}

#[test]
fn dot_in_a_directory_is_not_an_extension() {
    assert_eq!(mime_for_path("/media.mp4/clip"), "application/octet-stream");
}

#[test]
fn only_the_last_dot_counts() {
    assert_eq!(mime_for_path("archive.tar.mp4"), "video/mp4");
}

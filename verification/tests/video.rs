use nexus::media::{FileDetails, FileVariant, VideoProcessor};

fn make_file_details(content_type: &str) -> FileDetails {
    FileDetails { content_type: content_type.to_string(), ..Default::default() }
}

#[test]
fn test_get_content_type_for_variant_mp4() {
    let file = make_file_details("video/mp4");
    assert_eq!(
        VideoProcessor::get_content_type_for_variant(&file, &FileVariant::Main),
        "video/mp4"
    );
}

#[test]
fn test_get_content_type_for_variant_webm() {
    let file = make_file_details("video/webm");
    assert_eq!(
        VideoProcessor::get_content_type_for_variant(&file, &FileVariant::Main),
        "video/webm"
    );
}

#[test]
fn test_get_content_type_for_variant_quicktime() {
    let file = make_file_details("video/quicktime");
    assert_eq!(
        VideoProcessor::get_content_type_for_variant(&file, &FileVariant::Main),
        "video/quicktime"
    );
}

#[test]
fn test_video_variants_and_options() {
    let variants = VideoProcessor::get_valid_variants_for_content_type("video/mp4");
    assert_eq!(variants.len(), 1);
    assert!(matches!(variants[0], FileVariant::Main));
    let file = make_file_details("video/mp4");
    assert!(VideoProcessor::get_options_for_variant(&file, &FileVariant::Main).is_err());
}

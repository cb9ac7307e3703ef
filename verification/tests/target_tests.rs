use streamdl::errors::DownloadError;
use streamdl::target::{completion_line, derive_file_name, DownloadTarget};

#[test]
fn file_name_is_the_last_segment() {
    assert_eq!(derive_file_name("https://example.test/a/b/photo.jpg"), "photo.jpg");
    assert_eq!(derive_file_name("https://example.test/one"), "one");
}

#[test]
fn file_name_without_any_slash_is_the_whole_url() {
    assert_eq!(derive_file_name("plainname"), "plainname");
}

#[test]
fn empty_last_segment_falls_back() {
    assert_eq!(derive_file_name(""), "downloaded_file");
    assert_eq!(derive_file_name("https://example.test/a/"), "downloaded_file");
}

#[test]
fn target_names_its_destination() {
    let target = DownloadTarget { url: "https://example.test/a/b/photo.jpg".to_string() };
    assert_eq!(target.file_name(), "photo.jpg");
}

#[test]
fn completion_line_names_source_and_destination() {
    let line = completion_line("https://example.test/a/b/photo.jpg", "photo.jpg");
    assert_eq!(line, "Downloaded https://example.test/a/b/photo.jpg to photo.jpg");
    assert!(line.ends_with("Downloaded https://example.test/a/b/photo.jpg to photo.jpg"));
}

#[test]
fn each_failure_has_a_descriptive_message() {
    let url = "https://example.test/woof.json";
    assert_eq!(
        DownloadError::MetadataFetchError.describe(url),
        "Failed to fetch metadata from 'https://example.test/woof.json'"
    );
    assert_eq!(
        DownloadError::MissingContentLength.describe(url),
        "Failed to get content length from 'https://example.test/woof.json'"
    );
    assert_eq!(DownloadError::StreamReadError.describe(url), "Error while downloading file");
    assert_eq!(DownloadError::SinkWriteError.describe(url), "Error while writing to file");
}

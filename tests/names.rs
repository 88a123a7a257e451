use dlm::{filter_name, join_path, validate_url, InvalidUrl};

#[test]
fn filter_name_strips_separators_and_trims() {
    assert_eq!(filter_name("https://example.com/a.bin".to_string()), "httpsexamplecomabin");
    assert_eq!(filter_name("  a\\b:c/d.e  ".to_string()), "abcde");
    assert_eq!(filter_name(" . / x y ".to_string()), "x y");
    assert_eq!(filter_name("".to_string()), "");
    assert_eq!(filter_name("./:\\".to_string()), "");
    assert_eq!(filter_name("\u{3000}ü.ñ\t".to_string()), "üñ");
}

#[test]
fn join_path_places_name_in_directory() {
    assert_eq!(join_path("/home/u/Downloads", "file"), "/home/u/Downloads/file");
    assert_eq!(join_path("/home/u/Downloads/", "file"), "/home/u/Downloads/file");
    assert_eq!(join_path("", "file"), "file");
    assert_eq!(join_path("dir", ""), "dir/");
}

#[test]
fn validate_url_accepts_absolute_urls_only() {
    assert_eq!(validate_url("https://example.com/a.bin"), Ok(()));
    assert_eq!(validate_url("ftp://host/x"), Ok(()));
    assert_eq!(validate_url("not a url"), Err(InvalidUrl));
    assert_eq!(validate_url(""), Err(InvalidUrl));
    assert_eq!(validate_url("example.com/a.bin"), Err(InvalidUrl));
}

use sfs::file::get_content_type;

#[test]
fn css_extension() {
    assert_eq!(get_content_type("style.css"), "text/css");
}

#[test]
fn html_extension() {
    assert_eq!(get_content_type("index.html"), "text/html");
}

#[test]
fn jpg_extension() {
    assert_eq!(get_content_type("photo.jpg"), "image/jpeg");
}

#[test]
fn jpeg_extension() {
    assert_eq!(get_content_type("photo.jpeg"), "image/jpeg");
}

#[test]
fn js_extension() {
    assert_eq!(get_content_type("app.js"), "text/javascript");
}

#[test]
fn md_extension() {
    assert_eq!(get_content_type("README.md"), "text/markdown");
}

#[test]
fn png_extension() {
    assert_eq!(get_content_type("logo.png"), "image/png");
}

#[test]
fn svg_extension() {
    assert_eq!(get_content_type("icon.svg"), "image/svg+xml");
}

#[test]
fn txt_extension() {
    assert_eq!(get_content_type("notes.txt"), "text/plain");
}

#[test]
fn extension_case_is_ignored() {
    assert_eq!(get_content_type("STYLE.CSS"), "text/css");
    assert_eq!(get_content_type("photo.JpEg"), "image/jpeg");
    assert_eq!(get_content_type("page.Html"), "text/html");
}

#[test]
fn unknown_extension_is_octet_stream() {
    assert_eq!(get_content_type("archive.zip"), "application/octet-stream");
    assert_eq!(get_content_type("data.tar.gz"), "application/octet-stream");
}

#[test]
fn missing_extension_is_octet_stream() {
    assert_eq!(get_content_type("Makefile"), "application/octet-stream");
    assert_eq!(get_content_type(""), "application/octet-stream");
}

#[test]
fn dotfile_has_no_extension() {
    assert_eq!(get_content_type(".bashrc"), "application/octet-stream");
    assert_eq!(get_content_type("dir/.hidden"), "application/octet-stream");
}

#[test]
fn trailing_dot_is_empty_extension() {
    assert_eq!(get_content_type("weird."), "application/octet-stream");
}

#[test]
fn dot_in_directory_is_not_an_extension() {
    assert_eq!(get_content_type("site.d/page"), "application/octet-stream");
    assert_eq!(get_content_type("site.d/page.html"), "text/html");
}

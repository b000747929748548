use oxidize_docx_core::images::metadata::detect_content_type;

#[test]
fn png_signature_is_recognised() {
    let png = b"\x89PNG\r\n\x1a\n\x00\x00\x00\x0DIHDR";
    assert_eq!(detect_content_type(png), "image/png");
}

#[test]
fn jpeg_soi_marker_is_recognised() {
    let jpeg = b"\xff\xd8\xff\xe0\x00\x10JFIF";
    assert_eq!(detect_content_type(jpeg), "image/jpeg");
}

#[test]
fn gif87a_and_gif89a_are_both_recognised() {
    assert_eq!(detect_content_type(b"GIF87a___"), "image/gif");
    assert_eq!(detect_content_type(b"GIF89a___"), "image/gif");
}

#[test]
fn bmp_signature_is_recognised() {
    assert_eq!(detect_content_type(b"BM\x00\x00\x00\x00rest"), "image/bmp");
}

#[test]
fn webp_recognised_via_riff_container() {
    assert_eq!(detect_content_type(b"RIFF\x24\x00\x00\x00WEBPVP8"), "image/webp");
}

#[test]
fn unknown_prefix_falls_back_to_octet_stream() {
    assert_eq!(detect_content_type(b"definitely not an image"), "application/octet-stream");
}

#[test]
fn empty_input_falls_back_to_octet_stream() {
    assert_eq!(detect_content_type(b""), "application/octet-stream");
}

#[test]
fn riff_without_webp_tag_is_not_webp() {
    assert_eq!(detect_content_type(b"RIFF\x24\x00\x00\x00WAVEfmt "), "application/octet-stream");
}

#[test]
fn truncated_signatures_are_not_recognised() {
    assert_eq!(detect_content_type(b"\x89PN"), "application/octet-stream");
    assert_eq!(detect_content_type(b"\xFF\xD8"), "application/octet-stream");
    assert_eq!(detect_content_type(b"GIF8"), "application/octet-stream");
    assert_eq!(detect_content_type(b"B"), "application/octet-stream");
}

use imgexpr::format::{get_format, get_output_extension, ImageFormat};

#[test]
fn extension_of_plain_names() {
    assert_eq!(get_output_extension("picture.png"), Some("png"));
    assert_eq!(get_output_extension("archive.tar.gz"), Some("gz"));
    assert_eq!(get_output_extension("noext"), None);
}

#[test]
fn extension_looks_at_final_component() {
    assert_eq!(get_output_extension("dir.d/file.jpeg"), Some("jpeg"));
    assert_eq!(get_output_extension("dir.d/file"), None);
}

#[test]
fn extension_of_hidden_and_trailing_dot_names() {
    assert_eq!(get_output_extension(".hidden"), None);
    assert_eq!(get_output_extension("a."), Some(""));
}

#[test]
fn formats_by_extension() {
    assert_eq!(get_format("a.png"), Some(ImageFormat::Png));
    assert_eq!(get_format("a.jpg"), Some(ImageFormat::Jpeg));
    assert_eq!(get_format("b.jpeg"), Some(ImageFormat::Jpeg));
    assert_eq!(get_format("anim.gif"), Some(ImageFormat::Gif));
    assert_eq!(get_format("a.bmp"), Some(ImageFormat::Bmp));
    assert_eq!(get_format("a.ico"), Some(ImageFormat::Ico));
    assert_eq!(get_format("a.tiff"), Some(ImageFormat::Tiff));
    assert_eq!(get_format("a.webp"), Some(ImageFormat::WebP));
    assert_eq!(get_format("a.hdr"), Some(ImageFormat::Hdr));
}

#[test]
fn unknown_or_missing_extension_has_no_format() {
    assert_eq!(get_format("notes.txt"), None);
    assert_eq!(get_format("noext"), None);
    assert_eq!(get_format(".gitignore"), None);
}

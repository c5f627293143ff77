use palettify::naming::output_file_name;

#[test]
fn output_name_is_prefixed() {
    assert_eq!(output_file_name("photo.JPG"), "palettify-photo.JPG");
    assert_eq!(output_file_name(""), "palettify-");
    assert_eq!(output_file_name("ü.png"), "palettify-ü.png");
}

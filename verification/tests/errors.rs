use exif_attrs::exif::{Exif, ExifError, Mode};

#[test]
fn file_not_found_marker_on_error_channel_maps_to_its_kind() {
    let stderr = "Error: File not found - ./missing.jpg\n";
    match Exif::from_text("", stderr, &Mode::All) {
        Err(ExifError::FileNotFound(message)) => {
            assert_eq!(message, "Error: File not found - ./missing.jpg");
        }
        _ => panic!("expected the file-not-found error kind"),
    }
}

#[test]
fn other_error_channel_text_does_not_trigger_file_not_found() {
    let result = Exif::from_text("ISO: 100", "Warning: minor issue\n", &Mode::All);
    let exif = result.expect("a warning on the error channel is not fatal");
    assert_eq!(exif.attributes.get("ISO").unwrap().as_str(), "100");
}

#[test]
fn invalid_utf8_on_stdout_maps_to_decoding_error() {
    match Exif::from_output(vec![0xC3, 0x28], Vec::new(), &Mode::All) {
        Err(ExifError::FromUtf8Error(_)) => {}
        _ => panic!("expected the decoding error kind"),
    }
}

#[test]
fn invalid_utf8_on_stderr_maps_to_decoding_error() {
    match Exif::from_output(b"ISO: 100".to_vec(), vec![0xFF], &Mode::All) {
        Err(ExifError::FromUtf8Error(_)) => {}
        _ => panic!("expected the decoding error kind"),
    }
}

#[test]
fn valid_output_bytes_yield_the_parsed_store() {
    let exif = Exif::from_output(b"F Number: 2.8".to_vec(), Vec::new(), &Mode::All)
        .expect("valid bytes parse");
    assert_eq!(exif.attributes.get("FNumber").unwrap().as_str(), "2.8");
}

#[test]
fn file_not_found_bytes_on_stderr_map_to_their_kind() {
    let stderr = b"Error: File not found - a.jpg".to_vec();
    match Exif::from_output(Vec::new(), stderr, &Mode::All) {
        Err(ExifError::FileNotFound(message)) => {
            assert_eq!(message, "Error: File not found - a.jpg");
        }
        _ => panic!("expected the file-not-found error kind"),
    }
}

#[test]
fn each_error_kind_describes_itself() {
    assert_eq!(
        ExifError::FileNotFound(String::from("x")).describe(),
        "FileNotFound: x"
    );
    assert_eq!(ExifError::TagError(String::from("x")).describe(), "TagError: x");
    assert_eq!(ExifError::ValueError(String::from("x")).describe(), "ValueError: x");
    assert_eq!(
        ExifError::ExifToolError(String::from("x")).describe(),
        "ExifToolError: x"
    );
    assert_eq!(
        ExifError::FromUtf8Error(String::from("x")).describe(),
        "FromUtf8Error: x"
    );
    assert_eq!(
        ExifError::UncontrolledError(String::from("x")).describe(),
        "UncontrolledError: x"
    );
}

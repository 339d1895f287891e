use rsmv::datauri::file_data_uri;
use rsmv::datauri::image_data_uri;

#[test]
fn text_file_uri() {
    let uri = file_data_uri("hello.txt", &b"hello".to_vec());
    assert_eq!(uri, "data:text/plain;base64,aGVsbG8=");
}

#[test]
fn empty_file_uri() {
    let uri = file_data_uri("blob.bin", &Vec::new());
    assert_eq!(uri, "data:application/octet-stream;base64,");
}

#[test]
fn padding_follows_input_length() {
    assert_eq!(file_data_uri("a.bin", &b"ab".to_vec()), "data:application/octet-stream;base64,YWI=");
    assert_eq!(
        file_data_uri("a.bin", &b"abc".to_vec()),
        "data:application/octet-stream;base64,YWJj"
    );
}

#[test]
fn png_content_is_recognised() {
    let png = vec![0x89u8, 0x50, 0x4E, 0x47, 0x0D, 0x0A, 0x1A, 0x0A];
    let uri = image_data_uri("whatever.dat", &png).unwrap();
    assert_eq!(uri, "data:image/png;base64,iVBORw0KGgo=");
}

#[test]
fn jpeg_content_is_recognised() {
    let jpg = vec![0xFFu8, 0xD8, 0xFF];
    let uri = image_data_uri("photo", &jpg).unwrap();
    assert_eq!(uri, "data:image/jpeg;base64,/9j/");
}

#[test]
fn icns_extension_wins_over_content() {
    let uri = image_data_uri("icon.ICNS", &vec![1u8, 2, 3]).unwrap();
    assert_eq!(uri, "data:image/icns;base64,AQID");
}

#[test]
fn unknown_content_is_refused() {
    assert!(image_data_uri("mystery.dat", &vec![0u8, 1, 2]).is_none());
}

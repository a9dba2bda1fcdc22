use handwriter_service::ident::{decimal_text, digest_hex, file_url, image_url, task_id};

#[test]
fn task_id_is_md5_in_hex() {
    assert_eq!(task_id("abc"), "900150983cd24fb0d6963f7d28e17f72");
    assert_eq!(task_id(""), "d41d8cd98f00b204e9800998ecf8427e");
}

#[test]
fn digest_written_two_digits_per_byte() {
    assert_eq!(digest_hex(&[0x00, 0x0f, 0xa0, 0xff]), "000fa0ff");
    assert_eq!(digest_hex(&[]), "");
}

#[test]
fn decimal_numbers() {
    assert_eq!(decimal_text(0), "0");
    assert_eq!(decimal_text(7), "7");
    assert_eq!(decimal_text(10), "10");
    assert_eq!(decimal_text(4294967295), "4294967295");
}

#[test]
fn image_addresses() {
    assert_eq!(image_url("ab"), "https://handwrite.herokuapp.com/image/ab.svg");
    assert_eq!(file_url("ab"), "https://handwrite.herokuapp.com/file/ab.svg");
}

use monoio_http::common::multipart::FormStep;
use monoio_http::common::multipart::{is_file_field, keep_in_memory, MAX_FILE_SIZE};
use bytes::{Bytes, BytesMut};
use monoio_http::common::body::StreamHint;
use monoio_http::common::header::HeaderMap;
use monoio_http::common::multipart::{Data, ParsedMuliPartForm};

fn part_headers(disposition: &str) -> HeaderMap {
    let mut headers = HeaderMap::new();
    headers.insert(b"content-type".to_vec(), b"text/plain".to_vec());
    headers.insert(b"content-disposition".to_vec(), disposition.as_bytes().to_vec());
    headers
}

#[test]
fn part_heads_sort_their_headers() {
    let mut form = ParsedMuliPartForm::new("XyZ".to_string());
    let mut buf = BytesMut::new();
    form.write_part(&mut buf, &part_headers("form-data; name=\"a\""));
    assert_eq!(
        &buf[..],
        &b"--XyZ\r\ncontent-disposition: form-data; name=\"a\"\r\ncontent-type: text/plain\r\n\r\n"[..]
    );
    let mut second = BytesMut::new();
    form.write_part(&mut second, &HeaderMap::new());
    assert_eq!(&second[..], &b"\r\n--XyZ\r\n\r\n"[..]);
}

#[test]
fn closing_the_form() {
    let mut form = ParsedMuliPartForm::new("b0".to_string());
    assert!(!form.closed());
    let end = form.close_multipart();
    assert_eq!(&end[..], &b"\r\n--b0--\r\n"[..]);
    assert!(form.closed());
    assert_eq!(form.stream_hint(), StreamHint::Stream);
}

#[test]
fn fields_are_written_in_order_then_forgotten() {
    let mut form = ParsedMuliPartForm::new("B".to_string());
    let mut h1 = HeaderMap::new();
    h1.insert(b"content-disposition".to_vec(), b"form-data; name=\"x\"".to_vec());
    let mut h2 = HeaderMap::new();
    h2.insert(b"content-disposition".to_vec(), b"form-data; name=\"y\"".to_vec());
    form.insert_field_value("x".to_string(), "1".to_string(), h1);
    form.insert_field_value("y".to_string(), "2".to_string(), h2);
    form.insert_field_value("x".to_string(), "3".to_string(), HeaderMap::new());
    assert_eq!(form.get_field_value("x").unwrap().len(), 2);
    assert_eq!(form.get_field_value("x").unwrap()[1].get_value(), "3");
    assert!(form.get_field_value("z").is_none());
    assert!(form.has_fields());
    let out = form.write_forms();
    assert_eq!(
        &out[..],
        &b"--B\r\ncontent-disposition: form-data; name=\"x\"\r\n\r\n1\r\n--B\r\n\r\n3\r\n--B\r\ncontent-disposition: form-data; name=\"y\"\r\n\r\n2"[..]
    );
    assert!(!form.has_fields());
    assert_eq!(form.write_forms().len(), 0);
}

#[test]
fn writing_no_fields_writes_nothing() {
    let mut form = ParsedMuliPartForm::new("B".to_string());
    assert_eq!(form.write_forms().len(), 0);
    let mut buf = BytesMut::new();
    form.write_part(&mut buf, &HeaderMap::new());
    assert_eq!(&buf[..], &b"--B\r\n\r\n"[..]);
}

#[test]
fn files_are_taken_by_name() {
    let mut form = ParsedMuliPartForm::new("B".to_string());
    assert!(form.get_next_file_key().is_none());
    form.insert_file_data("f".to_string(), "a.txt".to_string(), HeaderMap::new(), Data::InMemory(Bytes::from_static(b"A")));
    form.insert_file_data("g".to_string(), "b.txt".to_string(), HeaderMap::new(), Data::InFile("/tmp/b.txt".into()));
    form.insert_file_data("f".to_string(), "c.txt".to_string(), HeaderMap::new(), Data::InMemory(Bytes::from_static(b"C")));
    assert_eq!(form.get_next_file_key().as_deref(), Some("f"));
    let files = form.get_file("f").unwrap();
    assert_eq!(files.len(), 2);
    assert_eq!(files[0].get_filename(), "a.txt");
    assert_eq!(files[1].get_filename(), "c.txt");
    assert!(files[0].get_file_path().is_none());
    assert_eq!(form.get_file("g").unwrap()[0].get_file_path(), Some("/tmp/b.txt".into()));
    let taken = form.take_file("f").unwrap();
    assert_eq!(taken.len(), 2);
    assert!(form.get_file("f").is_none());
    assert!(form.take_file("f").is_none());
    assert_eq!(form.get_next_file_key().as_deref(), Some("g"));
}

#[test]
fn form_steps_in_order() {
    let mut form = ParsedMuliPartForm::new("B".to_string());
    assert_eq!(form.next_step(), FormStep::Close);
    form.insert_file_data("f".to_string(), "a.txt".to_string(), HeaderMap::new(), Data::InMemory(Bytes::from_static(b"A")));
    assert_eq!(form.next_step(), FormStep::Files("f".to_string()));
    form.insert_field_value("x".to_string(), "1".to_string(), HeaderMap::new());
    assert_eq!(form.next_step(), FormStep::Fields);
    form.write_forms();
    assert_eq!(form.next_step(), FormStep::Files("f".to_string()));
    form.take_file("f");
    assert_eq!(form.next_step(), FormStep::Close);
    form.close_multipart();
    assert_eq!(form.next_step(), FormStep::Done);
}

#[test]
fn file_parts_carry_their_content() {
    let mut form = ParsedMuliPartForm::new("B".to_string());
    let mut buf = BytesMut::new();
    form.write_file_part(&mut buf, &part_headers("form-data; name=\"f\""), b"hello");
    form.write_file_part(&mut buf, &HeaderMap::new(), b"bye");
    assert_eq!(
        &buf[..],
        &b"--B\r\ncontent-disposition: form-data; name=\"f\"\r\ncontent-type: text/plain\r\n\r\nhello\r\n--B\r\n\r\nbye"[..]
    );
}

#[test]
fn spilling_and_field_kinds() {
    assert!(keep_in_memory(0));
    assert!(keep_in_memory(MAX_FILE_SIZE - 1));
    assert!(!keep_in_memory(MAX_FILE_SIZE));
    assert_eq!(MAX_FILE_SIZE, 10 * 1024 * 1024);
    assert!(is_file_field("a.txt"));
    assert!(!is_file_field(""));
}

#[test]
fn stored_file_keeps_its_headers_and_data() {
    let mut form = ParsedMuliPartForm::new("B".to_string());
    let headers = part_headers("form-data; name=\"f\"; filename=\"a.txt\"");
    form.insert_file_data("f".to_string(), "a.txt".to_string(), headers, Data::InMemory(Bytes::from_static(b"AB")));
    let files = form.get_file("f").unwrap();
    assert_eq!(files[0].get_headers().get(b"content-type").map(|v| v.as_slice()), Some(&b"text/plain"[..]));
    match &files[0].data {
        Data::InMemory(b) => assert_eq!(&b[..], b"AB"),
        Data::InFile(_) => panic!("the file was kept in memory"),
    }
}

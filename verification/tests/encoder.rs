use monoio_http::h1::codec::decoder::{DecodeHead, RequestHeadDecoder, ResponseHeadDecoder};
use bytes::BytesMut;
use monoio_http::common::body::{decode_content, encode_content, select_encoding, Encoding};
use monoio_http::common::header::{HeaderMap, Version};
use monoio_http::common::request::RequestHead;
use monoio_http::common::response::ResponseHead;
use monoio_http::common::ext::Reason;
use monoio_http::h1::codec::decoder::{classify_body, BodyKind, ChunkedBodyDecoder};
use monoio_http::h1::codec::encoder::{
    decimal_digits, end_data, queue_data, DataRoute, hex_digits, length_for, write_directly, ChunkedBodyEncoder, FixedBodyEncoder, HeadEncoder, Length,
};
use monoio_http::common::body::StreamHint;

#[test]
fn encode_request_head() {
    let mut headers = HeaderMap::new();
    headers.insert(b"host".to_vec(), b"example.com".to_vec());
    headers.append(b"accept".to_vec(), b"a".to_vec());
    headers.append(b"accept".to_vec(), b"b".to_vec());
    let head = RequestHead { method: b"GET".to_vec(), uri: b"http://example.com/a?b=c".to_vec(), version: Version::Http11, headers };
    let mut dst = BytesMut::new();
    HeadEncoder::encode_request(&head, &mut dst).unwrap();
    assert_eq!(&dst[..], &b"GET /a?b=c HTTP/1.1\r\nhost: example.com\r\naccept: a\r\naccept: b\r\n\r\n"[..]);
}

#[test]
fn encode_request_head_without_path() {
    let head = RequestHead { method: b"OPTIONS".to_vec(), uri: b"http://example.com".to_vec(), version: Version::Http10, headers: HeaderMap::new() };
    let mut dst = BytesMut::new();
    HeadEncoder::encode_request(&head, &mut dst).unwrap();
    assert!(dst.starts_with(b"OPTIONS /"));
    assert!(dst.ends_with(b" HTTP/1.0\r\n\r\n"));
}

#[test]
fn encode_request_head_bad_uri() {
    let head = RequestHead { method: b"GET".to_vec(), uri: b"not a uri".to_vec(), version: Version::Http11, headers: HeaderMap::new() };
    let mut dst = BytesMut::from("x");
    assert!(HeadEncoder::encode_request(&head, &mut dst).is_err());
    assert_eq!(&dst[..], b"x");
}

#[test]
fn encode_response_heads() {
    let mut dst = BytesMut::new();
    let head = ResponseHead { version: Version::Http11, status: 200, headers: HeaderMap::new(), reason: None };
    HeadEncoder::encode_response(&head, &mut dst).unwrap();
    assert_eq!(&dst[..], b"HTTP/1.1 200 OK\r\n\r\n");

    let mut dst = BytesMut::new();
    let head = ResponseHead { version: Version::Http10, status: 404, headers: HeaderMap::new(), reason: None };
    HeadEncoder::encode_response(&head, &mut dst).unwrap();
    assert_eq!(&dst[..], b"HTTP/1.0 404 Not Found\r\n\r\n");

    let mut dst = BytesMut::new();
    let head = ResponseHead { version: Version::Http11, status: 200, headers: HeaderMap::new(), reason: Some(Reason(b"Fine".to_vec())) };
    HeadEncoder::encode_response(&head, &mut dst).unwrap();
    assert_eq!(&dst[..], b"HTTP/1.1 200 Fine\r\n\r\n");

    let mut dst = BytesMut::new();
    let head = ResponseHead { version: Version::Http11, status: 599, headers: HeaderMap::new(), reason: None };
    HeadEncoder::encode_response(&head, &mut dst).unwrap();
    assert_eq!(&dst[..], b"HTTP/1.1 599 <none>\r\n\r\n");

    let mut dst = BytesMut::new();
    let head = ResponseHead { version: Version::Http2, status: 200, headers: HeaderMap::new(), reason: Some(Reason(b"x".to_vec())) };
    assert!(HeadEncoder::encode_response(&head, &mut dst).is_err());
    assert!(dst.is_empty());
}

#[test]
fn length_headers_read_back() {
    let mut headers = HeaderMap::new();
    HeadEncoder::set_length_header(&mut headers, Length::ContentLength(1234));
    assert_eq!(headers.get(b"content-length"), Some(&b"1234".to_vec()));
    assert_eq!(classify_body(&headers).unwrap(), BodyKind::Fixed(1234));
    let mut headers = HeaderMap::new();
    HeadEncoder::set_length_header(&mut headers, Length::ContentLength(0));
    assert_eq!(classify_body(&headers).unwrap(), BodyKind::Empty);
    let mut headers = HeaderMap::new();
    HeadEncoder::set_length_header(&mut headers, Length::Chunked);
    assert_eq!(headers.get(b"transfer-encoding"), Some(&b"chunked".to_vec()));
    assert_eq!(classify_body(&headers).unwrap(), BodyKind::Chunked);
}

#[test]
fn digits() {
    assert_eq!(decimal_digits(0), b"0".to_vec());
    assert_eq!(decimal_digits(907), b"907".to_vec());
    assert_eq!(hex_digits(255), b"FF".to_vec());
    assert_eq!(hex_digits(10), b"A".to_vec());
    assert_eq!(hex_digits(4096), b"1000".to_vec());
}

#[test]
fn chunked_body_round_trip() {
    let mut dst = BytesMut::new();
    ChunkedBodyEncoder::encode(Some(b"0000000000"), &mut dst);
    ChunkedBodyEncoder::encode(Some(b"x"), &mut dst);
    ChunkedBodyEncoder::encode(None, &mut dst);
    assert_eq!(&dst[..], b"A\r\n0000000000\r\n1\r\nx\r\n0\r\n\r\n");
    let mut decoder = ChunkedBodyDecoder::new();
    assert_eq!(decoder.decode(&mut dst).unwrap().unwrap().unwrap(), "0000000000");
    assert_eq!(decoder.decode(&mut dst).unwrap().unwrap().unwrap(), "x");
    assert!(decoder.decode(&mut dst).unwrap().unwrap().is_none());
    assert!(dst.is_empty());
}

#[test]
fn fixed_body_and_plans() {
    let mut dst = BytesMut::from("head");
    FixedBodyEncoder::encode(b"body", &mut dst);
    assert_eq!(&dst[..], b"headbody");
    assert!(matches!(length_for(StreamHint::Fixed, 5), Length::ContentLength(5)));
    assert!(matches!(length_for(StreamHint::Stream, 5), Length::Chunked));
    assert!(matches!(length_for(StreamHint::Empty, 5), Length::Empty));
    assert!(!write_directly(100, 100));
    assert!(write_directly(8000, 200));
    assert!(write_directly(9000, 0));
}

#[test]
fn encoding_selection() {
    assert_eq!(select_encoding("deflate, gzip"), Encoding::Deflate);
    assert_eq!(select_encoding(" compress ,\tbr ;q=1, gzip"), Encoding::Gzip);
    assert_eq!(select_encoding("  br  "), Encoding::Brotli);
    assert_eq!(select_encoding(""), Encoding::Identity);
    assert_eq!(select_encoding("identity, *"), Encoding::Identity);
}

#[test]
fn content_coding_round_trip() {
    let data = b"hello hello hello hello".to_vec();
    for accept in ["gzip", "deflate", "br"] {
        let encoded = encode_content(&data, accept).unwrap();
        assert_ne!(encoded, data);
        assert_eq!(decode_content(&encoded, accept).unwrap(), data);
    }
    assert_eq!(encode_content(&data, "identity").unwrap(), data);
    assert_eq!(decode_content(&data, "unknown").unwrap(), data);
    assert!(decode_content(b"not gzip", "gzip").is_err());
}

#[test]
fn written_head_read_back_to_its_end() {
    let mut headers = HeaderMap::new();
    headers.insert(b"host".to_vec(), b"example.com".to_vec());
    let head = RequestHead { method: b"POST".to_vec(), uri: b"http://example.com/x".to_vec(), version: Version::Http11, headers };
    let mut dst = BytesMut::new();
    HeadEncoder::encode_request(&head, &mut dst).unwrap();
    dst.extend_from_slice(b"5\r\nhello\r\n0\r\n\r\n");
    let back = RequestHeadDecoder.decode(&mut dst).unwrap().unwrap();
    assert_eq!(back.method, b"POST".to_vec());
    assert_eq!(back.uri, b"/x".to_vec());
    assert_eq!(&dst[..], &b"5\r\nhello\r\n0\r\n\r\n"[..]);

    let resp = ResponseHead { version: Version::Http11, status: 404, headers: HeaderMap::new(), reason: None };
    let mut dst = BytesMut::new();
    HeadEncoder::encode_response(&resp, &mut dst).unwrap();
    dst.extend_from_slice(b"body");
    let back = ResponseHeadDecoder.decode(&mut dst).unwrap().unwrap();
    assert_eq!(back.status, 404);
    assert_eq!(&dst[..], &b"body"[..]);
}

#[test]
fn queue_data_buffers_small_chunks() {
    let mut buf = BytesMut::new();
    assert_eq!(queue_data(&mut buf, b"abc", true), DataRoute::Buffered);
    assert_eq!(&buf[..], b"3\r\nabc\r\n");
    assert_eq!(queue_data(&mut buf, b"xy", false), DataRoute::Buffered);
    assert_eq!(&buf[..], b"3\r\nabc\r\nxy");
}

#[test]
fn queue_data_sends_large_chunks_directly() {
    let data = vec![7u8; 9000];
    let mut buf = BytesMut::new();
    assert_eq!(queue_data(&mut buf, &data, true), DataRoute::Direct);
    assert_eq!(&buf[..], b"2328\r\n");
    buf.clear();
    end_data(&mut buf, true);
    assert_eq!(&buf[..], b"\r\n");
    let mut fixed = BytesMut::from(&b"head"[..]);
    assert_eq!(queue_data(&mut fixed, &data, false), DataRoute::Direct);
    assert_eq!(&fixed[..], b"head");
    end_data(&mut fixed, false);
    assert_eq!(&fixed[..], b"head");
}

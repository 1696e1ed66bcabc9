use monoio_http::h1::codec::byte_case_insensitive_cmp;
use bytes::BytesMut;
use monoio_http::common::header::Version;
use monoio_http::h1::codec::decoder::{
    ChunkedBodyDecoder, DecodeError, DecodeHead, Decoded, DirectWrapper, FixedBodyDecoder, GenericHeadDecoder,
    InvalidRequestError, PayloadDecoder, RequestHeadDecoder, ResponseHeadDecoder, request_head_from_raw, response_head_from_raw,
};
use monoio_http::h1::codec::raw::{RawHeader, RawRequest, RawResponse};
use monoio_http::common::request::Request;
use monoio_http::common::response::Response;
use std::time::Instant;

type RequestHeads = GenericHeadDecoder<Request<()>, RequestHeadDecoder, DirectWrapper>;
type ResponseHeads = GenericHeadDecoder<Response<()>, ResponseHeadDecoder, DirectWrapper>;

#[test]
fn decode_request_header_multiple_times() {
    let current = Instant::now();
    for _ in 1..10000 {
        let mut data = BytesMut::from("GET /ping HTTP/1.1\r\n\r\n");
        let _ = RequestHeadDecoder.decode(&mut data).unwrap();
    }
    let elapse = current.elapsed().as_millis();
    println!("total time spend: {:?}", elapse);
}

#[test]
fn decode_request_header() {
    let mut data = BytesMut::from("GET /test HTTP/1.1\r\n\r\n");
    let head = RequestHeadDecoder.decode(&mut data).unwrap().unwrap();
    assert_eq!(head.method, b"GET".to_vec());
    assert_eq!(head.version, Version::Http11);
    assert_eq!(head.uri, b"/test".to_vec());
    assert!(data.is_empty());
}

#[test]
fn decode_response_header_multiple_times() {
    let current = Instant::now();
    for _ in 1..10000 {
        let mut data = BytesMut::from("HTTP/1.1 200 OK\r\nContent-Type:application/json\r\n\r\n");
        let _ = ResponseHeadDecoder.decode(&mut data).unwrap();
    }
    let elapse = current.elapsed().as_millis();
    println!("total time spend: {:?}", elapse);
}

#[test]
fn decode_response_header() {
    let mut data = BytesMut::from("HTTP/1.1 200 OK\r\nContent-Type:application/json\r\n\r\n");
    let head = ResponseHeadDecoder.decode(&mut data).unwrap().unwrap();
    assert_eq!(head.status, 200);
    assert_eq!(head.version, Version::Http11);
    assert_eq!(head.headers.get(b"content-type"), Some(&b"application/json".to_vec()));
}

#[test]
fn decode_fixed_body_multiple_times() {
    let current = Instant::now();
    for _ in 1..10000 {
        let mut data = BytesMut::from("balabalabalabala");
        let mut decoder = FixedBodyDecoder(8);
        let _ = decoder.decode(&mut data).unwrap();
    }
    let elapse = current.elapsed().as_millis();
    println!("total time spend: {:?}", elapse);
}

#[test]
fn decode_fixed_body() {
    let mut data = BytesMut::from("balabalabalabala");
    let mut decoder = FixedBodyDecoder(8);
    let head = decoder.decode(&mut data).unwrap().unwrap();
    assert_eq!(&head, &"balabala");
    assert_eq!(data.len(), 8);
}

#[test]
fn decode_chunked_body() {
    let mut data = BytesMut::from("a\r\n0000000000\r\n1\r\nx\r\n0\r\n\r\n");
    let mut decoder = ChunkedBodyDecoder::default();
    assert_eq!(decoder.decode(&mut data).unwrap().unwrap().unwrap(), "0000000000");
    assert_eq!(decoder.decode(&mut data).unwrap().unwrap().unwrap(), "x");
    assert!(decoder.decode(&mut data).unwrap().unwrap().is_none());
}

#[test]
fn decode_too_big_chunked_body() {
    let mut data = BytesMut::from("a\r\n0000000000\r\ndeadbeefcafebabe0\r\nx\r\n0\r\n\r\n");
    let mut decoder = ChunkedBodyDecoder::default();
    assert_eq!(decoder.decode(&mut data).unwrap().unwrap().unwrap(), "0000000000");
    assert!(&decoder.decode(&mut data).is_err());
}

#[test]
fn decode_request_without_body() {
    let mut data = BytesMut::from("GET /test HTTP/1.1\r\n\r\n");
    let mut decoder = RequestHeads::new(RequestHeadDecoder);
    let (req, payload) = decoder.decode(&mut data).unwrap().unwrap();
    assert_eq!(req.method, b"GET".to_vec());
    assert!(matches!(payload, PayloadDecoder::Empty));
}

#[test]
fn decode_response_without_body() {
    let mut data = BytesMut::from("HTTP/1.1 200 OK\r\n\r\n");
    let mut decoder = ResponseHeads::new(ResponseHeadDecoder);
    let (resp, payload) = decoder.decode(&mut data).unwrap().unwrap();
    assert_eq!(resp.status, 200);
    assert!(matches!(payload, PayloadDecoder::Empty));
}

#[test]
fn decode_fixed_body_request() {
    let mut data = BytesMut::from("POST /test HTTP/1.1\r\nContent-Length: 4\r\ntest-key: test-val\r\n\r\nbody");
    let mut decoder = RequestHeads::new(RequestHeadDecoder);
    let (req, payload) = decoder.decode(&mut data).unwrap().unwrap();
    assert_eq!(req.method, b"POST".to_vec());
    assert_eq!(req.headers.get(b"test-key").unwrap(), &b"test-val".to_vec());
    let mut body = match payload {
        PayloadDecoder::Fixed(p) => p,
        _ => panic!("wrong payload type"),
    };
    let piece = body.decode(&mut data).unwrap().unwrap();
    assert_eq!(&piece, &"body");
    assert!(matches!(decoder.decode(&mut data), Ok(Decoded::Insufficient)));
}

#[test]
fn decode_fixed_body_response() {
    let mut data = BytesMut::from("HTTP/1.1 200 OK\r\ncontent-lenGth: 4\r\ntest-key: test-val\r\n\r\nbody");
    let mut decoder = ResponseHeads::new(ResponseHeadDecoder);
    let (resp, payload) = decoder.decode(&mut data).unwrap().unwrap();
    assert_eq!(resp.status, 200);
    assert_eq!(resp.headers.get(b"test-key").unwrap(), &b"test-val".to_vec());
    let mut body = match payload {
        PayloadDecoder::Fixed(p) => p,
        _ => panic!("wrong payload type"),
    };
    let piece = body.decode(&mut data).unwrap().unwrap();
    assert_eq!(&piece, &"body");
    assert!(matches!(decoder.decode(&mut data), Ok(Decoded::Insufficient)));
}

#[test]
fn decode_chunked_request() {
    let mut data = BytesMut::from(
        "PUT /test HTTP/1.1\r\ntransfer-encoding: chunked\r\n\r\n4\r\ndata\r\n4\r\nline\r\n0\r\n\r\n",
    );
    let mut decoder = RequestHeads::new(RequestHeadDecoder);
    let (req, payload) = decoder.decode(&mut data).unwrap().unwrap();
    assert_eq!(req.method, b"PUT".to_vec());
    let mut body = match payload {
        PayloadDecoder::Streamed(p) => p,
        _ => panic!("wrong payload type"),
    };
    assert_eq!(&body.decode(&mut data).unwrap().unwrap().unwrap(), &"data");
    assert_eq!(&body.decode(&mut data).unwrap().unwrap().unwrap(), &"line");
    assert!(body.decode(&mut data).unwrap().unwrap().is_none());
    assert!(matches!(decoder.decode(&mut data), Ok(Decoded::Insufficient)));
}

#[test]
fn decode_chunked_response() {
    let mut data = BytesMut::from(
        "HTTP/1.1 200 OK\r\nTransfer-encoDing: chunked\r\n\r\n4\r\ndata\r\n4\r\nline\r\n0\r\n\r\n",
    );
    let mut decoder = ResponseHeads::new(ResponseHeadDecoder);
    let (_resp, payload) = decoder.decode(&mut data).unwrap().unwrap();
    let mut body = match payload {
        PayloadDecoder::Streamed(p) => p,
        _ => panic!("wrong payload type"),
    };
    assert_eq!(&body.decode(&mut data).unwrap().unwrap().unwrap(), &"data");
    assert_eq!(&body.decode(&mut data).unwrap().unwrap().unwrap(), &"line");
    assert!(body.decode(&mut data).unwrap().unwrap().is_none());
    assert!(matches!(decoder.decode(&mut data), Ok(Decoded::Insufficient)));
}

#[test]
fn decode_head_needs_more_bytes() {
    let mut data = BytesMut::from("GET /test HTTP/1.1\r\nHost: x\r\n");
    assert!(matches!(RequestHeadDecoder.decode(&mut data), Ok(Decoded::Insufficient)));
    assert_eq!(data.len(), 29);
}

#[test]
fn decode_head_bad_transfer_encoding() {
    let mut data = BytesMut::from("HTTP/1.1 200 OK\r\ntransfer-encoding: gzip\r\n\r\n");
    let mut decoder = ResponseHeads::new(ResponseHeadDecoder);
    assert!(decoder.decode(&mut data).is_err());
}

#[test]
fn decode_head_signed_content_length() {
    let mut data = BytesMut::from("HTTP/1.1 200 OK\r\ncontent-length: +4\r\n\r\nbody");
    let mut decoder = ResponseHeads::new(ResponseHeadDecoder);
    assert!(decoder.decode(&mut data).is_err());
}

#[test]
fn decode_head_zero_content_length() {
    let mut data = BytesMut::from("HTTP/1.1 204 No Content\r\ncontent-length: 0\r\n\r\n");
    let mut decoder = ResponseHeads::new(ResponseHeadDecoder);
    let (resp, payload) = decoder.decode(&mut data).unwrap().unwrap();
    assert_eq!(resp.status, 204);
    assert!(resp.reason.is_none());
    assert!(matches!(payload, PayloadDecoder::Empty));
}

#[test]
fn decode_response_custom_reason() {
    let mut data = BytesMut::from("HTTP/1.0 200 Fine\r\n\r\n");
    let head = ResponseHeadDecoder.decode(&mut data).unwrap().unwrap();
    assert_eq!(head.version, Version::Http10);
    assert_eq!(head.reason.unwrap().as_bytes(), b"Fine");
}

#[test]
fn decode_bad_status() {
    let mut data = BytesMut::from("HTTP/1.1 20 OK\r\n\r\n");
    assert!(ResponseHeadDecoder.decode(&mut data).is_err());
}

#[test]
fn decode_bad_method() {
    let mut data = BytesMut::from("G(T / HTTP/1.1\r\n\r\n");
    assert!(RequestHeadDecoder.decode(&mut data).is_err());
}

#[test]
fn decode_bad_chunk_size_line() {
    let mut data = BytesMut::from("4\r\ndataXX");
    let mut decoder = ChunkedBodyDecoder::new();
    assert!(matches!(decoder.decode(&mut data), Err(DecodeError::Chunked)));
}

#[test]
fn decode_fixed_body_waits() {
    let mut data = BytesMut::from("abc");
    let mut decoder = FixedBodyDecoder(4);
    assert!(matches!(decoder.decode(&mut data), Ok(Decoded::Insufficient)));
    assert_eq!(data.len(), 3);
}

#[test]
fn case_insensitive_byte_comparison() {
    assert!(byte_case_insensitive_cmp(b"Keep-Alive", b"keep-alive"));
    assert!(byte_case_insensitive_cmp(b"CHUNKED", b"chunked"));
    assert!(!byte_case_insensitive_cmp(b"chunked", b"CHUNKED"));
    assert!(!byte_case_insensitive_cmp(b"chunk", b"chunked"));
    assert!(!byte_case_insensitive_cmp(b"[", b"{"));
    assert!(byte_case_insensitive_cmp(b"", b""));
}

#[test]
fn head_decided_before_more_bytes_arrive() {
    let mut whole = BytesMut::from("GET /a HTTP/1.1\r\nhost: x\r\n\r\nPOST /b");
    let head = RequestHeadDecoder.decode(&mut whole).unwrap().unwrap();
    assert_eq!(head.uri, b"/a".to_vec());
    assert_eq!(&whole[..], &b"POST /b"[..]);
    let mut part = BytesMut::from("HTTP/1.1 204 No Content\r\n\r\n");
    let resp = ResponseHeadDecoder.decode(&mut part).unwrap().unwrap();
    part.extend_from_slice(b"trailing");
    assert_eq!(resp.status, 204);
    assert_eq!(&part[..], &b"trailing"[..]);
}

#[test]
fn chunk_decided_before_more_bytes_arrive() {
    let mut decoder = ChunkedBodyDecoder::default();
    let mut data = BytesMut::from("3\r\nabc\r\n");
    assert_eq!(decoder.decode(&mut data).unwrap().unwrap().unwrap(), "abc");
    assert!(data.is_empty());
    let mut decoder = ChunkedBodyDecoder::default();
    let mut data = BytesMut::from("3\r\nabc\r\n2\r\nde");
    assert_eq!(decoder.decode(&mut data).unwrap().unwrap().unwrap(), "abc");
    assert_eq!(&data[..], &b"2\r\nde"[..]);
}

fn raw_header(name: &[u8], value: &[u8]) -> RawHeader {
    RawHeader { name: name.to_vec(), value: value.to_vec() }
}

#[test]
fn head_from_raw_request_normalizes_names() {
    let raw = RawRequest {
        method: Some(b"GET".to_vec()),
        path: Some(b"/a?b=c".to_vec()),
        version: Some(1),
        headers: vec![raw_header(b"Host", b"example.com"), raw_header(b"X-\"Q\"", b"1")],
    };
    let head = request_head_from_raw(raw).expect("a valid head");
    assert_eq!(head.method, b"GET".to_vec());
    assert_eq!(head.uri, b"/a?b=c".to_vec());
    assert_eq!(head.version, Version::Http11);
    assert_eq!(head.headers.get(b"host").map(|v| v.as_slice()), Some(&b"example.com"[..]));
    assert_eq!(head.headers.get(b"x-\"q\"").map(|v| v.as_slice()), Some(&b"1"[..]));
}

#[test]
fn head_from_raw_request_errors() {
    let bad_name = RawRequest {
        method: Some(b"GET".to_vec()),
        path: Some(b"/".to_vec()),
        version: Some(0),
        headers: vec![raw_header(b"Bad Name", b"1")],
    };
    assert!(matches!(request_head_from_raw(bad_name), Err(DecodeError::Header)));
    let empty_name = RawRequest {
        method: Some(b"GET".to_vec()),
        path: Some(b"/".to_vec()),
        version: Some(0),
        headers: vec![raw_header(b"", b"1")],
    };
    assert!(matches!(request_head_from_raw(empty_name), Err(DecodeError::Header)));
    let bad_method = RawRequest { method: Some(b"G(T".to_vec()), path: Some(b"/".to_vec()), version: Some(1), headers: vec![] };
    assert!(matches!(request_head_from_raw(bad_method), Err(DecodeError::Method(_))));
    let bad_uri = RawRequest { method: Some(b"GET".to_vec()), path: Some(b"/a b".to_vec()), version: Some(1), headers: vec![] };
    assert!(matches!(request_head_from_raw(bad_uri), Err(DecodeError::Uri(_))));
}

#[test]
fn head_from_raw_response_reason_and_status() {
    let canonical = RawResponse { version: Some(1), code: Some(404), reason: Some(b"Not Found".to_vec()), headers: vec![] };
    let head = response_head_from_raw(canonical).expect("a valid head");
    assert_eq!(head.status, 404);
    assert!(head.reason.is_none());
    let custom = RawResponse { version: Some(0), code: Some(200), reason: Some(b"Fine".to_vec()), headers: vec![] };
    let head = response_head_from_raw(custom).expect("a valid head");
    assert_eq!(head.version, Version::Http10);
    assert_eq!(head.reason.map(|r| r.0), Some(b"Fine".to_vec()));
    let low = RawResponse { version: Some(1), code: Some(99), reason: Some(Vec::new()), headers: vec![] };
    assert!(matches!(response_head_from_raw(low), Err(DecodeError::Status(_))));
}

fn chunks_of(decoder: &mut ChunkedBodyDecoder, data: &mut BytesMut, out: &mut Vec<Vec<u8>>) -> bool {
    loop {
        match decoder.decode(data).unwrap() {
            Decoded::Item(Some(chunk)) => out.push(chunk.to_vec()),
            Decoded::Item(None) => return true,
            _ => return false,
        }
    }
}

#[test]
fn chunked_body_split_in_two_gives_the_same_chunks() {
    let body: &[u8] = b"3\r\nabc\r\n4\r\ndefg\r\n0\r\n\r\n";
    let mut whole = Vec::new();
    let mut all = BytesMut::from(body);
    assert!(chunks_of(&mut ChunkedBodyDecoder::default(), &mut all, &mut whole));
    assert!(all.is_empty());
    for cut in 0..body.len() {
        let mut decoder = ChunkedBodyDecoder::default();
        let mut got = Vec::new();
        let mut first = BytesMut::from(&body[..cut]);
        assert!(!chunks_of(&mut decoder, &mut first, &mut got));
        first.extend_from_slice(&body[cut..]);
        assert!(chunks_of(&mut decoder, &mut first, &mut got));
        assert_eq!(got, whole);
        assert!(first.is_empty());
    }
}

#[test]
fn decode_error_clone_copies_or_turns_into_text() {
    assert!(matches!(DecodeError::Header.clone(), DecodeError::Header));
    assert!(matches!(DecodeError::TimedOut.clone(), DecodeError::TimedOut));
    let bad_method = RawRequest { method: Some(b"G(T".to_vec()), path: Some(b"/".to_vec()), version: Some(1), headers: vec![] };
    let err = request_head_from_raw(bad_method).err().expect("an invalid method");
    match err.clone() {
        DecodeError::Invalid(InvalidRequestError::InvalidMethod(text)) => assert_eq!(text, "invalid HTTP method"),
        _ => panic!("a method error clones into its text"),
    }
    let io = DecodeError::Io(std::io::Error::new(std::io::ErrorKind::TimedOut, "slow"));
    match io.clone() {
        DecodeError::Io(e) => {
            assert_eq!(e.kind(), std::io::ErrorKind::TimedOut);
            assert_eq!(e.to_string(), "slow");
        }
        _ => panic!("an I/O error clones into an I/O error"),
    }
}

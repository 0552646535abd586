use devoxx::lines::{headers_to_lines, parse_headers};
use devoxx::model::{CacheKey, CachedResponse, DecodeError, Header};
use devoxx::rows::Page_content;
use devoxx::wire::{
    cacheableBody, cachekey_to_key, cached_response_to_value, decode_cacheable, encode_cacheable,
    encode_key, key_to_cachekey, value_to_cache_response, Key, Value,
};

fn bv(s: &str) -> Vec<u8> {
    s.as_bytes().to_vec()
}

fn header(name: &str, value: &str) -> Header {
    Header { name: bv(name), value: bv(value) }
}

#[test]
fn test_serializer() {
    let cached = cacheableBody {
        key: Key {
            method: bv("GET"),
            url: bv("http://localhost:3000/fast"),
        },
        value: Value {
            status: 200,
            headers: bv("content-type:text/html; charset=utf-8\ncache-control:max-age=3700\ncontent-length:274\ndate:Mon, 08 Apr 2024 12:43:21 GMT"),
            body: bv("<script src=\"https://cdn.tailwindcss.com\"></script><body class=\"flex flex-col items-center justify-center h-screen\"><h1 class=\"text-6xl\">Fast</h1><p class=\"text-4xl\">2024-04-08 12:43:21.034713500 UTC</p><a class=\"text-blue-400 pt-16 text-xl\" href=\"/\">Go back home</a></body>"),
            cached_at: bv("1712580201"),
        },
    };
    let cache_key = key_to_cachekey(&cached.key);
    assert_eq!(cache_key.method, bv("GET"));
    assert_eq!(cache_key.uri, bv("http://localhost:3000/fast"));
    // The wire value carries its body in hex; this body is plain text,
    // so the decode reports it rather than panicking.
    let content = value_to_cache_response(&cached.value);
    assert!(matches!(content, Err(DecodeError::BadBody)));
}

#[test]
fn wire_value_round_trips_with_hex_body() {
    let resp = CachedResponse::new(
        200,
        vec![
            header("content-type", "text/html; charset=utf-8"),
            header("cache-control", "max-age=3700"),
            header("content-length", "274"),
            header("date", "Mon, 08 Apr 2024 12:43:21 GMT"),
        ],
        bv("<h1>Fast</h1>"),
        1712580201,
    );
    let value = cached_response_to_value(&resp);
    assert_eq!(value.status, 200);
    assert_eq!(value.cached_at, bv("1712580201"));
    let back = value_to_cache_response(&value).unwrap();
    assert_eq!(back.status, 200);
    assert_eq!(back.cached_at, 1712580201);
    assert_eq!(back.body, bv("<h1>Fast</h1>"));
    assert_eq!(back.headers.len(), 4);
    assert_eq!(back.headers[1].name, bv("cache-control"));
    assert_eq!(back.headers[1].value, bv("max-age=3700"));
}

#[test]
fn wire_body_is_lowercase_hex() {
    // Would fail if the hex step handed its input back unchanged.
    let resp = CachedResponse::new(200, vec![], vec![0u8, 1, 2, 255], 7);
    let value = cached_response_to_value(&resp);
    assert_eq!(value.body, bv("000102ff"));
    let back = value_to_cache_response(&value).unwrap();
    assert_eq!(back.body, vec![0u8, 1, 2, 255]);
}

#[test]
fn envelope_round_trips_binary_and_escapes() {
    let resp = CachedResponse::new(
        503,
        vec![
            header("x-note", "say \"hi\"\\now"),
            header("content-type", "text/plain"),
        ],
        vec![0u8, 10, 34, 92, 200, 255],
        1712580201,
    );
    let key = CacheKey::new(bv("GET"), bv("http://localhost:3000/slow?q=1&r=\"2\""));
    let cb = cacheableBody {
        key: cachekey_to_key(&key),
        value: cached_response_to_value(&resp),
    };
    let bytes = encode_cacheable(&cb);
    let back = decode_cacheable(&bytes).unwrap();
    assert_eq!(back.key.method, bv("GET"));
    assert_eq!(back.key.url, bv("http://localhost:3000/slow?q=1&r=\"2\""));
    let resp2 = value_to_cache_response(&back.value).unwrap();
    assert_eq!(resp2.status, 503);
    assert_eq!(resp2.body, vec![0u8, 10, 34, 92, 200, 255]);
    assert_eq!(resp2.headers.len(), 2);
    assert_eq!(resp2.headers[0].name, bv("x-note"));
    assert_eq!(resp2.headers[0].value, bv("say \"hi\"\\now"));
    assert_eq!(resp2.cached_at, 1712580201);
}

#[test]
fn envelope_has_the_documented_shape() {
    let resp = CachedResponse::new(200, vec![header("a", "b")], vec![1u8, 2], 5);
    let key = CacheKey::new(bv("GET"), bv("http://o/x"));
    let cb = cacheableBody {
        key: cachekey_to_key(&key),
        value: cached_response_to_value(&resp),
    };
    let bytes = encode_cacheable(&cb);
    assert_eq!(
        String::from_utf8(bytes).unwrap(),
        "{\"key\":{\"method\":\"GET\",\"url\":\"http://o/x\"},\"value\":{\"status\":200,\"headers\":\"a:b\",\"body\":\"0102\",\"cached_at\":\"5\"}}"
    );
    let wk = encode_key(&cachekey_to_key(&key));
    assert_eq!(
        String::from_utf8(wk).unwrap(),
        "{\"method\":\"GET\",\"url\":\"http://o/x\"}"
    );
}

#[test]
fn malformed_envelopes_are_typed_errors() {
    assert!(decode_cacheable(&bv("")).is_err());
    assert!(decode_cacheable(&bv("{\"key\":{}}")).is_err());
    let resp = CachedResponse::new(200, vec![], vec![], 5);
    let key = CacheKey::new(bv("GET"), bv("http://o/x"));
    let cb = cacheableBody {
        key: cachekey_to_key(&key),
        value: cached_response_to_value(&resp),
    };
    let mut bytes = encode_cacheable(&cb);
    bytes.push(b' ');
    assert!(decode_cacheable(&bytes).is_err());
}

#[test]
fn wire_decode_rejects_bad_fields() {
    // Odd-length hex body.
    let v = Value { status: 200, headers: bv("a:b"), body: bv("012"), cached_at: bv("5") };
    assert!(matches!(value_to_cache_response(&v), Err(DecodeError::BadBody)));
    // Non-numeric cache time.
    let v = Value { status: 200, headers: bv("a:b"), body: bv("01"), cached_at: bv("5x") };
    assert!(matches!(value_to_cache_response(&v), Err(DecodeError::BadCachedAt)));
    // Status outside the HTTP range.
    let v = Value { status: 99, headers: bv("a:b"), body: bv("01"), cached_at: bv("5") };
    assert!(matches!(value_to_cache_response(&v), Err(DecodeError::BadStatus)));
    // Header line with no colon.
    let v = Value { status: 200, headers: bv("nocolon"), body: bv("01"), cached_at: bv("5") };
    assert!(matches!(
        value_to_cache_response(&v),
        Err(DecodeError::MalformedHeaderLine)
    ));
}

#[allow(non_snake_case)]
#[test]
fn test_parseHeader() {
    let headers = vec![
        header("content-type", "text/html; charset=utf-8"),
        header("cache-control", "max-age=3700"),
        header("content-length", "274"),
        header("date", "Tue, 19 Mar 2024 05:24:49 GMT"),
    ];
    let body: Vec<u8> = vec![0, 1, 2];
    let cached = CachedResponse::new(201, headers, body, 1710825889);
    let content = Page_content::from_response(&cached);
    assert_eq!(content.status, 201);
    assert_eq!(content.body, vec![0, 1, 2]);
    let retrieved = parse_headers(&content.headers).unwrap();
    assert_eq!(retrieved.len(), 4);
    assert_eq!(retrieved[0].name, bv("content-type"));
    assert_eq!(retrieved[0].value, bv("text/html; charset=utf-8"));
    assert_eq!(retrieved[1].name, bv("cache-control"));
    assert_eq!(retrieved[1].value, bv("max-age=3700"));
    assert_eq!(retrieved[2].name, bv("content-length"));
    assert_eq!(retrieved[2].value, bv("274"));
    assert_eq!(retrieved[3].name, bv("date"));
    assert_eq!(retrieved[3].value, bv("Tue, 19 Mar 2024 05:24:49 GMT"));
}

#[test]
fn bytes_to_str() {
    let b: Vec<u8> = b"helllo".to_vec();
    let string = String::from_utf8(b).unwrap();
    assert_eq!(string, "helllo");
    let bytes: Vec<u8> = vec![0, 1, 2];
    let s = String::from_utf8_lossy(&bytes).to_string();
    assert_eq!(s.len(), 3);
}

#[test]
fn test_sliceofu8_to_string() {
    let slice: Vec<u8> = vec![0, 1, 2, 5, 7];
    let string = String::from_utf8_lossy(&slice).into_owned();
    assert_eq!(string.len(), 5);
}

#[test]
fn row_round_trips_binary_body() {
    let resp = CachedResponse::new(
        201,
        vec![header("hello", "rosy"), header("jack", "world")],
        vec![0u8, 1, 2, 254],
        1712580201,
    );
    let content = Page_content::from_response(&resp);
    assert_eq!(content.cached_at, bv("1712580201"));
    assert_eq!(
        String::from_utf8(content.headers.clone()).unwrap(),
        "hello:rosy\njack:world"
    );
    let back = content.to_response().unwrap();
    assert_eq!(back.status, 201);
    assert_eq!(back.body, vec![0u8, 1, 2, 254]);
    assert_eq!(back.headers.len(), 2);
    assert_eq!(back.headers[1].name, bv("jack"));
    assert_eq!(back.cached_at, 1712580201);
}

#[test]
fn header_lines_keep_order_and_empty_headers() {
    let lines = headers_to_lines(&vec![]);
    assert!(lines.is_empty());
    assert_eq!(parse_headers(&lines).unwrap().len(), 0);
    let hs = vec![header("b", "2"), header("a", "1"), header("a", "3")];
    let lines = headers_to_lines(&hs);
    let back = parse_headers(&lines).unwrap();
    assert_eq!(back.len(), 3);
    assert_eq!(back[0].name, bv("b"));
    assert_eq!(back[1].value, bv("1"));
    assert_eq!(back[2].value, bv("3"));
}

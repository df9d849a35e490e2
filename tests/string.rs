use std::fmt;

use ngx::allocator::Allocator;
use ngx::arena::pool::Pool;
use ngx::detail::{debug_bytes, display_bytes};
use ngx::string::{ngx_str_t, NgxStr, NgxString, TryReserveError, Utf8Error};

struct TestStr(&'static [u8]);

impl fmt::Debug for TestStr {
    fn fmt(&self, f: &mut fmt::Formatter<'_>) -> fmt::Result {
        f.write_str("TestStr(")?;
        f.write_str(&debug_bytes(self.0, f.alternate()))?;
        f.write_str(")")
    }
}

impl fmt::Display for TestStr {
    fn fmt(&self, f: &mut fmt::Formatter<'_>) -> fmt::Result {
        f.write_str(&display_bytes(self.0))
    }
}

#[test]
fn test_display() {
    let cases: &[(&[u8], &str)] = &[
        (b"", ""),
        (b"Ferris the \xf0\x9f\xa6\x80", "Ferris the 🦀"),
        (b"\xF0\x90\x80", "\\xf0\\x90\\x80"),
        (b"\xF0\x90\x80Hello World", "\\xf0\\x90\\x80Hello World"),
        (b"Hello \xF0\x90\x80World", "Hello \\xf0\\x90\\x80World"),
        (b"Hello World\xF0\x90\x80", "Hello World\\xf0\\x90\\x80"),
    ];

    for (bytes, expected) in cases {
        let str = TestStr(bytes);
        assert_eq!(str.to_string(), *expected);
    }

    for (bytes, expected) in &cases[2..3] {
        let str = TestStr(bytes);
        assert_eq!(format!("{str:12.12}"), *expected);
    }
}

#[test]
fn test_debug() {
    let cases: &[(&[u8], &str, &str)] = &[
        (b"", "TestStr(\"\")", "TestStr()"),
        (b"a", "TestStr(\"a\")", "TestStr(61)"),
        (
            b"Ferris the \xf0\x9f\xa6\x80",
            "TestStr(\"Ferris the 🦀\")",
            "TestStr(46,65,72,72,69,73,20,74,68,65,20,f0,9f,a6,80)",
        ),
        (
            b"\xF0\x90\x80",
            "TestStr(\"\\xf0\\x90\\x80\")",
            "TestStr(f0,90,80)",
        ),
    ];
    for (bytes, expected, alternate) in cases {
        let str = TestStr(bytes);
        assert_eq!(format!("{str:?}"), *expected);
        assert_eq!(format!("{str:#?}"), *alternate);
    }
}

#[test]
fn ngx_str_prefix() {
    let s = "key=value";
    let s = ngx_str_t::new(s.as_bytes());

    assert_eq!(
        s.strip_prefix(b"key=").as_ref().map(ngx_str_t::as_bytes),
        Some("value".as_bytes())
    );

    assert_eq!(s.strip_prefix(b"test"), None);

    assert_eq!(
        s.strip_suffix(b"value").as_ref().map(ngx_str_t::as_bytes),
        Some("key=".as_bytes())
    );

    assert_eq!(s.strip_suffix(b"test"), None);
}

#[test]
fn test_str_comparisons() {
    let string = "test".to_string();
    let ngx_string = ngx_str_t::new(string.as_bytes());
    let ns: NgxStr = NgxStr::from_bytes(string.as_bytes());

    assert_eq!(string.as_str(), ns);
    assert_eq!(ngx_string, ns);
    assert_eq!(string.as_bytes(), ns);
    assert_eq!(string.as_str(), ns);
    assert_eq!(&b"test"[..], ns);
    assert_eq!("test", ns);

    assert_eq!(ns, string.as_str());
    assert_eq!(ns, ngx_string);
    assert_eq!(ns, string.as_bytes());
    assert_eq!(ns, string.as_str());
    assert_eq!(ns, &b"test"[..]);
    assert_eq!(ns, "test");
}

#[test]
fn test_string_comparisons() {
    let string = "test".to_string();
    let ngx_string = ngx_str_t::new(string.as_bytes());
    let borrowed: NgxStr = NgxStr::from_bytes(string.as_bytes());
    let owned = NgxString::try_from_bytes_in(string.as_bytes(), Pool::new(4096, 4096)).unwrap();

    assert_eq!(string.as_bytes(), owned);
    assert_eq!(ngx_string, owned);
    assert_eq!(borrowed, owned);
    assert_eq!(&b"test"[..], owned);
    assert_eq!(owned, string.as_bytes());
    assert_eq!(owned, ngx_string);
    assert_eq!(owned, borrowed);
    assert_eq!(owned, &b"test"[..]);

    assert_eq!(string.as_str(), owned.as_ngx_str());
    assert_eq!(string.as_str(), owned.as_ngx_str());
    assert_eq!("test", owned.as_ngx_str());
    assert_eq!(owned.as_ngx_str(), string.as_str());
    assert_eq!(owned.as_ngx_str(), string.as_str());
    assert_eq!(owned.as_ngx_str(), "test");
    assert_eq!(owned, "test");
    assert_ne!(owned, "tes");
}

#[test]
fn test_lifetimes() {
    let a: NgxStr = NgxStr::from_bytes("Hello World!".as_bytes());

    let s = "Hello World!".to_string();
    let b: NgxStr = NgxStr::from_bytes(s.as_bytes());

    assert_eq!(a.as_bytes(), b.as_bytes());
}

#[test]
fn display_escapes_each_invalid_byte() {
    assert_eq!(display_bytes(b"a\xffb\xfe"), "a\\xffb\\xfe");
    assert_eq!(display_bytes(b"\x00\x7f"), "\u{0}\u{7f}");
}

#[test]
fn debug_quotes_and_lists_hex() {
    assert_eq!(debug_bytes(b"", false), "\"\"");
    assert_eq!(debug_bytes(b"\x0a\xab", true), "0a,ab");
    assert_eq!(debug_bytes(b"x\x80", false), "\"x\\x80\"");
}

#[test]
fn ngx_str_split_and_utf8() {
    let s = ngx_str_t::new(b"abc");
    let (a, b) = s.split_at(1).unwrap();
    assert_eq!(a.as_bytes(), b"a");
    assert_eq!(b.as_bytes(), b"bc");
    assert!(s.split_at(4).is_none());
    let (a, b) = s.split_at(3).unwrap();
    assert_eq!((a.len(), b.len()), (3, 0));
    assert_eq!(s.to_str(), Ok("abc"));
    assert_eq!(ngx_str_t::new(b"\xff").to_str(), Err(Utf8Error));
    assert!(ngx_str_t::empty().is_empty());
    assert_eq!(ngx_str_t::empty().to_str(), Ok(""));
    assert_eq!(s.strip_prefix(b"").map(|x| x.len()), Some(3));
    assert_eq!(s.strip_suffix(b"abc").map(|x| x.len()), Some(0));
    assert_eq!(s.strip_prefix(b"abcd"), None);
}

#[test]
fn ngx_str_lossy_and_checked_text() {
    let bad = NgxStr::from_bytes(b"ok\xF0\x90\x80");
    assert_eq!(bad.to_str(), Err(Utf8Error));
    assert_eq!(bad.to_string_lossy(), "ok\u{FFFD}");
    let good = NgxStr::from_bytes("héllo".as_bytes());
    assert_eq!(good.to_str(), Ok("héllo"));
    assert_eq!(good.to_string_lossy(), "héllo");
    assert!(!good.is_empty());
    assert!(NgxStr::from_bytes(b"").is_empty());
}

#[test]
fn ngx_string_reserve_and_append() {
    let mut s = NgxString::new_in(Pool::new(4096, 4096));
    assert!(s.is_empty());
    assert_eq!(s.capacity(), 0);
    s.try_reserve(3).unwrap();
    assert_eq!(s.capacity(), 8);
    s.try_append(b"Hello").unwrap();
    assert_eq!(s.len(), 5);
    assert_eq!(s.capacity(), 8);
    assert_eq!(s.append_within_capacity(b" world"), Err(3));
    assert_eq!(s.as_bytes(), b"Hello wo");
    assert_eq!(s.append_within_capacity(b"x"), Err(1));
    s.try_reserve(1).unwrap();
    assert_eq!(s.capacity(), 16);
    assert_eq!(s.append_within_capacity(b"rld"), Ok(()));
    assert_eq!(s.as_bytes(), b"Hello world");
    s.try_reserve_exact(10).unwrap();
    assert_eq!(s.capacity(), 21);
    assert_eq!(s.allocator().outstanding_blocks(), 1);
    let (bytes, len, cap, _pool) = s.into_raw_parts();
    assert_eq!((bytes.as_slice(), len, cap), (&b"Hello world"[..], 11, 21));
}

#[test]
fn ngx_string_errors() {
    let mut s = NgxString::try_from_bytes_in(b"abc", Pool::new(16, 16)).unwrap();
    assert_eq!(s.try_reserve_exact(usize::MAX), Err(TryReserveError::CapacityOverflow));
    assert_eq!(s.try_reserve_exact(100), Err(TryReserveError::AllocError));
    assert_eq!(s.as_bytes(), b"abc");
    assert_eq!(s.capacity(), 3);
    assert_eq!(
        NgxString::try_from_bytes_in(b"too long for it", Pool::new(4, 4)).err(),
        Some(TryReserveError::AllocError)
    );
    let e = NgxString::try_from_bytes_in(b"", Pool::new(0, 0)).unwrap();
    assert_eq!(e.capacity(), 0);
}

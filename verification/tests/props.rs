use shared_string::{SharedBytes, SharedString, SharedSyncString};

#[test]
fn from_owned_shows_input() {
    let text = String::from("grüß Gott, 世界");
    let v = SharedString::from_string(text.clone());
    assert_eq!(v.as_str(), text);
    assert_eq!(v.as_full_str(), text);
    assert_eq!(v.len(), text.len());
}

#[test]
fn split_off_partition() {
    let original = "ab 好 cd";
    let mut v = SharedString::from(original);
    let total = v.len();
    let w = v.split_off(3);
    assert_eq!(v.len() + w.len(), total);
    let mut glued = v.into_string();
    glued.push_str(w.as_str());
    assert_eq!(glued, original);
}

#[test]
fn round_trip_through_owned() {
    let v = SharedString::from("abc 好 def");
    let slice = v.get(4..7).unwrap();
    let rebuilt = SharedString::from_string(slice.clone().into_string());
    assert_eq!(rebuilt, slice);
    assert_eq!(rebuilt.as_str(), "好");
}

#[test]
fn sole_owner_into_bytes() {
    // sole handle, range from offset zero: the storage is reused
    let v = SharedString::from("hello");
    assert_eq!(v.into_bytes(), b"hello");
    let v = SharedSyncString::from("hello");
    assert_eq!(v.into_bytes(), b"hello");

    // a sibling still holds the buffer: the range is copied out
    let v = SharedString::from("hello");
    let w = v.clone();
    assert_eq!(v.into_bytes(), b"hello");

    // sole handle but a range that starts later: one compacting copy
    assert_eq!(w.get(1..).unwrap().into_bytes(), b"ello");
}

#[test]
fn segment_split_example() {
    let mut it = SharedString::from("foo bar").split(b' ');
    assert_eq!(it.next().unwrap(), "foo");
    assert_eq!(it.next().unwrap(), "bar");
    assert_eq!(it.next(), None);
}

#[test]
fn line_split_example() {
    let mut it = SharedString::from("foo\r\nbar\n\nbaz\n").lines();
    assert_eq!(it.next().unwrap(), "foo");
    assert_eq!(it.next().unwrap(), "bar");
    assert_eq!(it.next().unwrap(), "");
    assert_eq!(it.next().unwrap(), "baz");
    assert_eq!(it.next().unwrap(), "");
    assert_eq!(it.next(), None);
}

#[test]
fn boundary_rejection() {
    // the scalar 好 occupies the byte range 4..7; offsets 5 and 6 land
    // inside its encoding
    let v = SharedString::from("abc 好 def");
    assert!(v.get(5..).is_none());
    assert!(v.get(..5).is_none());
    assert!(v.get(5..6).is_none());
    assert!(v.get(4..7).is_some());
    assert_eq!(v.get(4..7).unwrap(), "好");
}

#[test]
fn eq_and_hash_across_policies() {
    let a = SharedString::from("shared text");
    let b = SharedSyncString::from("shared text");
    assert!(a == b);
    assert_eq!(a.content_hash(), b.content_hash());

    // equal text over different buffers and ranges
    let c = SharedString::from("xx shared text").get(3..).unwrap();
    assert!(a == c);
    assert_eq!(a.content_hash(), c.content_hash());

    let d = SharedSyncString::from("other");
    assert!(a != d);
}

#[test]
fn content_hash_values() {
    assert_eq!(SharedString::new().content_hash(), 0xcbf29ce484222325);
    assert_eq!(SharedString::from("a").content_hash(), 0xaf63dc4c8601ec8c);
    assert_eq!(SharedSyncString::from("foobar").content_hash(), 0x85944171f73967e8);
}

#[test]
fn invalid_utf8_reports_offset() {
    let e = SharedString::from_utf8(vec![104u8, 105, 0x80, 104]).unwrap_err();
    assert_eq!(e.valid_up_to(), 2);
    assert_eq!(e.into_bytes(), vec![104u8, 105, 0x80, 104]);

    let e = SharedSyncString::from_utf8(vec![0xffu8]).unwrap_err();
    assert_eq!(e.valid_up_to(), 0);

    // overlong two-byte encoding
    let e = SharedString::from_utf8(vec![0xc0u8, 0xaf]).unwrap_err();
    assert_eq!(e.valid_up_to(), 0);

    // surrogate range
    let e = SharedString::from_utf8(vec![0xedu8, 0xa0, 0x80]).unwrap_err();
    assert_eq!(e.valid_up_to(), 0);

    // truncated scalar at the end
    let e = SharedString::from_utf8(vec![0x61u8, 0xc3]).unwrap_err();
    assert_eq!(e.valid_up_to(), 1);

    let ok = SharedString::from_utf8("höi".as_bytes().to_vec()).unwrap();
    assert_eq!(ok.as_str(), "höi");
}

#[test]
fn unchecked_constructors() {
    let v: SharedString = SharedString::from_utf8_unchecked("abc".as_bytes().to_vec());
    assert_eq!(v, "abc");

    let buf = shared_string::RcBytes::from_vec("wrapped".as_bytes().to_vec());
    let v = SharedString::from_bytes_unchecked(buf);
    assert_eq!(v, "wrapped");
    assert_eq!(v.as_bytes(), b"wrapped");
    assert_eq!(v.to_vec(), b"wrapped");
}

#[test]
fn new_is_empty() {
    let v = SharedSyncString::new();
    assert!(v.is_empty());
    assert_eq!(v.len(), 0);
    assert_eq!(v.as_str(), "");
}

#[test]
fn split_trailing_delimiter() {
    let mut it = SharedString::from("a,").split(b',');
    assert_eq!(it.next().unwrap(), "a");
    assert_eq!(it.next().unwrap(), "");
    assert_eq!(it.next(), None);

    let mut it = SharedString::from("").split(b',');
    assert_eq!(it.next().unwrap(), "");
    assert_eq!(it.next(), None);
}

#[test]
fn lines_keep_lone_carriage() {
    // a carriage return is dropped only before a line feed
    let mut it = SharedString::from("abc\r").lines();
    assert_eq!(it.next().unwrap(), "abc\r");
    assert_eq!(it.next(), None);

    let mut it = SharedString::from("\r\n").lines();
    assert_eq!(it.next().unwrap(), "");
    assert_eq!(it.next().unwrap(), "");
    assert_eq!(it.next(), None);
}

#[test]
fn get_range_forms() {
    let foobar = SharedString::from("foobar");
    assert_eq!(foobar.get(..3).unwrap(), "foo");
    assert_eq!(foobar.get(..=3).unwrap(), "foob");
    assert_eq!(foobar.get(..).unwrap(), "foobar");
    assert_eq!(foobar.get(3..).unwrap(), "bar");
    assert_eq!(foobar.get(1..=2).unwrap(), "oo");
    assert_eq!(foobar.get(4..2), None);
    assert_eq!(foobar.get(..7), None);
}

#[test]
fn idx_range_forms() {
    let foobar = SharedString::from("foobar");
    assert_eq!(foobar.idx(..3), "foo");
    assert_eq!(foobar.idx(..=3), "foob");
    assert_eq!(foobar.idx(..), "foobar");
    assert_eq!(foobar.idx(3..), "bar");
}

#[test]
fn truncate_edges() {
    let mut v = SharedString::from("foo");
    v.truncate(10);
    assert_eq!(v, "foo");
    v.truncate(3);
    assert_eq!(v, "foo");
    v.truncate(0);
    assert_eq!(v, "");
}

#[test]
fn full_views_survive_split() {
    let mut hello = SharedString::from("Hello, World!");
    let world = hello.split_off(7);
    assert_eq!(world.as_str(), "World!");
    assert_eq!(world.as_full_str(), "Hello, World!");
    assert_eq!(world.as_full_bytes(), b"Hello, World!");
    assert_eq!(hello.as_full_str(), "Hello, World!");
    assert_eq!(world.clone().into_full_string(), "Hello, World!");
    assert_eq!(world.into_full_bytes(), b"Hello, World!");
}

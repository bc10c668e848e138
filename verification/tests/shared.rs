use shared_string::SharedString;

#[test]
fn local() {
    let mut hello: SharedString = "Hello, World!".into();
    assert_eq!(hello.len(), 13);

    let world = hello.split_off(7);
    assert_eq!(hello, "Hello, ");
    assert_eq!(hello.len(), 7);
    assert_eq!(world, "World!");
    assert_eq!(world.len(), 6);
}

#[test]
fn into() {
    let hello = SharedString::from("Hello, World!");
    let s = hello.into_string();
    assert_eq!(s, "Hello, World!");

    let mut hello: SharedString = s.into();
    let world = hello.split_off(7);

    let s = world.into_string();
    assert_eq!(s, "World!");

    assert!(hello != s.as_str());

    let n_hello = SharedString::from("Hello, ");
    assert_eq!(hello, n_hello);
}

#[test]
fn split_off_zero() {
    let mut foobar = SharedString::from("foobar");
    let n_foobar = foobar.split_off(0);
    assert_eq!("", foobar.as_str());
    assert_eq!("foobar", n_foobar.as_str());
}

#[test]
fn range_as_str() {
    let raw = SharedString::from("Hello, World!");
    let hello = &raw.as_str()[..5];
    let world = &raw.as_str()[7..];

    assert_eq!(hello, "Hello");
    assert_eq!(world, "World!");
}

#[test]
fn range_with_get() {
    let raw = SharedString::from("Hello, World!");
    let hello = raw.get(..5).unwrap();
    let world = raw.get(7..).unwrap();

    assert_eq!(hello, "Hello");
    assert_eq!(world, "World!");
}

#[test]
fn range_with_idx() {
    let raw = SharedString::from("Hello, World!");
    let hello = raw.idx(..5);
    let world = raw.idx(7..);

    assert_eq!(hello, "Hello");
    assert_eq!(world, "World!");
}

#[test]
fn empty() {
    let s = SharedString::from("");
    assert_eq!(s.len(), 0);
    assert!(s.is_empty());

    assert!(s.get(..).unwrap().is_empty());
    assert!(s.get(1..).is_none());
}

#[test]
fn split() {
    let fullname = SharedString::from("Albert Einstein");
    let mut split = fullname.split(b' ');
    assert_eq!(split.next().unwrap(), "Albert");
    assert_eq!(split.next().unwrap(), "Einstein");
    assert_eq!(split.next(), None);
}

#[test]
fn lines() {
    let quote = SharedString::from(
        "Wenn die Menschen nur über das sprächen,\nwas sie begreifen,\r\ndann würde es sehr still auf der Welt sein.\n\r\n",
    );
    let mut lines = quote.lines();
    assert_eq!(
        lines.next().unwrap(),
        "Wenn die Menschen nur über das sprächen,"
    );
    assert_eq!(lines.next().unwrap(), "was sie begreifen,");
    assert_eq!(
        lines.next().unwrap(),
        "dann würde es sehr still auf der Welt sein."
    );
    assert_eq!(lines.next().unwrap(), "");
    // the text ends in a line feed, so one final empty line follows
    assert_eq!(lines.next().unwrap(), "");
    assert_eq!(lines.next(), None);

    let empty = SharedString::from(" ");
    let mut lines = empty.lines();
    assert_eq!(" ", lines.next().unwrap().as_str());
    assert_eq!(lines.next(), None);
}

#[test]
fn range_eq_str_range() {
    let line = "foo: bar";
    let at = line.find(':').unwrap();
    let key = &line[..at];
    let value = &line[(at + 2)..];

    assert_eq!(key, "foo");
    assert_eq!(value, "bar");

    let line = SharedString::from(line);
    let key = line.idx(..at);
    let value = line.idx((at + 2)..);

    assert_eq!(key, "foo");
    assert_eq!(value, "bar");
}

#[test]
fn range_in_range() {
    let line = "date: Mon, 30 Nov 2020 22:16:22 GMT\nserver: mw1271.eqiad.wmnet\nx-content-type-options: nosniff";
    let mut lines = SharedString::from(line).lines();

    let _ = lines.next().unwrap();
    let line = lines.next().unwrap();

    let at = line.as_str().find(':').unwrap();
    assert_eq!(at, 6);

    let key = line.idx(..at);
    assert_eq!(key, "server");

    let value = line.idx((at + 2)..);
    assert_eq!(value, "mw1271.eqiad.wmnet");
}

#[test]
fn truncate() {
    let mut foobar = SharedString::from("foobar");
    foobar.truncate(3);
    assert_eq!(foobar, "foo");
}

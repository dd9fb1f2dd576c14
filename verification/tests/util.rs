//! Strings in chunks.
use d3dasm::util::{read_cstring, StringTableWriter};

#[test]
fn string_table_dedup() {
    let mut st = StringTableWriter::new(100);
    let a = st.add("POSITION");
    let b = st.add("TEXCOORD");
    let a2 = st.add("POSITION");
    assert_eq!(a, a2);
    assert_ne!(a, b);
    // "POSITION\0" = 9 bytes, starts at relative 0 to absolute 100
    assert_eq!(a, 100);
    // "TEXCOORD\0" = 9 bytes, starts at relative 9 to absolute 109
    assert_eq!(b, 109);
    let blob = st.finish();
    assert_eq!(blob.len(), 18); // 9 + 9
    assert_eq!(&blob[0..9], b"POSITION\0");
    assert_eq!(&blob[9..18], b"TEXCOORD\0");
}

#[test]
fn string_table_empty() {
    let st = StringTableWriter::new(0);
    assert!(st.is_empty());
    assert_eq!(st.len(), 0);
    assert_eq!(st.finish().len(), 0);
}

#[test]
fn read_cstring_basic() {
    let data = b"hello\0world\0";
    assert_eq!(read_cstring(data, 0), "hello");
    assert_eq!(read_cstring(data, 6), "world");
    assert_eq!(read_cstring(data, 100), "");
}

/// A string that is there already takes no room, and none moves when another comes.
#[test]
fn a_repeated_string_leaves_the_table_as_it_was() {
    let mut st = StringTableWriter::new(8);
    let a = st.add("a");
    let empty = st.add("");
    assert_eq!(st.len(), 3);
    assert_eq!(st.add("a"), a);
    assert_eq!(st.add(""), empty);
    assert_eq!(st.len(), 3);
    let b = st.add("b");
    assert_eq!((a, empty, b), (8, 10, 11));
    assert_eq!((st.offset("a"), st.offset(""), st.offset("b")), (8, 10, 11));
    assert_eq!(st.finish(), b"a\0\0b\0");
}

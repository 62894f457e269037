use fortune_index::builder::{build_data_file, separator_line};
use fortune_index::Flags;

#[test]
fn separator_inside_a_line_ends_nothing() {
    let d = build_data_file(b"a%\nb%\nc%\n", '%', Flags::empty());
    assert_eq!(d.header.count(), 0);
    assert_eq!(d.offsets, vec![0]);
}

#[test]
fn three_records() {
    let d = build_data_file(b"a\n%\nb\n%\nc\n%\n", '%', Flags::empty());
    assert_eq!(d.header.count(), 3);
    assert_eq!(d.offsets, vec![0, 4, 8, 12]);
    assert_eq!(d.header.shortest(), 2);
    assert_eq!(d.header.longest(), 2);
    assert_eq!(d.header.version(), 2);
    assert_eq!(d.header.separator(), '%');
}

#[test]
fn lengths_and_flags() {
    let flags = Flags { random: true, ordered: false, rotated: false };
    let d = build_data_file(b"long one\nsecond\n%\nx\n%\nmid\n#\n%\n", '%', flags);
    assert_eq!(d.header.count(), 3);
    assert_eq!(d.offsets, vec![0, 18, 22, 30]);
    assert_eq!(d.header.longest(), 16);
    assert_eq!(d.header.shortest(), 2);
    assert!(d.header.is_random());
}

#[test]
fn decreasing_record_lengths() {
    let d = build_data_file(b"abcd\n%\nab\n%\n", '%', Flags::empty());
    assert_eq!(d.header.longest(), 5);
    assert_eq!(d.header.shortest(), 3);
}

#[test]
fn unterminated_tail_is_not_a_record() {
    let d = build_data_file(b"a\n%\ntail\n", '%', Flags::empty());
    assert_eq!(d.header.count(), 1);
    assert_eq!(d.offsets, vec![0, 4]);
}

#[test]
fn empty_text_has_only_the_sentinel() {
    let d = build_data_file(b"", '%', Flags::empty());
    assert_eq!(d.header.count(), 0);
    assert_eq!(d.offsets, vec![0]);
    assert_eq!(d.header.shortest(), u32::MAX);
    assert_eq!(d.header.longest(), 0);
}

#[test]
fn other_separator() {
    let d = build_data_file(b"x\n%\ny\n#\n", '#', Flags::empty());
    assert_eq!(d.header.count(), 1);
    assert_eq!(d.offsets, vec![0, 8]);
    assert_eq!(d.header.separator(), '#');
}

#[test]
fn separator_line_without_newline_ends_nothing() {
    let d = build_data_file(b"x\n%", '%', Flags::empty());
    assert_eq!(d.header.count(), 0);
    assert_eq!(d.offsets, vec![0]);
}

#[test]
fn table_length_and_order() {
    let text = b"one\n%\n%\nthree\nlines\nhere\n%\nz\n%\n";
    let d = build_data_file(text, '%', Flags::empty());
    assert_eq!(d.offsets.len(), d.header.count() as usize + 1);
    assert!(d.offsets.windows(2).all(|w| w[0] <= w[1]));
    assert_eq!(*d.offsets.last().unwrap() as usize, text.len());
}

#[test]
fn multibyte_separator_line() {
    assert_eq!(separator_line('%'), vec![b'%', b'\n']);
    assert_eq!(separator_line('§'), "§\n".as_bytes().to_vec());
    assert_eq!(separator_line('€'), "€\n".as_bytes().to_vec());
    assert_eq!(separator_line('😀'), "😀\n".as_bytes().to_vec());
    let d = build_data_file("a\n§\n".as_bytes(), '§', Flags::empty());
    assert_eq!(d.offsets, vec![0, 5]);
}

#[test]
fn records_of_several_lines_are_counted() {
    let text = b"first line\nsecond line\n%\n\n%\nthird\n%\n";
    let d = build_data_file(text, '%', Flags::empty());
    assert_eq!(d.header.count(), 3);
    assert_eq!(d.offsets, vec![0, 25, 28, 36]);
    assert_eq!(d.header.longest(), 23);
    assert_eq!(d.header.shortest(), 1);
}

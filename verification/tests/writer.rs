use bufio::Writer;

/// A writer over a block on the stack takes bytes until the block is full.
#[test]
fn stack_writing() {
    let mut buffer = [0u8; 8];
    let mut writer = Writer::new(&mut buffer);

    assert_eq!(writer.written(), []);
    let n = writer.write(b"1");
    assert_eq!(n, 1);
    assert_eq!(writer.written(), [b'1']);

    let n = writer.write(b"23");
    assert_eq!(n, 2);
    assert_eq!(writer.written(), [b'1', b'2', b'3']);

    let () = writer.reset();
    assert_eq!(writer.written(), []);

    let n = writer.write(b"456");
    assert_eq!(n, 3);
    assert_eq!(writer.written(), [b'4', b'5', b'6']);

    let n = writer.write(b"123456");
    assert_eq!(n, 5);
    assert_eq!(
        writer.written(),
        [b'4', b'5', b'6', b'1', b'2', b'3', b'4', b'5']
    );

    let n = writer.write(b"1337");
    assert_eq!(n, 0);
    assert_eq!(
        writer.written(),
        [b'4', b'5', b'6', b'1', b'2', b'3', b'4', b'5']
    );
}

#[test]
fn new_writer_hides_what_the_block_held() {
    let mut buffer = [0xAAu8; 4];
    let writer = Writer::new(&mut buffer);
    assert!(writer.written().is_empty());
}

#[test]
fn written_never_longer_than_the_block() {
    let mut buffer = [0u8; 5];
    let mut writer = Writer::new(&mut buffer);
    let mut copied = 0usize;
    for chunk in [&b"ab"[..], &b""[..], &b"cde"[..], &b"fgh"[..], &b"i"[..]] {
        copied += writer.write(chunk);
        assert!(writer.written().len() <= 5);
        assert_eq!(writer.written().len(), copied);
    }
    assert_eq!(copied, 5);
    assert_eq!(writer.written(), b"abcde");
}

#[test]
fn written_is_the_offer_cut_at_the_capacity() {
    let mut buffer = [0u8; 6];
    let mut writer = Writer::new(&mut buffer);
    writer.write(b"stale");
    writer.reset();
    let mut offered: Vec<u8> = Vec::new();
    for chunk in [&b"he"[..], &b"llo"[..], &b" world"[..], &b"!"[..]] {
        writer.write(chunk);
        writer.flush();
        offered.extend_from_slice(chunk);
        let kept = offered.len().min(6);
        assert_eq!(writer.written(), &offered[..kept]);
    }
    assert_eq!(writer.written(), b"hello ");
}

#[test]
fn short_write_takes_the_leading_bytes() {
    let mut buffer = [0u8; 3];
    let mut writer = Writer::new(&mut buffer);
    assert_eq!(writer.write(b"abcdef"), 3);
    assert_eq!(writer.written(), b"abc");
}

#[test]
fn exact_fit_fills_the_block() {
    let mut buffer = [0u8; 4];
    let mut writer = Writer::new(&mut buffer);
    assert_eq!(writer.write(b"abcd"), 4);
    assert_eq!(writer.written(), b"abcd");
    assert_eq!(writer.write(b"e"), 0);
    assert_eq!(writer.written(), b"abcd");
}

#[test]
fn full_writer_takes_nothing() {
    let mut buffer = [0u8; 2];
    let mut writer = Writer::new(&mut buffer);
    assert_eq!(writer.write(b"xy"), 2);
    for _ in 0..3 {
        assert_eq!(writer.write(b"z"), 0);
        assert_eq!(writer.write(b""), 0);
        assert_eq!(writer.written(), b"xy");
    }
}

#[test]
fn empty_block_takes_nothing() {
    let mut buffer = [0u8; 0];
    let mut writer = Writer::new(&mut buffer);
    assert_eq!(writer.write(b"a"), 0);
    assert_eq!(writer.write(b""), 0);
    assert!(writer.written().is_empty());
    writer.reset();
    assert!(writer.written().is_empty());
}

#[test]
fn empty_data_changes_nothing() {
    let mut buffer = [0u8; 4];
    let mut writer = Writer::new(&mut buffer);
    assert_eq!(writer.write(b""), 0);
    assert!(writer.written().is_empty());
    assert_eq!(writer.write(b"ab"), 2);
    assert_eq!(writer.write(b""), 0);
    assert_eq!(writer.written(), b"ab");
}

#[test]
fn reset_empties_whatever_came_before() {
    let mut buffer = [0u8; 4];
    let mut writer = Writer::new(&mut buffer);
    writer.reset();
    assert!(writer.written().is_empty());
    writer.write(b"ab");
    writer.reset();
    assert!(writer.written().is_empty());
    writer.write(b"abcdef");
    writer.reset();
    writer.reset();
    assert!(writer.written().is_empty());
    assert_eq!(writer.write(b"wxyz"), 4);
    assert_eq!(writer.written(), b"wxyz");
}

#[test]
fn flush_changes_nothing() {
    let mut buffer = [0u8; 4];
    let mut writer = Writer::new(&mut buffer);
    writer.flush();
    assert!(writer.written().is_empty());
    writer.write(b"abc");
    writer.flush();
    assert_eq!(writer.written(), b"abc");
    assert_eq!(writer.write(b"de"), 1);
    writer.flush();
    assert_eq!(writer.written(), b"abcd");
}

#[test]
fn write_touches_only_the_cells_it_fills() {
    let mut buffer = [0xEEu8; 6];
    {
        let mut writer = Writer::new(&mut buffer);
        assert_eq!(writer.write(b"ab"), 2);
        assert_eq!(writer.write(b"c"), 1);
    }
    assert_eq!(buffer, [b'a', b'b', b'c', 0xEE, 0xEE, 0xEE]);
}

#[test]
fn reset_leaves_the_block_as_it_was() {
    let mut buffer = [0u8; 4];
    {
        let mut writer = Writer::new(&mut buffer);
        writer.write(b"abcd");
        writer.reset();
        assert_eq!(writer.write(b"z"), 1);
        assert_eq!(writer.written(), b"z");
    }
    assert_eq!(buffer, [b'z', b'b', b'c', b'd']);
}

#[test]
fn data_is_not_changed_by_a_write() {
    let data = [1u8, 2, 3, 4];
    let mut buffer = [0u8; 2];
    let mut writer = Writer::new(&mut buffer);
    assert_eq!(writer.write(&data), 2);
    assert_eq!(data, [1, 2, 3, 4]);
    assert_eq!(writer.written(), [1, 2]);
}

use dns::cursor::Cursor;
use dns::WireError;

#[test]
fn reads_an_expanded_name() {
    let buf = &[7, b'e', b'x', b'a', b'm', b'p', b'l', b'e', 3, b'c', b'o', b'm', 0, 0xFF];
    let mut c = Cursor::new(buf);
    assert_eq!(c.read_labels().unwrap(), "example.com");
    assert_eq!(c.pos, 13);
}

#[test]
fn reads_the_root_name_as_empty() {
    let buf = &[0, 0xFF];
    let mut c = Cursor::new(buf);
    assert_eq!(c.read_labels().unwrap(), "");
    assert_eq!(c.pos, 1);
}

#[test]
fn follows_a_pointer_without_moving_the_cursor_there() {
    let buf = &[3, b'f', b'o', b'o', 0, 0xC0, 0, 0xFF];
    let mut c = Cursor::new(buf);
    c.pos = 5;
    assert_eq!(c.read_labels().unwrap(), "foo");
    // the cursor passed the two pointer bytes, it did not follow the jump
    assert_eq!(c.pos, 7);
}

#[test]
fn pointer_past_the_buffer_is_out_of_bounds() {
    let buf = &[0xC0, 0x50];
    let mut c = Cursor::new(buf);
    assert_eq!(c.read_labels(), Err(WireError::OutOfBounds(0x50)));
}

#[test]
fn pointer_cycle_is_too_much_recursion() {
    let buf = &[0xC0, 2, 0xC0, 0];
    let mut c = Cursor::new(buf);
    match c.read_labels() {
        Err(WireError::TooMuchRecursion(chain)) => {
            assert_eq!(chain, vec![2, 0, 2]);
        }
        other => panic!("expected too much recursion, got {:?}", other),
    }
}

#[test]
fn pointer_to_itself_is_too_much_recursion() {
    let buf = &[0xC0, 0];
    let mut c = Cursor::new(buf);
    assert!(matches!(c.read_labels(), Err(WireError::TooMuchRecursion(_))));
}

#[test]
fn name_running_past_the_buffer_is_an_io_error() {
    let buf = &[5, b'a', b'b'];
    let mut c = Cursor::new(buf);
    assert_eq!(c.read_labels(), Err(WireError::IO));
}

#[test]
fn missing_terminator_is_an_io_error() {
    let buf = &[3, b'f', b'o', b'o'];
    let mut c = Cursor::new(buf);
    assert_eq!(c.read_labels(), Err(WireError::IO));
}

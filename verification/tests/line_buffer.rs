use jumperless::line_buffer::{LineBuffer, Overflow};
use jumperless::shell::{Reaction, Terminal};

#[test]
fn test_initial_buffer() {
    let buf: LineBuffer<64> = LineBuffer::new();
    assert_eq!(buf.cursor(), 0);
    assert_eq!(buf.content().len(), 0);
}

#[test]
fn test_simple_input() {
    let mut buf: LineBuffer<64> = LineBuffer::new();

    buf.insert(b'h').unwrap();
    buf.insert(b'e').unwrap();
    buf.insert(b'l').unwrap();
    buf.insert(b'l').unwrap();
    buf.insert(b'o').unwrap();
    assert_eq!(buf.cursor(), 5);
    assert_eq!(buf.content(), b"hello");
}

#[test]
fn test_correction_with_arrow_movement() {
    let mut buf: LineBuffer<64> = LineBuffer::new();

    buf.insert(b'h').unwrap();
    buf.insert(b'u').unwrap();
    buf.insert(b'l').unwrap();
    buf.insert(b'L').unwrap();
    buf.insert(b'o').unwrap();

    // fix 'L' -> 'l'
    buf.move_left();
    buf.backspace();
    buf.insert(b'l').unwrap();

    // fix 'u' -> 'e'
    buf.move_home();
    buf.move_right();
    buf.move_right();
    buf.backspace();
    buf.insert(b'e').unwrap();

    assert_eq!(buf.cursor(), 2);
    assert_eq!(buf.content(), b"hello");
}

#[test]
fn a_full_line_takes_no_more() {
    let mut buf: LineBuffer<3> = LineBuffer::new();
    assert_eq!(buf.insert(b'a'), Ok(()));
    assert_eq!(buf.insert(b'c'), Ok(()));
    buf.move_left();
    assert_eq!(buf.insert(b'b'), Ok(()));
    assert_eq!(buf.content(), b"abc");
    assert_eq!(buf.cursor(), 2);
    assert_eq!(buf.insert(b'd'), Err(Overflow));
    assert_eq!(buf.content(), b"abc");
    assert_eq!(buf.cursor(), 2);
    buf.move_end();
    assert_eq!(buf.cursor(), 3);
    buf.move_right();
    assert_eq!(buf.cursor(), 3);
    buf.move_home();
    buf.move_left();
    buf.backspace();
    assert_eq!(buf.cursor(), 0);
    assert_eq!(buf.content(), b"abc");
    buf.reset();
    assert_eq!(buf.content(), b"");
    assert_eq!(buf.cursor(), 0);
}

#[test]
fn the_terminal_edits_the_line() {
    let mut terminal: Terminal<8> = Terminal::new();
    for c in b"ad" {
        assert_eq!(terminal.feed(*c), Reaction::Show);
    }
    // LEFT, then insert
    assert_eq!(terminal.feed(27), Reaction::Show);
    assert_eq!(terminal.feed(b'['), Reaction::Show);
    assert_eq!(terminal.feed(b'D'), Reaction::Show);
    assert_eq!(terminal.feed(b'b'), Reaction::Show);
    assert_eq!(terminal.feed(b'c'), Reaction::Show);
    assert_eq!(terminal.line().content(), b"abcd");
    assert_eq!(terminal.line().cursor(), 3);
    // HOME, RIGHT, BACKSPACE, END
    for c in [27, b'[', b'H', 27, b'[', b'C', 127, 27, b'[', b'F'] {
        assert_eq!(terminal.feed(c), Reaction::Show);
    }
    assert_eq!(terminal.line().content(), b"bcd");
    assert_eq!(terminal.line().cursor(), 3);
    // an escape byte that introduces nothing, and a control byte
    for c in [27, b'D', 7, b' '] {
        assert_eq!(terminal.feed(c), Reaction::Show);
    }
    assert_eq!(terminal.line().content(), b"bcd ");
    assert_eq!(terminal.feed(b'\r'), Reaction::Submitted);
    assert_eq!(terminal.line().content(), b"bcd ");
    terminal.clear_line();
    assert_eq!(terminal.line().content(), b"");
    for c in b"12345678" {
        assert_eq!(terminal.feed(*c), Reaction::Show);
    }
    assert_eq!(terminal.feed(b'9'), Reaction::Overflowed);
    assert_eq!(terminal.line().content(), b"");
    assert_eq!(terminal.feed(b'x'), Reaction::Show);
    assert_eq!(terminal.feed(3), Reaction::Interrupted);
    assert_eq!(terminal.line().content(), b"");
}

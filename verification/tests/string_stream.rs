use tiny_c_compiler::string_stream::{DoubleBufferStringStream, StringStream, BUFFER_SIZE};

#[test]
fn a_short_string_is_one_chunk() {
    let mut stream = DoubleBufferStringStream::new_with_string("1+2".to_string());
    let chunk = stream.next_buffer().unwrap();
    assert_eq!(chunk.count, 3);
    assert_eq!(chunk.read_index, 0);
    assert_eq!(&chunk.buffer[..3], &['1', '+', '2']);
    assert!(chunk.buffer[3..].iter().all(|c| *c == '\0'));
    assert!(stream.next_buffer().is_none());
    assert!(stream.next_buffer().is_none());
}

#[test]
fn an_empty_string_has_no_chunk() {
    let mut stream = DoubleBufferStringStream::new_with_string(String::new());
    assert!(stream.next_buffer().is_none());
    assert!(stream.next_buffer().is_none());
    let mut stream = DoubleBufferStringStream::new();
    assert!(stream.next_buffer().is_none());
}

#[test]
fn a_long_string_comes_in_chunks() {
    let text: String = (0..BUFFER_SIZE + 904).map(|i| char::from(b'0' + (i % 10) as u8)).collect();
    let chars: Vec<char> = text.chars().collect();
    let mut stream = DoubleBufferStringStream::new_with_string(text);

    let first = stream.next_buffer().unwrap();
    assert_eq!(first.count, BUFFER_SIZE);
    assert_eq!(first.read_index, 0);
    assert_eq!(&first.buffer[..], &chars[..BUFFER_SIZE]);

    let second = stream.next_buffer().unwrap();
    assert_eq!(second.count, 904);
    assert_eq!(second.read_index, 0);
    assert_eq!(&second.buffer[..904], &chars[BUFFER_SIZE..]);

    assert!(stream.next_buffer().is_none());
    assert!(stream.next_buffer().is_none());
}

#[test]
fn a_string_of_exactly_one_chunk() {
    let text: String = "7".repeat(BUFFER_SIZE);
    let mut stream = DoubleBufferStringStream::new_with_string(text);
    assert_eq!(stream.next_buffer().unwrap().count, BUFFER_SIZE);
    assert!(stream.next_buffer().is_none());
}

#[test]
fn chunks_count_characters_not_bytes() {
    let mut stream = DoubleBufferStringStream::new_with_string("a\u{e9}\u{4e2d}".to_string());
    let chunk = stream.next_buffer().unwrap();
    assert_eq!(chunk.count, 3);
    assert_eq!(&chunk.buffer[..3], &['a', '\u{e9}', '\u{4e2d}']);
}

#[test]
fn opening_a_string_starts_over() {
    let mut stream = DoubleBufferStringStream::new_with_string("12".to_string());
    assert_eq!(stream.next_buffer().unwrap().count, 2);
    stream.open_with_string("345".to_string());
    let chunk = stream.next_buffer().unwrap();
    assert_eq!(&chunk.buffer[..chunk.count], &['3', '4', '5']);
    assert!(stream.next_buffer().is_none());
}

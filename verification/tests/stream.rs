use tiny_c_compiler::stream::{BasicStream, Stream};

#[test]
fn test_stream_basic() {
    // Create a BasicStream with an input string
    let input_string = "Hello, World!".to_string();
    let mut stream = BasicStream::new_with_string(input_string.clone());

    // Test if the next method returns the correct string
    assert_eq!(stream.next(), Some(input_string));
    assert_eq!(stream.next(), None); // Stream should be empty now
}

#[test]
fn stream_stays_empty() {
    let mut stream = BasicStream::new_with_string(String::new());
    assert_eq!(stream.next(), Some(String::new()));
    assert_eq!(stream.next(), None);
    assert_eq!(stream.next(), None);
}

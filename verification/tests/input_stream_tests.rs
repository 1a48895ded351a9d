use jsonish::tokenizer::input_stream::InputStream;

#[test]
fn test_simple_input_string() {
    let mut stream = InputStream::new("Hello World!");
    assert_eq!(stream.get_char().unwrap(), 'H');
    assert_eq!(stream.get_char().unwrap(), 'e');
    assert_eq!(stream.get_char().unwrap(), 'l');
    assert_eq!(stream.get_char().unwrap(), 'l');
    assert_eq!(stream.get_char().unwrap(), 'o');
    assert_eq!(stream.get_char().unwrap(), ' ');
    assert_eq!(stream.get_char().unwrap(), 'W');
    assert_eq!(stream.get_char().unwrap(), 'o');
    assert_eq!(stream.get_char().unwrap(), 'r');
    assert_eq!(stream.get_char().unwrap(), 'l');
    assert_eq!(stream.get_char().unwrap(), 'd');
}

#[test]
fn test_out_of_bounds() {
    let mut stream = InputStream::new("1");
    stream.get_char();
    assert!(stream.get_char().is_none());
}

#[test]
fn test_unseek_rereads_character() {
    let mut stream = InputStream::new("ab");
    assert_eq!(stream.get_char().unwrap(), 'a');
    stream.unseek();
    assert_eq!(stream.get_char().unwrap(), 'a');
    assert_eq!(stream.get_char().unwrap(), 'b');
}

#[test]
fn test_unseek_at_start_does_nothing() {
    let mut stream = InputStream::new("a");
    stream.unseek();
    assert_eq!(stream.get_char().unwrap(), 'a');
}

use simcheck::ContentStore;
use simcheck::content::load_text;

#[test]
fn ascii_bytes_load_unchanged() {
    let bytes: Vec<u8> = b"plain ascii text, nothing special here".to_vec();
    let text = load_text(&bytes, false);
    assert_eq!(text, "plain ascii text, nothing special here");
}

#[test]
fn utf8_bytes_decode_to_their_characters() {
    let source = "la d\u{e9}tection d'encodage pr\u{e9}serve les caract\u{e8}res accentu\u{e9}s";
    let bytes: Vec<u8> = source.as_bytes().to_vec();
    let text = load_text(&bytes, false);
    assert_eq!(text, source);
}

#[test]
fn trim_strips_all_whitespace() {
    let bytes: Vec<u8> = b" a b\tc\nd \r\n".to_vec();
    let text = load_text(&bytes, true);
    assert_eq!(text, "abcd");
}

#[test]
fn store_keeps_names_and_texts_aligned() {
    let mut store = ContentStore::new();
    assert_eq!(store.len(), 0);
    store.add_file("first.txt".to_string(), &b"one two".to_vec(), false);
    store.add_file("second.txt".to_string(), &b"one\ttwo".to_vec(), true);
    assert_eq!(store.len(), 2);
    assert_eq!(store.names[0], "first.txt");
    assert_eq!(store.names[1], "second.txt");
    assert_eq!(store.texts[0], "one two");
    assert_eq!(store.texts[1], "onetwo");
}

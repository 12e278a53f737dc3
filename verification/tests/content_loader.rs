use anweb::content_loader::ContentLoader;

#[test]
fn test() {
    let raw_data = b"Hello world!";
    let mut content_loader = ContentLoader::new(raw_data.len());
    if let Some((content, surplus)) = content_loader.load_yet(raw_data) {
        assert_eq!(content, raw_data);
        assert!(surplus.is_empty());
    } else {
        assert!(false);
    }

    let raw_data = b"Hello world!abc";
    let mut content_loader = ContentLoader::new(12);
    if let Some((content, surplus)) = content_loader.load_yet(raw_data) {
        assert_eq!(content, b"Hello world!");
        assert_eq!(surplus, b"abc");
    } else {
        assert!(false);
    }

    let raw_data = b"Hello ";
    let mut content_loader = ContentLoader::new(12);
    // need more data
    assert_eq!(content_loader.load_yet(raw_data), None);

    let raw_data = b"Hello world!";
    let mut content_loader = ContentLoader::new(raw_data.len());
    if let Some((content, surplus)) = content_loader.load_yet(raw_data) {
        assert_eq!(content, b"Hello world!");
        assert!(surplus.is_empty());
    } else {
        assert!(false);
    }
}

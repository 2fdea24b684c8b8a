use soundcalc::slicer::{encoded_len, Slicer};

#[test]
fn test_slicer() {
    let mut slicer = Slicer::new();
    slicer.set("𠮷野家で𩸽".to_string());
    assert_eq!(slicer.next().map(|item| item.0), Some('𠮷'));
    assert_eq!(slicer.count(), 1);
    assert_eq!(slicer.next().map(|item| item.0), Some('野'));
    assert_eq!(slicer.count(), 2);
    assert_eq!(slicer.next().map(|item| item.0), Some('家'));
    assert_eq!(slicer.count(), 3);
    assert_eq!(slicer.next().map(|item| item.0), Some('で'));
    assert_eq!(slicer.count(), 4);
    assert_eq!(slicer.next().map(|item| item.0), Some('𩸽'));
    assert_eq!(slicer.count(), 5);
}

#[test]
fn slicer_reports_byte_and_character_positions() {
    let text = "a𠮷野z";
    let mut slicer = Slicer::new();
    slicer.set(text.to_string());
    let mut expected = text.char_indices().enumerate();
    loop {
        let item = slicer.next();
        let wanted = expected.next().map(|(count, (index, c))| (c, index, count));
        assert_eq!(item, wanted);
        if item.is_none() {
            break;
        }
    }
    assert_eq!(slicer.next(), None);
    assert_eq!(slicer.count(), 4);
}

#[test]
fn slicer_of_nothing_yields_nothing() {
    let mut slicer = Slicer::new();
    assert_eq!(slicer.next(), None);
    slicer.set(String::new());
    assert_eq!(slicer.next(), None);
    assert_eq!(slicer.count(), 0);
}

#[test]
fn encoded_len_agrees_with_the_standard_library() {
    for c in ['\0', 'a', '\u{7f}', '\u{80}', 'é', '\u{7ff}', '\u{800}', '野', '\u{ffff}', '\u{10000}', '𠮷', '\u{10ffff}'] {
        assert_eq!(encoded_len(c), c.len_utf8());
    }
}

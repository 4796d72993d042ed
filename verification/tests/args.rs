use libwing::Args;

fn words(list: &[&str]) -> Vec<String> {
    list.iter().map(|s| s.to_string()).collect()
}

#[test]
fn next_hands_out_words_in_order() {
    let mut a = Args::new("usage", words(&["-h", "host", "prop"]));
    assert!(a.has_next());
    assert_eq!(a.next(), Some("-h".to_string()));
    assert_eq!(a.next(), Some("host".to_string()));
    assert!(a.has_next());
    assert_eq!(a.next(), Some("prop".to_string()));
    assert!(!a.has_next());
    assert_eq!(a.next(), None);
    assert_eq!(a.next(), None);
}

#[test]
fn no_words_no_next() {
    let mut a = Args::new("usage", Vec::new());
    assert!(!a.has_next());
    assert_eq!(a.next(), None);
}

#[test]
fn help_text_with_and_without_message() {
    let a = Args::new("Usage: tool [-j] property", Vec::new());
    assert_eq!(a.help_text(None), "Usage: tool [-j] property");
    assert_eq!(a.help_text(Some("bad argument")), "bad argument\n\nUsage: tool [-j] property");
}

#[test]
fn count_is_held_in_one_byte() {
    let many: Vec<String> = (0..255).map(|i| i.to_string()).collect();
    let mut a = Args::new("", many);
    for i in 0..255 {
        assert!(a.has_next());
        assert_eq!(a.next(), Some(i.to_string()));
    }
    assert!(!a.has_next());

    let wrapped: Vec<String> = (0..256).map(|i| i.to_string()).collect();
    let mut b = Args::new("", wrapped);
    assert!(!b.has_next());
    assert_eq!(b.next(), None);

    let more: Vec<String> = (0..258).map(|i| i.to_string()).collect();
    let mut c = Args::new("", more);
    assert_eq!(c.next(), Some("0".to_string()));
    assert_eq!(c.next(), Some("1".to_string()));
    assert!(!c.has_next());
    assert_eq!(c.next(), None);
}

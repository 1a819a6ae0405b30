use kbswitch::{Layout, Recognizer};

fn dict() -> Vec<String> {
    vec![String::from("word")]
}

#[test]
fn test_prefix() {
    let r = Recognizer::new(dict());
    assert_eq!(0, r.prefix("qwordq"));
    assert_eq!(0, r.prefix("wordq"));
    assert_eq!(0, r.prefix("qword"));
    assert_eq!(3, r.prefix("wor"));
    assert_eq!(4, r.prefix("word"));
}

#[test]
fn test_suffix() {
    let r = Recognizer::new(dict());
    assert_eq!(0, r.suffix("qwordq"));
    assert_eq!(0, r.suffix("wordq"));
    assert_eq!(0, r.suffix("qword"));
    assert_eq!(3, r.suffix("ord"));
    assert_eq!(4, r.suffix("word"));
}

#[test]
fn test_recognizer_us_dv() {
    // Typing with Dvorak muscle memory while US is active produces ",soh"
    // for an intended "word": garbage under US, a dictionary word once
    // remapped through Dvorak, so Dvorak is recommended.
    let mut r = Recognizer::new(dict());
    assert_eq!(None, r.recommend());
    r.feed_str(",soh ,soh ,soh ,soh");
    assert_eq!(Some(Layout::Dvorak), r.recommend());
}

#[test]
fn test_recognizer_dv_us() {
    // ",rpe" is what "word" typed with US muscle memory looks like while
    // Dvorak is active.  The recognizer assumes US is the active layout, so
    // this reads as garbage under both candidates and nothing clears the
    // threshold.
    let mut r = Recognizer::new(dict());
    assert_eq!(None, r.recommend());
    r.feed_str(",rpe ,rpe ,rpe ,rpe");
    assert_eq!(None, r.recommend());
}

#[test]
fn test_recognizer_repeated_word_stays_primary() {
    let mut r = Recognizer::new(dict());
    r.feed_str("w");
    r.feed_str("ord word word word");
    assert_eq!(Some(Layout::US), r.recommend());
}

#[test]
fn test_recognizer_empty_buffer() {
    let r = Recognizer::new(dict());
    assert_eq!(None, r.recommend());
}

#[test]
fn test_recommend_read_only() {
    let mut r = Recognizer::new(dict());
    r.feed_str("word word word word");
    let first = r.recommend();
    let second = r.recommend();
    assert_eq!(first, second);
    assert_eq!(Some(Layout::US), first);
}

#[test]
fn test_feed_evicts_oldest() {
    let mut r = Recognizer::new(dict());
    r.feed_str("word word word word");
    assert_eq!(Some(Layout::US), r.recommend());
    // Sixteen spaces push every letter out of the window.
    r.feed_str("                ");
    assert_eq!(None, r.recommend());
}

#[test]
fn test_feed_single_characters() {
    let mut r = Recognizer::new(dict());
    for c in "word word word word".chars() {
        r.feed(c);
    }
    assert_eq!(Some(Layout::US), r.recommend());
}

#[test]
fn test_exact_scores() {
    let r = Recognizer::new(dict());
    assert_eq!(4, r.exact("word"));
    assert_eq!(0, r.exact("wor"));
    assert_eq!(0, r.exact("words"));
    assert_eq!(0, r.exact(""));
}

#[test]
fn test_prefix_suffix_empty_and_bound() {
    let r = Recognizer::new(dict());
    assert_eq!(0, r.prefix(""));
    assert_eq!(0, r.suffix(""));
    // Nothing longer than the longest dictionary word can score.
    assert_eq!(0, r.prefix("wordy"));
    assert_eq!(0, r.suffix("sword"));
}

#[test]
fn test_transform_round_trip() {
    let t = Recognizer::transform(Layout::Dvorak, ",soh");
    assert_eq!("word", t);
    let back = Recognizer::untransform(Layout::Dvorak, t.as_str());
    assert_eq!(",soh", back);
    let sample = "the quick brown fox; '[]/=- {}?\"<>";
    let mapped = Recognizer::transform(Layout::Dvorak, sample);
    assert_eq!(sample, Recognizer::untransform(Layout::Dvorak, mapped.as_str()));
    let unmapped = Recognizer::untransform(Layout::Dvorak, sample);
    assert_eq!(sample, Recognizer::transform(Layout::Dvorak, unmapped.as_str()));
    assert_eq!(sample, Recognizer::transform(Layout::US, sample));
    assert_eq!(sample, Recognizer::untransform(Layout::US, sample));
}

#[test]
fn test_split_head_middle_tail() {
    let (head, middle, tail) = Recognizer::split_head_middle_tail("d word wor");
    assert_eq!("d", head);
    assert_eq!(vec!["word"], middle);
    assert_eq!("wor", tail);

    let (head, middle, tail) = Recognizer::split_head_middle_tail("word");
    assert_eq!("", head);
    assert!(middle.is_empty());
    assert_eq!("word", tail);

    let (head, middle, tail) = Recognizer::split_head_middle_tail("");
    assert_eq!("", head);
    assert!(middle.is_empty());
    assert_eq!("", tail);

    let (head, middle, tail) = Recognizer::split_head_middle_tail("a  b");
    assert_eq!("a", head);
    assert_eq!(vec![""], middle);
    assert_eq!("b", tail);
}

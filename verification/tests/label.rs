use bench_sampler::label::{idx_to_color, LabelCache, LabelColor};

#[test]
fn test_roudtrip() {
    let mut cache = LabelCache::new();
    let foobar = cache.insert("foobar");
    assert_eq!(cache.render(foobar), "\u{1b}[35mfoobar\u{1b}[0m");
    let barqux = cache.insert("barqux");
    assert_eq!(cache.render(barqux), "\u{1b}[33mbarqux\u{1b}[0m");
    let barqux = cache.insert("barqux");
    assert_eq!(cache.render(barqux), "\u{1b}[33mbarqux\u{1b}[0m");
    let foobar = cache.insert("foobar");
    assert_eq!(cache.render(foobar), "\u{1b}[35mfoobar\u{1b}[0m");
}

#[test]
fn insert_interns_each_text_once() {
    let mut cache = LabelCache::default();
    assert_eq!(cache.len(), 0);
    let a = cache.insert("a");
    let b = cache.insert("b");
    let a_again = cache.insert("a");
    assert_eq!(a, a_again);
    assert_ne!(a, b);
    assert_eq!(a.index(), 0);
    assert_eq!(b.index(), 1);
    assert_eq!(cache.len(), 2);
    assert_eq!(cache.text(a), "a");
    assert_eq!(cache.text(b), "b");
    assert!(a < b);
}

#[test]
fn colors_cycle_through_four() {
    assert_eq!(idx_to_color(0), LabelColor::Purple);
    assert_eq!(idx_to_color(1), LabelColor::Yellow);
    assert_eq!(idx_to_color(2), LabelColor::Cyan);
    assert_eq!(idx_to_color(3), LabelColor::Green);
    assert_eq!(idx_to_color(4), LabelColor::Purple);
    assert_eq!(idx_to_color(usize::MAX), LabelColor::Green);
}

#[test]
fn render_uses_the_color_of_the_position() {
    let mut cache = LabelCache::new();
    let texts = ["one", "two", "three", "four", "five"];
    let codes = ["35", "33", "36", "32", "35"];
    for (text, code) in texts.iter().zip(codes.iter()) {
        let label = cache.insert(text);
        assert_eq!(cache.render(label), format!("\u{1b}[{}m{}\u{1b}[0m", code, text));
    }
    let empty = cache.insert("");
    assert_eq!(cache.render(empty), "\u{1b}[33m\u{1b}[0m");
}

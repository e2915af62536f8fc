use quest_packet::text::{contains, str_eq};

#[test]
fn contains_finds_a_domain_inside_a_url() {
    assert!(contains("https://google.com/search?q=x", "google.com"));
    assert!(contains("https://google.com", "google.com"));
    assert!(contains("google.com", "google.com"));
}

#[test]
fn contains_rejects_a_url_without_the_domain() {
    assert!(!contains("https://example.com", "google.com"));
    assert!(!contains("https://google.co", "google.com"));
    assert!(!contains("", "google.com"));
}

#[test]
fn contains_matches_loosely() {
    // The pattern may sit in a path of another host.
    assert!(contains("https://example.com/google.com", "google.com"));
    assert!(contains("http://mail.google.com:8080/", "google.com"));
}

#[test]
fn contains_needs_a_contiguous_run() {
    assert!(!contains("goo gle.com", "google.com"));
    assert!(!contains("google.co.m", "google.com"));
    assert!(contains("aaab", "aab"));
    assert!(!contains("abab", "bb"));
}

#[test]
fn contains_the_empty_needle_everywhere() {
    assert!(contains("abc", ""));
    assert!(contains("", ""));
}

#[test]
fn contains_at_the_very_end() {
    assert!(contains("xxgoogle.com", "google.com"));
    assert!(contains("abc", "c"));
    assert!(!contains("abc", "d"));
}

#[test]
fn contains_agrees_with_std_on_many_pairs() {
    let haystacks = ["", "a", "ab", "aba", "abab", "bbb", "https://google.com", "héllo wörld"];
    let needles = ["", "a", "b", "ab", "ba", "bb", "google", "ö", "llo w", "é"];
    for h in haystacks {
        for n in needles {
            assert_eq!(contains(h, n), h.contains(n), "haystack {:?}, needle {:?}", h, n);
        }
    }
}

#[test]
fn contains_works_on_characters_beyond_ascii() {
    assert!(contains("https://例え.jp/パス", "例え.jp"));
    assert!(!contains("https://例え.jp/パス", "例.jp"));
}

#[test]
fn str_eq_compares_characters() {
    assert!(str_eq("quest-1", "quest-1"));
    assert!(!str_eq("quest-1", "quest-2"));
    assert!(!str_eq("quest-1", "quest-10"));
    assert!(!str_eq("quest-10", "quest-1"));
    assert!(str_eq("", ""));
    assert!(!str_eq("", "a"));
    assert!(str_eq("wörld", "wörld"));
    assert!(!str_eq("wörld", "world"));
}

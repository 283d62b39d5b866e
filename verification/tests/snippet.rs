//! Truncating snippets.

use localdb_core::snippet::truncate_snippet;

#[test]
fn paragraph_break_is_preferred() {
    let first = "A".repeat(40);
    let second = "this continues on and on well past the cap point here";
    let text = format!("{first}\n\n{second}");
    let (prefix, truncated) = truncate_snippet(&text, 50);
    assert!(truncated);
    assert!(prefix.ends_with(&first));
    assert!(!prefix.contains("this continues"));
}

#[test]
fn sentence_snap_period_space() {
    let text = "This is sentence one. This is sentence two that keeps going and going and going further.";
    let (prefix, truncated) = truncate_snippet(text, 25);
    assert!(truncated);
    assert!(prefix.ends_with('.'));
    assert_eq!(prefix, "This is sentence one.");
}

#[test]
fn sentence_snap_question_mark() {
    let text = "Is this the one? Yes it definitely is the one we were looking for all along.";
    let (prefix, truncated) = truncate_snippet(text, 20);
    assert!(truncated);
    assert!(prefix.ends_with('?'));
    assert_eq!(prefix, "Is this the one?");
}

#[test]
fn sentence_snap_exclamation() {
    let text = "Watch out! There is a large rock rolling down the hill towards the village.";
    let (prefix, truncated) = truncate_snippet(text, 13);
    assert!(truncated);
    assert!(prefix.ends_with('!'));
    assert_eq!(prefix, "Watch out!");
}

#[test]
fn sentence_snap_quoted_period() {
    let text =
        r#"She said "stop." Then everyone in the room went completely and utterly silent."#;
    let (prefix, truncated) = truncate_snippet(text, 18);
    assert!(truncated);
    assert!(prefix.ends_with('"'));
    assert_eq!(prefix, "She said \"stop.\"");
}

#[test]
fn word_boundary_fallback_no_sentence_or_paragraph() {
    let text = "word ".repeat(100);
    let (prefix, truncated) = truncate_snippet(&text, 50);
    assert!(truncated);
    assert!(prefix.chars().count() <= 50);
    assert!(!prefix.ends_with("wor"));
    assert!(prefix.ends_with("word") || prefix.trim_end().ends_with("word"));
}

#[test]
fn word_boundary_includes_whitespace_at_cap() {
    let (prefix, truncated) = truncate_snippet("hello world again", 11);
    assert_eq!(prefix, "hello world");
    assert!(truncated);
}

#[test]
fn no_false_sentence_end_at_window_edge() {
    let (prefix, truncated) = truncate_snippet("see example.com/path for details", 10);
    assert!(truncated);
    assert!(
        !prefix.ends_with('.'),
        "must not cut at a mid-token period, got: {prefix:?}"
    );
    assert_eq!(prefix, "see");
}

#[test]
fn hard_fallback_on_unbroken_token() {
    let text = "a".repeat(1000);
    let (prefix, truncated) = truncate_snippet(&text, 50);
    assert!(truncated);
    assert_eq!(prefix.chars().count(), 50);
    assert_eq!(prefix, "a".repeat(50));
}

#[test]
fn multibyte_safety_accented() {
    let text = format!("{}{}", "é".repeat(60), "more text after the accents here");
    for cap in [1, 10, 30, 50, 65] {
        let (prefix, _truncated) = truncate_snippet(&text, cap);
        assert!(prefix.chars().count() <= cap + cap / 5);
        assert!(!prefix.is_empty());
    }
}

#[test]
fn multibyte_safety_emoji() {
    let text = format!(
        "{}{}",
        "🎉".repeat(60),
        "more text after the party emoji run"
    );
    for cap in [1, 10, 30, 50, 65] {
        let (prefix, _truncated) = truncate_snippet(&text, cap);
        assert!(prefix.chars().count() <= cap + cap / 5);
        assert!(!prefix.is_empty());
    }
}

#[test]
fn multibyte_safety_cjk() {
    let text = format!(
        "{}{}",
        "漢字".repeat(60),
        "more text after the cjk run here"
    );
    for cap in [1, 10, 30, 50, 65] {
        let (prefix, _truncated) = truncate_snippet(&text, cap);
        assert!(prefix.chars().count() <= cap + cap / 5);
        assert!(!prefix.is_empty());
    }
}

#[test]
fn soft_cap_ge_len_is_untruncated() {
    let text = "short text here";
    let total = text.chars().count();
    let (prefix, truncated) = truncate_snippet(text, total);
    assert_eq!(prefix, text);
    assert!(!truncated);

    let (prefix, truncated) = truncate_snippet(text, total + 10);
    assert_eq!(prefix, text);
    assert!(!truncated);
}

#[test]
fn soft_cap_of_one() {
    let text = "hello world this is a longer sentence than one char.";
    let (prefix, truncated) = truncate_snippet(text, 1);
    assert!(truncated);
    assert!(!prefix.is_empty());
}

#[test]
fn empty_input() {
    for cap in [0, 1, 5, 400] {
        let (prefix, truncated) = truncate_snippet("", cap);
        assert_eq!(prefix, "");
        assert!(!truncated);
    }
}

#[test]
fn pseudo_property_guarantees() {
    let fragments = [
        "The quick brown fox jumps over the lazy dog. ",
        "Another sentence follows here, with a comma! ",
        "漢字の文章がここに続きます。これはテストです。",
        "🎉🎊🎈 party time all the time every single day 🎉🎊🎈 ",
        "Mixed café naïve résumé with accents and more words. ",
        "\n\nA fresh paragraph starts here after a break.\n\n",
        "word ",
        "",
        "a",
        "   leading and trailing whitespace text follows here   ",
    ];

    let mut strings: Vec<String> = Vec::new();
    for i in 0..fragments.len() {
        let mut s = String::new();
        for j in 0..=i {
            s.push_str(fragments[j]);
            s.push_str(fragments[(i + j) % fragments.len()]);
        }
        strings.push(s);
    }

    let caps = [1usize, 5, 50, 400];

    for s in &strings {
        let len = s.chars().count();
        let mut test_caps = caps.to_vec();
        if len > 0 {
            test_caps.push(len.saturating_sub(1).max(1));
            test_caps.push(len);
            test_caps.push(len + 1);
        }
        for &cap in &test_caps {
            let (prefix, _truncated) = truncate_snippet(s, cap);
            if !s.is_empty() {
                assert!(!prefix.is_empty(), "empty prefix for cap={cap} on {s:?}");
            }
            assert!(
                prefix.chars().count() <= cap + cap / 5,
                "prefix too long for cap={cap}: {} chars, text={s:?}",
                prefix.chars().count()
            );
        }
    }
}

#[test]
fn a_zero_cap_gives_an_empty_prefix() {
    assert_eq!(truncate_snippet("abc", 0), ("", true));
}

#[test]
fn a_huge_cap_does_not_overflow() {
    assert_eq!(truncate_snippet("abc", usize::MAX), ("abc", false));
}

use flaky_report::text::{
    chars_of, find_in, first_segment_in, is_match_at, last_segment_in, place_of, push_decimal,
    push_str, remove_all_in, same, split_lines, split_once_in, string_from, Place,
};

fn chars(s: &str) -> Vec<char> {
    s.chars().collect()
}

fn text(v: &Vec<char>) -> String {
    v.iter().collect()
}

#[test]
fn chars_and_back() {
    assert_eq!(chars_of("a/é - ✓"), chars("a/é - ✓"));
    assert_eq!(string_from(&chars("a/é - ✓")), "a/é - ✓");
    assert_eq!(chars_of(""), Vec::<char>::new());
    assert!(same("abc", "abc"));
    assert!(!same("abc", "abd"));
    assert!(!same("abc", "ab"));
}

#[test]
fn find_gives_the_first_occurrence() {
    assert_eq!(find_in(&chars("a - b - c"), &chars(" - ")), Some(1));
    assert_eq!(find_in(&chars("a-b"), &chars(" - ")), None);
    assert_eq!(find_in(&chars("abc"), &chars("abc")), Some(0));
    assert_eq!(find_in(&chars("ab"), &chars("abc")), None);
    assert_eq!(find_in(&chars("abc"), &chars("")), Some(0));
    assert_eq!(find_in(&chars(""), &chars("")), Some(0));
    assert_eq!(find_in(&chars("aab"), &chars("ab")), Some(1));
    assert!(is_match_at(&chars("xab"), &chars("ab"), 1));
    assert!(!is_match_at(&chars("xab"), &chars("ab"), 2));
    assert!(!is_match_at(&chars("xab"), &chars("ab"), 7));
}

#[test]
fn split_once_cuts_at_the_first_occurrence() {
    let (before, after) = split_once_in(&chars("a/b/c"), &chars("/")).unwrap();
    assert_eq!(text(&before), "a");
    assert_eq!(text(&after), "b/c");
    assert!(split_once_in(&chars("abc"), &chars("/")).is_none());
    assert_eq!(text(&first_segment_in(&chars("a/b/c"), &chars("/"))), "a");
    assert_eq!(text(&first_segment_in(&chars("abc"), &chars("/"))), "abc");
    let url = chars("https://percy.io/o/p/builds/123");
    assert_eq!(text(&last_segment_in(&url, &chars("/"))), "123");
    assert_eq!(text(&last_segment_in(&chars("123"), &chars("/"))), "123");
    assert_eq!(text(&last_segment_in(&chars("a/b/"), &chars("/"))), "");
    assert_eq!(text(&last_segment_in(&chars("abc"), &chars(""))), "abc");
}

#[test]
fn lines_are_those_of_std() {
    for sample in [
        "",
        "a",
        "a\n",
        "a\nb",
        "a\n\nb\n",
        "\n",
        "\n\n",
        "a\r\nb\r\n",
        "a\r",
        "a\r\n\r\nb",
        "\r\n",
        "a\rb\nc",
        "a\r\r\nb",
    ] {
        let got: Vec<String> = split_lines(&chars(sample)).iter().map(text).collect();
        let want: Vec<String> = sample.lines().map(|l| l.to_string()).collect();
        assert_eq!(got, want, "lines of {:?}", sample);
    }
}

#[test]
fn remove_all_is_replace_with_nothing() {
    for (sample, pattern) in [
        ("\u{1b}[31merror\u{1b}[0m", "[31m"),
        ("aaaa", "aa"),
        ("aaa", "aa"),
        ("abab", "ab"),
        ("aabb", "ab"),
        ("abc", "x"),
        ("", "x"),
        ("[0[0mm", "[0m"),
    ] {
        assert_eq!(
            text(&remove_all_in(&chars(sample), &chars(pattern))),
            sample.replace(pattern, ""),
            "{:?} without {:?}",
            sample,
            pattern
        );
    }
    assert_eq!(text(&remove_all_in(&chars("abc"), &chars(""))), "abc");
}

#[test]
fn order_is_that_of_str() {
    let samples = ["", "a", "ab", "b", "B", "a/b", "a-b", "é", "z", "a/", "3D/x", "UI/x"];
    for a in samples {
        for b in samples {
            let want = match a.cmp(b) {
                std::cmp::Ordering::Less => Place::Before,
                std::cmp::Ordering::Equal => Place::Same,
                std::cmp::Ordering::Greater => Place::After,
            };
            assert_eq!(place_of(&chars(a), &chars(b)), want, "{:?} to {:?}", a, b);
        }
    }
}

#[test]
fn decimal_numerals() {
    for n in [0u32, 7, 9, 10, 11, 99, 100, 101, 4711, 1_000_000, u32::MAX] {
        let mut out = chars("n=");
        push_decimal(&mut out, n);
        assert_eq!(text(&out), format!("n={}", n));
    }
    let mut out = chars("a");
    push_str(&mut out, "bc");
    assert_eq!(text(&out), "abc");
}

/// A sequence of texts over a small alphabet, the same at each call.
fn samples(alphabet: &[char], count: usize, longest: u64) -> Vec<String> {
    let mut state: u64 = 0x9e37_79b9_7f4a_7c15;
    let mut next = move || {
        state = state.wrapping_mul(6364136223846793005).wrapping_add(1442695040888963407);
        state >> 33
    };
    let mut all = Vec::new();
    for _ in 0..count {
        let length = next() % (longest + 1);
        let mut sample = String::new();
        for _ in 0..length {
            sample.push(alphabet[(next() % alphabet.len() as u64) as usize]);
        }
        all.push(sample);
    }
    all
}

#[test]
fn lines_are_those_of_std_on_many_texts() {
    for sample in samples(&['a', '\n', '\r', ' '], 2000, 12) {
        let got: Vec<String> = split_lines(&chars(&sample)).iter().map(text).collect();
        let want: Vec<String> = sample.lines().map(|l| l.to_string()).collect();
        assert_eq!(got, want, "lines of {:?}", sample);
    }
}

#[test]
fn remove_all_is_replace_on_many_texts() {
    let patterns = samples(&['[', '0', 'm'], 40, 3);
    for sample in samples(&['[', '0', 'm', '3'], 500, 14) {
        for pattern in patterns.iter().filter(|p| !p.is_empty()) {
            assert_eq!(
                text(&remove_all_in(&chars(&sample), &chars(pattern))),
                sample.replace(pattern.as_str(), ""),
                "{:?} without {:?}",
                sample,
                pattern
            );
        }
    }
}

#[test]
fn find_is_that_of_std_on_many_texts() {
    let patterns = samples(&['a', 'b'], 30, 3);
    for sample in samples(&['a', 'b'], 500, 10) {
        for pattern in patterns.iter() {
            assert_eq!(
                find_in(&chars(&sample), &chars(pattern)),
                sample.find(pattern.as_str()),
                "{:?} in {:?}",
                pattern,
                sample
            );
        }
    }
}

#[test]
fn order_is_that_of_str_on_many_texts() {
    let all = samples(&['a', 'b', '/', '-', 'é', '\u{10348}'], 120, 5);
    for a in all.iter() {
        for b in all.iter() {
            let want = match a.cmp(b) {
                std::cmp::Ordering::Less => Place::Before,
                std::cmp::Ordering::Equal => Place::Same,
                std::cmp::Ordering::Greater => Place::After,
            };
            assert_eq!(place_of(&chars(a), &chars(b)), want, "{:?} to {:?}", a, b);
        }
    }
}

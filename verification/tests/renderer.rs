use stanza::renderer::pad;
use stanza::style::HAlign;

#[test]
fn wrap() {
    struct Case {
        input: (&'static str, usize),
        expect: Vec<&'static str>,
    }

    for case in vec![
        Case { input: ("", 20), expect: vec![""] },
        Case { input: (" ", 20), expect: vec![" "] },
        Case { input: ("small", 20), expect: vec!["small"] },
        Case { input: ("small ", 20), expect: vec!["small "] },
        Case { input: ("large pair", 10), expect: vec!["large pair"] },
        Case { input: ("large pair", 20), expect: vec!["large pair"] },
        Case {
            input: ("the quick brown fox jumped over the lazy", 20),
            expect: vec!["the quick brown fox", "jumped over the lazy"],
        },
        Case {
            input: ("the quick brown fox jumped over the lazy dog", 20),
            expect: vec!["the quick brown fox", "jumped over the lazy", "dog"],
        },
        Case {
            input: ("Supercalifragilisticexpialidocious", 10),
            expect: vec!["Supercalif", "ragilistic", "expialidoc", "ious"],
        },
        Case {
            input: ("abcd Supercalifragilisticexpialidocious", 10),
            expect: vec!["abcd Super", "califragil", "isticexpia", "lidocious"],
        },
        Case {
            input: ("abcdefgh abcdefghijklmno", 10),
            expect: vec!["abcdefgh a", "bcdefghijk", "lmno"],
        },
        Case {
            input: ("abcdefghi abcdefghijklmno", 10),
            expect: vec!["abcdefghi", "abcdefghij", "klmno"],
        },
        Case {
            input: ("abcdefghij abcdefghijklmno", 10),
            expect: vec!["abcdefghij", "abcdefghij", "klmno"],
        },
        Case { input: ("abcde edcba abcde", 10), expect: vec!["abcde", "edcba", "abcde"] },
        Case { input: ("abcd edcba abcde", 10), expect: vec!["abcd edcba", "abcde"] },
        Case {
            input: ("abcde abcdefghij large pair", 10),
            expect: vec!["abcde", "abcdefghij", "large pair"],
        },
        Case {
            input: ("abc abcdefghijk tiny pair", 10),
            expect: vec!["abc abcdef", "ghijk tiny", "pair"],
        },
        Case { input: ("abc\ndef", 10), expect: vec!["abc", "def"] },
        Case { input: ("abc\n\ndef", 10), expect: vec!["abc", "", "def"] },
        // a single trailing newline is ignored
        Case { input: ("abc\n\ndef\n", 10), expect: vec!["abc", "", "def"] },
        Case { input: ("abc\n\ndef\n\n", 10), expect: vec!["abc", "", "def", ""] },
        Case { input: ("abc\n\ndef ghi jkl", 10), expect: vec!["abc", "", "def ghi", "jkl"] },
    ] {
        let actual = stanza::renderer::wrap(case.input.0, case.input.1);
        let expect: Vec<String> = case.expect.iter().map(|s| s.to_string()).collect();
        assert_eq!(expect, actual, "for {:?}", case.input);
    }
}

#[test]
fn split_preserving_whitespace() {
    struct Case {
        input: &'static str,
        expect: Vec<&'static str>,
    }

    for case in vec![
        Case { input: "", expect: vec![""] },
        Case { input: " ", expect: vec![" "] },
        Case { input: "  ", expect: vec!["  "] },
        Case { input: "  abc", expect: vec!["  abc"] },
        Case { input: "abc ", expect: vec!["abc", ""] },
        Case { input: "abc  ", expect: vec!["abc", " "] },
        Case { input: "abc def", expect: vec!["abc", "def"] },
        Case { input: "abc  def", expect: vec!["abc", " def"] },
        Case { input: "abc def ", expect: vec!["abc", "def", ""] },
        Case { input: "abc def  ", expect: vec!["abc", "def", " "] },
    ] {
        let actual = stanza::renderer::split_preserving_whitespace(case.input);
        let expect: Vec<String> = case.expect.iter().map(|s| s.to_string()).collect();
        assert_eq!(expect, actual, "for {:?}", case.input);

        let whitespace_in_input = count_whitespace(case.input);
        let whitespace_in_output: usize = actual.iter().map(|frag| count_whitespace(frag)).sum();
        assert_eq!(
            whitespace_in_input,
            whitespace_in_output + actual.len() - 1,
            "for {:?}",
            case.input
        );
    }
}

fn count_whitespace(s: &str) -> usize {
    s.chars().filter(|ch| ch.is_whitespace()).count()
}

#[test]
fn wrap_never_empty_and_monotonic_single_word() {
    // the number of output lines of a single word never grows with the width
    let word = "Supercalifragilisticexpialidocious";
    let mut previous = usize::MAX;
    for width in 1..40 {
        let lines = stanza::renderer::wrap(word, width);
        assert!(lines.len() >= 1);
        assert!(lines.len() <= previous);
        previous = lines.len();
    }
}

#[test]
fn wrap_zero_width_terminates() {
    assert_eq!(vec!["".to_string(), "ab".to_string()], stanza::renderer::wrap("ab", 0));
}

#[test]
fn pad_alignments() {
    assert_eq!("abc  ", pad("abc", ' ', 5, &HAlign::Left));
    assert_eq!("  abc", pad("abc", ' ', 5, &HAlign::Right));
    assert_eq!(" abc ", pad("abc", ' ', 5, &HAlign::Centred));
    // the odd extra character goes to the right
    assert_eq!("abc ", pad("abc", ' ', 4, &HAlign::Centred));
    assert_eq!("abc", pad("abc", ' ', 2, &HAlign::Centred));
}

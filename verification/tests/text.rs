use papers::text::{
    byte_length, chars_of, contains_part, find_char, format_i32, format_u64, is_white_space, join,
    parse_integer, parse_number, split_lines, split_on, split_words, starts_with, string_of, trim,
    trim_end,
};

const SAMPLES: [&str; 14] = [
    "",
    " ",
    "a",
    "  two  words ",
    "tab\tand\u{a0}no-break\u{3000}wide",
    "one\ntwo\r\nthree\n",
    "\r\n\r\n",
    "a\rb\n\rc",
    "ends with return\r",
    ",,",
    "x,y,,z",
    "naïve — café",
    "\u{85}next line\u{2028}",
    "1-2",
];

fn strings(parts: &[Vec<char>]) -> Vec<String> {
    parts.iter().map(string_of).collect()
}

#[test]
fn white_space_is_that_of_char() {
    for c in '\0'..=char::MAX {
        assert_eq!(is_white_space(c), c.is_whitespace(), "{:?}", c);
    }
}

#[test]
fn trimming_is_that_of_str() {
    for s in SAMPLES {
        assert_eq!(string_of(&trim(&chars_of(s))), s.trim());
        assert_eq!(string_of(&trim_end(&chars_of(s))), s.trim_end());
    }
}

#[test]
fn splitting_is_that_of_str() {
    for s in SAMPLES {
        let v = chars_of(s);
        assert_eq!(strings(&split_on(&v, ',')), s.split(',').collect::<Vec<_>>());
        assert_eq!(
            strings(&split_words(&v)),
            s.split_whitespace().collect::<Vec<_>>()
        );
        assert_eq!(strings(&split_lines(&v)), s.lines().collect::<Vec<_>>());
    }
}

#[test]
fn searching_is_that_of_str() {
    for s in SAMPLES {
        for p in ["", "a", "two", "—", "zz", "1-2"] {
            assert_eq!(contains_part(&chars_of(s), &chars_of(p)), s.contains(p));
            assert_eq!(starts_with(&chars_of(s), &chars_of(p)), s.starts_with(p));
        }
        let at = find_char(&chars_of(s), 'n');
        assert_eq!(
            at,
            s.chars().position(|c| c == 'n').unwrap_or(s.chars().count())
        );
        assert_eq!(byte_length(s), s.len());
    }
}

#[test]
fn joining_is_that_of_slices() {
    let parts: Vec<Vec<char>> = ["a", "", "bc"].iter().map(|s| chars_of(s)).collect();
    assert_eq!(string_of(&join(&parts, &chars_of(", "))), "a, , bc");
    assert_eq!(string_of(&join(&Vec::new(), &chars_of(", "))), "");
}

#[test]
fn joined_texts_come_apart_again() {
    let parts: Vec<Vec<char>> = ["12", "", "-7", "x"].iter().map(|s| chars_of(s)).collect();
    let joined = join(&parts, &chars_of(","));
    assert_eq!(split_on(&joined, ','), parts);
}

#[test]
fn numbers_are_written_as_std_writes_them() {
    for n in [0, 1, 9, 10, 99, 100, 12345, u64::MAX] {
        assert_eq!(string_of(&format_u64(n)), n.to_string());
    }
    for n in [0, 7, -7, 10, -10, i32::MAX, i32::MIN] {
        assert_eq!(string_of(&format_i32(n)), n.to_string());
        assert_eq!(parse_integer(&format_i32(n)), Some(n));
    }
}

#[test]
fn numbers_are_read_as_std_reads_them() {
    for s in [
        "", "+", "-", "0", "007", "+5", "-5", "--5", "+-5", "-+5", "-0", " 5", "5 ", "5a", "٣",
        "2147483647", "2147483648", "-2147483648", "-2147483649", "4294967295", "4294967296",
        "99999999999999999999999",
    ] {
        assert_eq!(
            parse_number(&chars_of(s), u32::MAX),
            s.parse::<u32>().ok(),
            "{}",
            s
        );
        assert_eq!(
            parse_integer(&chars_of(s)),
            s.parse::<i32>().ok(),
            "{}",
            s
        );
    }
    assert_eq!(parse_number(&chars_of("12"), 11), None);
    assert_eq!(parse_number(&chars_of("11"), 11), Some(11));
}

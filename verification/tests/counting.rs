use wordcount::count_into;
use wordcount::is_delimiter;
use wordcount::mt_word_count;
use wordcount::split_points;
use wordcount::word_count;
use wordcount::CountMap;

/// Both maps hold the same keys with the same counts.
fn same_counts(a: &CountMap, b: &CountMap) -> bool {
    if a.len() != b.len() {
        return false;
    }
    let mut j = 0;
    while j < a.len() {
        let (word, count) = a.pair_at(j);
        if b.get(&word) != Some(count) {
            return false;
        }
        j += 1;
    }
    true
}

#[test]
fn the_cat_sat_scenario() {
    let text = "the cat sat on the mat";
    let seq = word_count(text);
    let par = mt_word_count(text);
    for map in [&seq, &par] {
        assert_eq!(map.len(), 5);
        assert_eq!(map.get("the"), Some(2));
        assert_eq!(map.get("cat"), Some(1));
        assert_eq!(map.get("sat"), Some(1));
        assert_eq!(map.get("on"), Some(1));
        assert_eq!(map.get("mat"), Some(1));
    }
    assert!(same_counts(&seq, &par));
}

#[test]
fn empty_input_yields_empty_map() {
    let seq = word_count("");
    let par = mt_word_count("");
    assert_eq!(seq.len(), 0);
    assert_eq!(par.len(), 0);
    assert_eq!(seq.get(""), None);
}

#[test]
fn delimiters_only_yields_empty_map() {
    let text = " \t\n\r \u{a0}\u{2003}\n ";
    assert_eq!(word_count(text).len(), 0);
    assert_eq!(mt_word_count(text).len(), 0);
}

#[test]
fn single_word_counts_once() {
    let seq = word_count("hello");
    assert_eq!(seq.len(), 1);
    assert_eq!(seq.get("hello"), Some(1));
    let par = mt_word_count("hello");
    assert_eq!(par.len(), 1);
    assert_eq!(par.get("hello"), Some(1));
}

#[test]
fn single_character_word_counts_once() {
    let seq = word_count("a");
    assert_eq!(seq.len(), 1);
    assert_eq!(seq.get("a"), Some(1));
    let par = mt_word_count("a");
    assert_eq!(par.get("a"), Some(1));
}

#[test]
fn trailing_word_without_delimiter_is_flushed() {
    let seq = word_count("a b");
    assert_eq!(seq.get("a"), Some(1));
    assert_eq!(seq.get("b"), Some(1));
    assert_eq!(seq.len(), 2);
}

#[test]
fn punctuation_stays_part_of_the_word() {
    let text = "end. end end.";
    let seq = word_count(text);
    let par = mt_word_count(text);
    for map in [&seq, &par] {
        assert_eq!(map.get("end."), Some(2));
        assert_eq!(map.get("end"), Some(1));
        assert_eq!(map.len(), 2);
    }
}

#[test]
fn newline_and_other_whitespace_split_words() {
    let text = "a\nb c\td\u{a0}e";
    let map = word_count(text);
    assert_eq!(map.len(), 5);
    for w in ["a", "b", "c", "d", "e"] {
        assert_eq!(map.get(w), Some(1));
    }
}

#[test]
fn keys_are_case_sensitive() {
    let map = word_count("The the THE the");
    assert_eq!(map.get("the"), Some(2));
    assert_eq!(map.get("The"), Some(1));
    assert_eq!(map.get("THE"), Some(1));
    assert_eq!(map.len(), 3);
}

#[test]
fn split_points_land_on_delimiter_or_end() {
    let text = "the cat sat on the mat";
    let (q1, q2, q3) = split_points(text);
    assert_eq!((q1, q2, q3), (7, 11, 18));
    let chars: Vec<char> = text.chars().collect();
    for q in [q1, q2, q3] {
        assert!(q == chars.len() || is_delimiter(chars[q]));
    }
    assert!(q1 <= q2 && q2 <= q3 && q3 <= chars.len());
}

#[test]
fn split_points_of_empty_text_are_zero() {
    assert_eq!(split_points(""), (0, 0, 0));
}

#[test]
fn split_points_of_one_word_reach_the_end() {
    let (q1, q2, q3) = split_points("abcdefgh");
    assert_eq!((q1, q2, q3), (8, 8, 8));
}

#[test]
fn giant_word_over_the_first_quarter() {
    let token: String = std::iter::repeat('x').take(1000).collect();
    let text = format!("{token} y");
    let (q1, q2, q3) = split_points(&text);
    // no delimiter before the end of the long token: every cut lands on
    // the space that follows it
    assert_eq!((q1, q2, q3), (1000, 1000, 1000));
    let seq = word_count(&text);
    let par = mt_word_count(&text);
    for map in [&seq, &par] {
        assert_eq!(map.get(&token), Some(1));
        assert_eq!(map.get("y"), Some(1));
        assert_eq!(map.len(), 2);
    }
    assert!(same_counts(&seq, &par));
}

#[test]
fn sequential_and_partitioned_counts_agree() {
    let inputs = [
        "",
        " ",
        "a",
        "ab cd ab",
        "one two three four five six seven eight nine ten one two",
        "  doubled  spaces  here  ",
        "line\nbreaks\nline\nbreaks",
        "tiny",
        "a b c d e f g h i j k l m n o p a b c d",
    ];
    for text in inputs {
        let seq = word_count(text);
        let par = mt_word_count(text);
        assert!(same_counts(&seq, &par), "disagree on {text:?}");
        assert!(same_counts(&par, &seq), "disagree on {text:?}");
    }
}

#[test]
fn count_into_accumulates_over_spans() {
    let mut map = CountMap::new();
    count_into(&mut map, "a b");
    count_into(&mut map, "b c");
    assert_eq!(map.get("a"), Some(1));
    assert_eq!(map.get("b"), Some(2));
    assert_eq!(map.get("c"), Some(1));
    assert_eq!(map.len(), 3);
}

#[test]
fn get_of_absent_word_is_none() {
    let map = word_count("the cat");
    assert_eq!(map.get("dog"), None);
    assert_eq!(map.get("th"), None);
    assert_eq!(map.get("the cat"), None);
}

#[test]
fn pair_at_enumerates_all_entries() {
    let map = word_count("x y x z");
    let mut seen = Vec::new();
    let mut total = 0;
    let mut j = 0;
    while j < map.len() {
        let (word, count) = map.pair_at(j);
        assert_eq!(map.get(&word), Some(count));
        assert!(!seen.contains(&word));
        seen.push(word);
        total += count;
        j += 1;
    }
    assert_eq!(seen.len(), 3);
    assert_eq!(total, 4);
}

#[test]
fn delimiter_predicate_matches_unicode_whitespace() {
    for c in [' ', '\t', '\n', '\r', '\u{b}', '\u{c}', '\u{85}', '\u{a0}', '\u{2028}', '\u{3000}']
    {
        assert!(is_delimiter(c));
        assert!(c.is_whitespace());
    }
    for c in ['a', 'Z', '0', '.', ',', '-', '_', '\u{200b}'] {
        assert!(!is_delimiter(c));
        assert!(!c.is_whitespace());
    }
}

use via_core::agents::strip_json_fences;
use via_core::knowledge_graph::node_id;
use via_core::org_identity_resolver::normalize_org_name;
use via_core::sets::{add_text, add_texts, all_distinct, has_text};
use via_core::signals::normalize;
use via_core::sorting::{arrange, by_count_desc, by_text, sorted_set};
use via_core::paths::recording_file_name;
use via_core::text::{
    chars_of, contains_text, first_line, prefix, remove_char, replace_char, same_text,
    same_text_ignoring_ascii_case, squeeze, text_lt, trim,
};

fn strings(items: &[&str]) -> Vec<String> {
    items.iter().map(|s| s.to_string()).collect()
}

#[test]
fn trim_strips_white_space_at_both_ends() {
    assert_eq!(trim("  a b \n"), "a b");
    assert_eq!(trim("\t\u{a0} x"), "x");
    assert_eq!(trim("x"), "x");
}

#[test]
fn trim_of_white_space_only_is_empty() {
    assert_eq!(trim(" \n\t "), "");
    assert_eq!(trim(""), "");
}

#[test]
fn remove_char_drops_every_occurrence() {
    assert_eq!(remove_char("a.b.c.", '.'), "abc");
    assert_eq!(remove_char("...", '.'), "");
    assert_eq!(remove_char("abc", '.'), "abc");
}

#[test]
fn replace_char_turns_every_occurrence() {
    assert_eq!(replace_char("a-b--c", '-', ' '), "a b  c");
    assert_eq!(replace_char("abc", '-', ' '), "abc");
}

#[test]
fn squeeze_joins_words_by_single_spaces() {
    assert_eq!(squeeze("  acme   gmbh \t co "), "acme gmbh co");
    assert_eq!(squeeze("one"), "one");
    assert_eq!(squeeze("   "), "");
    assert_eq!(squeeze("a\nb"), "a b");
}

#[test]
fn contains_text_finds_runs_of_characters() {
    assert!(contains_text("Acme GmbH", "GmbH"));
    assert!(contains_text("Acme GmbH", ""));
    assert!(contains_text("", ""));
    assert!(!contains_text("Acme Gmb", "GmbH"));
    assert!(!contains_text("", "x"));
    assert!(contains_text("xAG", "AG"));
}

#[test]
fn text_lt_is_the_order_of_str() {
    let samples = ["", "a", "ab", "b", "B", "é", "2024-01-02T00:00:00+00:00", "2024-01-10T00:00:00+00:00"];
    for a in samples.iter() {
        for b in samples.iter() {
            assert_eq!(text_lt(a, b), a < b, "{:?} < {:?}", a, b);
        }
    }
}

#[test]
fn same_text_compares_characters() {
    assert!(same_text("abc", "abc"));
    assert!(!same_text("abc", "abd"));
    assert!(!same_text("abc", "ab"));
}

#[test]
fn case_of_ascii_letters_can_be_ignored() {
    assert!(same_text_ignoring_ascii_case("Person", "person"));
    assert!(same_text_ignoring_ascii_case("PERSON", "person"));
    assert!(!same_text_ignoring_ascii_case("persons", "person"));
    assert!(!same_text_ignoring_ascii_case("É", "é"));
    assert!(!same_text_ignoring_ascii_case("[", "{"));
}

#[test]
fn characters_come_in_order() {
    let cs = chars_of("héllo");
    assert_eq!(cs, vec!['h', 'é', 'l', 'l', 'o']);
}

#[test]
fn first_line_ends_before_the_line_feed() {
    assert_eq!(first_line("one\ntwo"), Some("one"));
    assert_eq!(first_line("one\r\ntwo"), Some("one"));
    assert_eq!(first_line("one\r"), Some("one\r"));
    assert_eq!(first_line("\nrest"), Some(""));
    assert_eq!(first_line("single"), Some("single"));
    assert_eq!(first_line(""), None);
}

#[test]
fn first_line_agrees_with_std() {
    for s in ["a\nb", "a\r\nb", "\r\n", "\n", "a\r", "a\rb\n", "", "x"] {
        assert_eq!(first_line(s), s.lines().next(), "{:?}", s);
    }
}

#[test]
fn prefix_takes_whole_characters() {
    assert_eq!(prefix("héllo", 2), "hé");
    assert_eq!(prefix("héllo", 5), "héllo");
    assert_eq!(prefix("héllo", 80), "héllo");
    assert_eq!(prefix("héllo", 0), "");
}

#[test]
fn normalize_trims_lowers_and_strips_punctuation() {
    assert_eq!(normalize("  Jane Doe, Ph.D.  "), "jane doe phd");
    assert_eq!(normalize("ACME"), "acme");
    assert_eq!(normalize("a-b"), "a-b");
    assert_eq!(normalize(""), "");
}

#[test]
fn normalize_org_name_also_folds_dashes_and_spaces() {
    assert_eq!(normalize_org_name("Acme GmbH"), "acme gmbh");
    assert_eq!(normalize_org_name("ACME   GMBH"), "acme gmbh");
    assert_eq!(normalize_org_name("Acme-GmbH."), "acme gmbh");
    assert_eq!(normalize_org_name(" Acme, Inc. "), "acme inc");
    assert_eq!(normalize_org_name("Acme AG"), "acme ag");
}

#[test]
fn normalize_org_name_agrees_with_std() {
    for s in ["Foo-Bar  Baz.", "  x, y ", "A.-B", "Ünïcode  Söhne", "", "-", " - "] {
        let expected = s
            .to_lowercase()
            .replace('.', "")
            .replace(',', "")
            .replace('-', " ")
            .split_whitespace()
            .collect::<Vec<_>>()
            .join(" ");
        assert_eq!(normalize_org_name(s), expected, "{:?}", s);
    }
}

#[test]
fn node_id_dashes_spaces_and_strips_punctuation() {
    assert_eq!(node_id("Person", "Jane Doe"), "person:jane-doe");
    assert_eq!(node_id("object", "Acme, Inc."), "object:acme-inc");
}

#[test]
fn strip_json_fences_removes_a_json_fence() {
    assert_eq!(strip_json_fences("```json\n[1, 2]\n```"), "[1, 2]");
    assert_eq!(strip_json_fences("  ```\n{}\n```  "), "{}");
    assert_eq!(strip_json_fences("``````json[]``````"), "json[]");
}

#[test]
fn strip_json_fences_leaves_plain_answers_trimmed() {
    assert_eq!(strip_json_fences("  [1]  "), "[1]");
    assert_eq!(strip_json_fences("[\"```\"]"), "[\"```\"]");
    assert_eq!(strip_json_fences(""), "");
}

#[test]
fn strip_json_fences_agrees_with_std() {
    for s in ["```json\n[]\n```", "```[]```", " x ", "```json```json```{}``````", "```", "``", "a```"] {
        let t = s.trim();
        let expected = if t.starts_with("```") {
            t.trim_start_matches("```json").trim_start_matches("```").trim_end_matches("```").trim()
        } else {
            t
        };
        assert_eq!(strip_json_fences(s), expected, "{:?}", s);
    }
}

#[test]
fn sets_keep_first_appearance() {
    let mut v = strings(&["b", "a"]);
    assert!(has_text(&v, &"a".to_string()));
    assert!(!has_text(&v, &"c".to_string()));
    assert!(!add_text(&mut v, "a".to_string()));
    assert!(add_text(&mut v, "c".to_string()));
    add_texts(&mut v, &strings(&["a", "d", "d", "b"]));
    assert_eq!(v, strings(&["b", "a", "c", "d"]));
    assert!(all_distinct(&v));
    assert!(!all_distinct(&strings(&["x", "y", "x"])));
}

#[test]
fn ranking_by_count_is_stable() {
    let order = by_count_desc(&vec![1, 3, 2, 3, 1]);
    assert_eq!(order, vec![1, 3, 2, 0, 4]);
    assert_eq!(by_count_desc(&vec![]), Vec::<usize>::new());
}

#[test]
fn ranking_by_text_goes_both_ways() {
    let keys = strings(&["b", "a", "c", "a"]);
    assert_eq!(by_text(&keys, false), vec![1, 3, 0, 2]);
    assert_eq!(by_text(&keys, true), vec![2, 0, 1, 3]);
}

#[test]
fn arrange_reads_in_the_given_order() {
    let out = arrange(strings(&["x", "y", "z"]), &vec![2, 0, 1]);
    assert_eq!(out, strings(&["z", "x", "y"]));
}

#[test]
fn sorted_set_sorts_and_removes_repetitions() {
    assert_eq!(sorted_set(&strings(&["b", "a", "b", "C"])), strings(&["C", "a", "b"]));
    assert_eq!(sorted_set(&strings(&[])), strings(&[]));
}

#[test]
fn recording_names_have_at_least_four_digits() {
    assert_eq!(recording_file_name(1), "record0001.wav");
    assert_eq!(recording_file_name(0), "record0000.wav");
    assert_eq!(recording_file_name(42), "record0042.wav");
    assert_eq!(recording_file_name(999), "record0999.wav");
    assert_eq!(recording_file_name(1000), "record1000.wav");
    assert_eq!(recording_file_name(123456), "record123456.wav");
    assert_eq!(recording_file_name(u32::MAX), "record4294967295.wav");
}

use via_core::entities::EntityExtractionStep;
use via_core::knowledge_graph::node_id;
use via_core::signals::normalize;
use via_core::sorting::{arrange, by_text, sorted_set};
use via_core::text::{
    contains_text, prefix, remove_char, replace_char, same_text_ignoring_ascii_case, squeeze, trim,
};

const SAMPLES: [&str; 16] = [
    "",
    " ",
    "a",
    " a ",
    "Acme GmbH",
    "ACME, Inc.",
    "\t tab\u{a0}and\u{2003}wide \n",
    "Ünïcödé ẞ İstanbul",
    "ΌΣΟΣ",
    "a.b,c-d e",
    "...",
    "sss",
    "persons",
    "x\r\ny",
    "ﬁsh & chips",
    "  two  spaces  ",
];

#[test]
fn trim_agrees_with_std() {
    for s in SAMPLES {
        assert_eq!(trim(s), s.trim(), "{:?}", s);
    }
}

#[test]
fn squeeze_agrees_with_std() {
    for s in SAMPLES {
        let expected = s.split_whitespace().collect::<Vec<_>>().join(" ");
        assert_eq!(squeeze(s), expected, "{:?}", s);
    }
}

#[test]
fn replacing_characters_agrees_with_std() {
    for s in SAMPLES {
        assert_eq!(remove_char(s, '.'), s.replace('.', ""), "{:?}", s);
        assert_eq!(remove_char(s, 's'), s.replace('s', ""), "{:?}", s);
        assert_eq!(replace_char(s, ' ', '-'), s.replace(' ', "-"), "{:?}", s);
    }
}

#[test]
fn normalize_agrees_with_std() {
    for s in SAMPLES {
        let expected = s.trim().to_lowercase().replace('.', "").replace(',', "");
        assert_eq!(normalize(s), expected, "{:?}", s);
    }
}

#[test]
fn node_id_agrees_with_std() {
    for s in SAMPLES {
        let expected = format!(
            "{}:{}",
            "Kind".to_lowercase(),
            s.to_lowercase().replace(' ', "-").replace(',', "").replace('.', "")
        );
        assert_eq!(node_id("Kind", s), expected, "{:?}", s);
    }
}

#[test]
fn searching_agrees_with_std() {
    for hay in SAMPLES {
        for needle in SAMPLES {
            assert_eq!(contains_text(hay, needle), hay.contains(needle), "{:?} in {:?}", needle, hay);
        }
    }
}

#[test]
fn ignoring_ascii_case_agrees_with_std() {
    for a in SAMPLES {
        for b in SAMPLES {
            assert_eq!(same_text_ignoring_ascii_case(a, b), a.eq_ignore_ascii_case(b));
            let upper = b.to_ascii_uppercase();
            assert_eq!(same_text_ignoring_ascii_case(a, &upper), a.eq_ignore_ascii_case(&upper));
        }
    }
}

#[test]
fn prefix_agrees_with_std() {
    for s in SAMPLES {
        for n in [0usize, 1, 3, 80] {
            let expected: String = s.chars().take(n).collect();
            assert_eq!(prefix(s, n), expected, "{:?} {}", s, n);
        }
    }
}

#[test]
fn kind_agrees_with_std() {
    for s in SAMPLES {
        assert_eq!(EntityExtractionStep::kind(s), s.trim_end_matches('s'), "{:?}", s);
    }
}

#[test]
fn sorting_agrees_with_std() {
    let items: Vec<String> = SAMPLES.iter().chain(SAMPLES.iter().take(5)).map(|s| s.to_string()).collect();
    let mut expected = items.clone();
    expected.sort();
    let order = by_text(&items, false);
    assert_eq!(arrange(items.clone(), &order), expected);
    expected.reverse();
    let mut downwards = arrange(items.clone(), &by_text(&items, true));
    assert_eq!(downwards.len(), expected.len());
    downwards.dedup();
    expected.dedup();
    assert_eq!(downwards, expected);
    let mut set = items.clone();
    set.sort();
    set.dedup();
    assert_eq!(sorted_set(&items), set);
}

use prompt_template::{collect_paths, extract_filenames, find_placeholders, Placeholder};

fn names(template: &str) -> Vec<String> {
    extract_filenames(template).expect("the placeholder pattern compiles")
}

fn owned(list: &[&str]) -> Vec<String> {
    list.iter().map(|s| s.to_string()).collect()
}

#[test]
fn empty_template_names_nothing() {
    assert_eq!(names(""), Vec::<String>::new());
}

#[test]
fn text_without_braces_names_nothing() {
    assert_eq!(names("no placeholders here\nat all"), Vec::<String>::new());
}

#[test]
fn single_placeholder_is_extracted() {
    assert_eq!(names("Hello {greeting.txt}!"), owned(&["greeting.txt"]));
}

#[test]
fn extraction_keeps_order_of_appearance() {
    assert_eq!(names("{b.txt} then {a.txt} then {c.txt}"), owned(&["b.txt", "a.txt", "c.txt"]));
}

#[test]
fn extraction_keeps_duplicates() {
    assert_eq!(names("{b} {a} {b}"), owned(&["b", "a", "b"]));
}

#[test]
fn adjacent_placeholders_are_both_found() {
    assert_eq!(names("{a}{b}"), owned(&["a", "b"]));
}

#[test]
fn unterminated_brace_names_nothing() {
    assert_eq!(names("{unterminated"), Vec::<String>::new());
}

#[test]
fn unterminated_brace_behind_a_placeholder_is_skipped() {
    assert_eq!(names("{a.txt} and {unterminated"), owned(&["a.txt"]));
}

#[test]
fn empty_braces_are_no_placeholder() {
    assert_eq!(names("{}"), Vec::<String>::new());
}

#[test]
fn search_goes_on_behind_empty_braces() {
    assert_eq!(names("{}{a}"), owned(&["a"]));
}

#[test]
fn closing_brace_alone_is_no_placeholder() {
    assert_eq!(names("}{a"), Vec::<String>::new());
}

#[test]
fn path_may_hold_an_opening_brace() {
    assert_eq!(names("{a{b}"), owned(&["a{b"]));
}

#[test]
fn doubled_braces_take_the_first_closing_brace() {
    assert_eq!(names("{{a}}"), owned(&["{a"]));
}

#[test]
fn path_may_hold_spaces_separators_and_line_breaks() {
    assert_eq!(
        names("x { my dir/file name.txt } y {a\nb}"),
        owned(&[" my dir/file name.txt ", "a\nb"])
    );
}

#[test]
fn path_may_hold_characters_beyond_ascii() {
    assert_eq!(names("avant {données/é.txt} après {ü}"), owned(&["données/é.txt", "ü"]));
}

#[test]
fn found_placeholders_carry_raw_text_and_path() {
    let found = find_placeholders("a {x.md} b {y/z} c").expect("the placeholder pattern compiles");
    assert_eq!(
        found,
        vec![
            Placeholder { raw: "{x.md}".to_string(), path: "x.md".to_string() },
            Placeholder { raw: "{y/z}".to_string(), path: "y/z".to_string() },
        ]
    );
}

#[test]
fn found_placeholder_differs_from_the_template() {
    let found = find_placeholders("{only}").expect("the placeholder pattern compiles");
    assert_eq!(found.len(), 1);
    assert_eq!(found[0].raw, "{only}");
    assert_eq!(found[0].path, "only");
    assert_ne!(found[0].path, "{only}");
}

#[test]
fn collect_paths_takes_the_paths_in_order() {
    let found = vec![
        Placeholder { raw: "{one}".to_string(), path: "one".to_string() },
        Placeholder { raw: "{two}".to_string(), path: "two".to_string() },
        Placeholder { raw: "{one}".to_string(), path: "one".to_string() },
    ];
    assert_eq!(collect_paths(&found), owned(&["one", "two", "one"]));
    assert_eq!(collect_paths(&[]), Vec::<String>::new());
}

fn scan(text: &[char]) -> Vec<String> {
    let mut found = Vec::new();
    let mut at = 0;
    while at < text.len() {
        if text[at] == '{' {
            let mut close = at + 1;
            while close < text.len() && text[close] != '}' {
                close += 1;
            }
            if close < text.len() && close > at + 1 {
                found.push(text[at + 1..close].iter().collect());
                at = close + 1;
                continue;
            }
        }
        at += 1;
    }
    found
}

fn every_text(alphabet: &[char], longest: usize) -> Vec<Vec<char>> {
    let mut all: Vec<Vec<char>> = vec![Vec::new()];
    let mut last: Vec<Vec<char>> = vec![Vec::new()];
    for _ in 0..longest {
        let mut next = Vec::new();
        for text in &last {
            for c in alphabet {
                let mut longer = text.clone();
                longer.push(*c);
                next.push(longer);
            }
        }
        all.extend(next.iter().cloned());
        last = next;
    }
    all
}

#[test]
fn search_agrees_with_a_scan_of_every_short_text() {
    let texts = every_text(&['{', '}', 'a', '\n'], 5);
    assert_eq!(texts.len(), 1365);
    for text in texts {
        let template: String = text.iter().collect();
        assert_eq!(names(&template), scan(&text), "template {:?}", template);
    }
}

#[test]
fn found_raw_text_is_the_path_in_braces() {
    for text in every_text(&['{', '}', 'é'], 5) {
        let template: String = text.iter().collect();
        let found = find_placeholders(&template).expect("the placeholder pattern compiles");
        for placeholder in found {
            assert_eq!(placeholder.raw, format!("{{{}}}", placeholder.path));
            assert!(template.contains(&placeholder.raw));
        }
    }
}

#[test]
fn placeholder_pattern_is_a_braced_run_without_closing_brace() {
    assert_eq!(prompt_template::search::PLACEHOLDER_PATTERN, r"\{([^}]+)\}");
}

#[test]
fn brace_inside_an_open_placeholder_belongs_to_the_path() {
    assert_eq!(names("{open {a.txt}"), owned(&["open {a.txt"]));
    assert_eq!(names("{a}{x{a}"), owned(&["a", "x{a"]));
}

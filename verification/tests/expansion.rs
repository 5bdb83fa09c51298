use prompt_template::{expand_found, expand_template, render, FileRead, Placeholder};

fn content(text: &str) -> FileRead {
    FileRead::Content(text.to_string())
}

fn failed(reason: &str) -> FileRead {
    FileRead::Failed(reason.to_string())
}

fn expand(template: &str, reads: &[FileRead]) -> String {
    expand_template(template, reads).expect("the placeholder pattern compiles")
}

#[test]
fn template_without_placeholders_is_unchanged() {
    assert_eq!(expand("plain text, no braces", &[]), "plain text, no braces");
    assert_eq!(expand("", &[]), "");
}

#[test]
fn template_without_placeholders_ignores_reads() {
    assert_eq!(expand("plain", &[content("unused")]), "plain");
}

#[test]
fn greeting_is_inlined_in_a_fenced_block() {
    assert_eq!(
        expand("Hello {greeting.txt}!", &[content("world")]),
        "Hello ```\nworld\n```!"
    );
}

#[test]
fn fenced_block_holds_the_content_verbatim() {
    let body = "fn main() {\n    println!(\"hi\");\n}\n";
    assert_eq!(
        expand("Code:\n{src/main.rs}\nEnd", &[content(body)]),
        format!("Code:\n```\n{}\n```\nEnd", body)
    );
}

#[test]
fn empty_file_gives_an_empty_block() {
    assert_eq!(expand("{empty}", &[content("")]), "```\n\n```");
}

#[test]
fn same_placeholder_twice_renders_alike() {
    assert_eq!(
        expand("{a.txt} and {a.txt}", &[content("X"), content("X")]),
        "```\nX\n``` and ```\nX\n```"
    );
}

#[test]
fn same_placeholder_twice_takes_the_first_read() {
    assert_eq!(
        expand("{a.txt} and {a.txt}", &[content("X"), content("Y")]),
        "```\nX\n``` and ```\nX\n```"
    );
}

#[test]
fn different_placeholders_take_their_own_reads() {
    assert_eq!(
        expand("{a}-{b}", &[content("1"), content("2")]),
        "```\n1\n```-```\n2\n```"
    );
}

#[test]
fn content_with_closed_braces_is_kept_verbatim() {
    assert_eq!(
        expand(
            "{a.rs} and {b.json} and {a.rs}",
            &[content("fn f() { g() }"), content("{ \"k\": [1, 2] }"), content("other")]
        ),
        "```\nfn f() { g() }\n``` and ```\n{ \"k\": [1, 2] }\n``` and ```\nfn f() { g() }\n```"
    );
}

#[test]
fn unterminated_brace_is_left_verbatim() {
    assert_eq!(expand("{unterminated", &[]), "{unterminated");
    assert_eq!(
        expand("{a} and {unterminated", &[content("A")]),
        "```\nA\n``` and {unterminated"
    );
}

#[test]
fn empty_braces_are_left_verbatim() {
    assert_eq!(expand("{} stays", &[]), "{} stays");
}

#[test]
fn failed_read_is_noted_in_place() {
    assert_eq!(
        expand("See {nope.txt}.", &[failed("No such file or directory (os error 2)")]),
        "See [Error reading file 'nope.txt': No such file or directory (os error 2)]."
    );
}

#[test]
fn failed_read_does_not_stop_the_others() {
    assert_eq!(
        expand("{a} {b}", &[failed("gone"), content("B")]),
        "[Error reading file 'a': gone] ```\nB\n```"
    );
}

#[test]
fn inlined_content_is_not_searched() {
    assert_eq!(
        expand("{a.txt} {b.txt}", &[content("{b.txt}"), content("B")]),
        "```\n{b.txt}\n``` ```\nB\n```"
    );
}

#[test]
fn content_that_names_its_own_file_is_kept() {
    assert_eq!(
        expand("{a.txt} and {a.txt}", &[content("see {a.txt}"), content("see {a.txt}")]),
        "```\nsee {a.txt}\n``` and ```\nsee {a.txt}\n```"
    );
}

#[test]
fn block_and_template_text_behind_it_form_no_placeholder() {
    assert_eq!(
        expand("{a} z}{y\n``` z}", &[content("x{y"), content("Q")]),
        "```\nx{y\n``` z}```\nQ\n```"
    );
}

#[test]
fn two_blocks_form_no_placeholder() {
    let path = "b\n``` ```\na";
    let template = format!("{{{}}} {{{}}}", path, path);
    assert_eq!(
        expand(&template, &[content("a}{b"), content("a}{b")]),
        "```\na}{b\n``` ```\na}{b\n```"
    );
}

#[test]
fn placeholder_whose_path_holds_a_brace_is_replaced_whole() {
    assert_eq!(expand("{open {a.txt}", &[content("1")]), "```\n1\n```");
    assert_eq!(
        expand("{a}{x{a}", &[content("1"), content("2")]),
        "```\n1\n``````\n2\n```"
    );
}

#[test]
fn repeated_placeholder_behind_the_reads_is_rendered_like_the_first() {
    assert_eq!(expand("{a} {a}", &[content("1")]), "```\n1\n``` ```\n1\n```");
}

#[test]
fn placeholder_without_a_read_is_left() {
    assert_eq!(expand("{a} {b}", &[content("1")]), "```\n1\n``` {b}");
    assert_eq!(expand("{a} {b}", &[]), "{a} {b}");
}

#[test]
fn surplus_reads_are_ignored() {
    assert_eq!(expand("{a}", &[content("1"), content("2")]), "```\n1\n```");
}

#[test]
fn render_fences_content() {
    assert_eq!(render("any", &content("C")), "```\nC\n```");
    assert_eq!(render("any", &content("line\n")), "```\nline\n\n```");
}

#[test]
fn render_notes_failure_with_path_and_reason() {
    assert_eq!(
        render("dir/f.txt", &failed("Permission denied (os error 13)")),
        "[Error reading file 'dir/f.txt': Permission denied (os error 13)]"
    );
}

#[test]
fn expand_found_replaces_each_entry_where_it_stands() {
    let found = vec![
        Placeholder { raw: "{a}".to_string(), path: "a".to_string() },
        Placeholder { raw: "{b}".to_string(), path: "b".to_string() },
    ];
    assert_eq!(
        expand_found("{b}{a}{b}", &found, &[content("1"), failed("no")]),
        "{b}```\n1\n```[Error reading file 'b': no]"
    );
}

#[test]
fn expand_found_passes_over_an_entry_that_does_not_stand_there() {
    let found = vec![
        Placeholder { raw: "{gone}".to_string(), path: "gone".to_string() },
        Placeholder { raw: "{a}".to_string(), path: "a".to_string() },
    ];
    assert_eq!(
        expand_found("x {a} y", &found, &[content("0"), content("1")]),
        "x ```\n1\n``` y"
    );
}

#[test]
fn expand_found_without_placeholders_returns_the_template() {
    assert_eq!(expand_found("{a}", &[], &[content("1")]), "{a}");
}

fn one_pass(template: &str, reads: &[FileRead]) -> String {
    let text: Vec<char> = template.chars().collect();
    let mut spans: Vec<(usize, usize)> = Vec::new();
    let mut at = 0;
    while at < text.len() {
        if text[at] == '{' {
            if let Some(more) = text[at + 1..].iter().position(|c| *c == '}') {
                if more > 0 {
                    spans.push((at, at + 1 + more));
                    at = at + more + 2;
                    continue;
                }
            }
        }
        at += 1;
    }
    let paths: Vec<String> = spans.iter().map(|(open, close)| text[open + 1..*close].iter().collect()).collect();
    let with_read = paths.len().min(reads.len());
    let mut out = String::new();
    let mut kept = 0;
    for (k, (open, close)) in spans.iter().enumerate() {
        out.extend(&text[kept..*open]);
        match paths[..with_read].iter().position(|path| *path == paths[k]) {
            Some(first) => match &reads[first] {
                FileRead::Content(body) => out.push_str(&format!("```\n{}\n```", body)),
                FileRead::Failed(reason) => {
                    out.push_str(&format!("[Error reading file '{}': {}]", paths[k], reason))
                }
            },
            None => out.extend(&text[*open..=*close]),
        }
        kept = close + 1;
    }
    out.extend(&text[kept..]);
    out
}

fn every_template(alphabet: &[char], longest: usize) -> Vec<String> {
    let mut all: Vec<String> = vec![String::new()];
    let mut last: Vec<String> = vec![String::new()];
    for _ in 0..longest {
        let mut next = Vec::new();
        for text in &last {
            for c in alphabet {
                next.push(format!("{}{}", text, c));
            }
        }
        all.extend(next.iter().cloned());
        last = next;
    }
    all
}

#[test]
fn expansion_is_one_pass_on_every_short_template() {
    let reads = vec![content("X"), content("{a}"), failed("b}"), content("{"), content("")];
    let templates = every_template(&['{', '}', 'a', 'b'], 6);
    assert_eq!(templates.len(), 5461);
    for template in templates {
        assert_eq!(expand(&template, &reads), one_pass(&template, &reads), "template {:?}", template);
        assert_eq!(expand(&template, &reads[..1]), one_pass(&template, &reads[..1]), "template {:?}", template);
    }
}

#[test]
fn expand_found_on_what_was_found_is_the_expansion() {
    let reads = vec![content("{b}"), failed("{a}")];
    for template in every_template(&['{', '}', 'a', 'b'], 5) {
        let found = prompt_template::find_placeholders(&template).expect("the pattern compiles");
        assert_eq!(expand_found(&template, &found, &reads), expand(&template, &reads));
    }
}

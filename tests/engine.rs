use docweave::{
    example_chunks, example_script, generate_docs, hidden_folder, normalize_path, page_file,
    parse_title, render_document, scan_file, Declarations, Documents, Phase, Scanner, SourceFile,
};

fn lines(xs: &[&str]) -> Vec<String> {
    xs.iter().map(|s| s.to_string()).collect()
}

fn run(files: &[(&str, &[&str])], base: &str, examples_on: bool) -> (Documents, Vec<String>) {
    let decls = Declarations::new().expect("patterns compile");
    let files: Vec<SourceFile> = files
        .iter()
        .map(|(p, ls)| SourceFile { path: p.to_string(), lines: lines(ls) })
        .collect();
    let mut docs = Documents::new();
    let mut examples = Vec::new();
    generate_docs(&decls, &files, base, examples_on, &mut docs, &mut examples);
    (docs, examples)
}

fn doc(docs: &Documents, key: &str) -> Option<Vec<String>> {
    docs.lines(&key.to_string()).cloned()
}

const LINK: &str = "<span style=\"float: right;\"> [source](";

#[test]
fn scenario_a_block_collected() {
    let (docs, _) = run(
        &[("foo.txt", &["/// Foo", "/// some text", "/// more text", "fn foo() {"])],
        "",
        false,
    );
    assert_eq!(docs.len(), 1);
    assert_eq!(doc(&docs, "Foo"), Some(lines(&["some text", "more text"])));
}

#[test]
fn scenario_a_link_on_second_line() {
    let (docs, _) = run(
        &[("foo.txt", &["/// Foo", "/// some text", "/// more text", "fn foo() {"])],
        "https://example.org/repo",
        false,
    );
    let expected = format!("more tex{}https://example.org/repo/foo.txt#L4) </span> \\", LINK);
    assert_eq!(doc(&docs, "Foo"), Some(vec!["some text".to_string(), expected]));
}

#[test]
fn scenario_b_two_word_key_skipped() {
    let (docs, _) = run(
        &[(
            "a.rs",
            &["/// two words", "/// ignored", "let x = 1;", "/// Good", "/// kept", "x"],
        )],
        "",
        false,
    );
    assert_eq!(docs.len(), 1);
    assert_eq!(doc(&docs, "two"), None);
    assert_eq!(doc(&docs, "words"), None);
    assert_eq!(doc(&docs, "two words"), None);
    assert_eq!(doc(&docs, "Good"), Some(lines(&["kept"])));
}

#[test]
fn scenario_c_example_chunk() {
    let (docs, examples) = run(
        &[("a.R", &["### Topic", "### ```r", "### x <- 1", "### ```", "f"])],
        "",
        true,
    );
    assert_eq!(examples, lines(&["x <- 1", "***end_of_example"]));
    assert_eq!(example_chunks(&examples), vec![lines(&["x <- 1"])]);
    assert_eq!(doc(&docs, "Topic"), Some(lines(&["```r", "x <- 1", "```"])));
}

#[test]
fn no_comment_lines_no_documents() {
    let (docs, examples) = run(&[("a.rs", &["fn main() {", "  let x = 2;", "}"])], "b", true);
    assert_eq!(docs.len(), 0);
    assert!(examples.is_empty());
}

#[test]
fn empty_input_no_documents() {
    let (docs, _) = run(&[], "", false);
    assert_eq!(docs.len(), 0);
    let (docs, _) = run(&[("empty.rs", &[])], "", false);
    assert_eq!(docs.len(), 0);
}

#[test]
fn marker_stripping_keeps_further_spaces() {
    let (docs, _) = run(
        &[("a.rs", &["   ///Key", "///  two spaces", "\t### hash", "///", "code"])],
        "",
        false,
    );
    assert_eq!(doc(&docs, "Key"), Some(lines(&[" two spaces", "hash", ""])));
}

#[test]
fn key_with_tab_is_rejected() {
    let (docs, _) = run(&[("a.rs", &["/// a\tb", "/// x", "code"])], "", false);
    assert_eq!(docs.len(), 0);
}

#[test]
fn same_key_accumulates_across_files() {
    let (docs, _) = run(
        &[
            ("a.rs", &["/// K", "/// one", "x", "/// K", "/// two"]),
            ("b.rs", &["/// K", "/// three"]),
        ],
        "",
        false,
    );
    assert_eq!(docs.len(), 1);
    assert_eq!(doc(&docs, "K"), Some(lines(&["one", "two", "three"])));
}

#[test]
fn no_link_without_base() {
    let (docs, _) = run(&[("f.rs", &["/// K", "/// a \\", "/// b", "fn k() {"])], "", false);
    assert_eq!(doc(&docs, "K"), Some(lines(&["a \\", "b"])));
}

#[test]
fn link_only_on_closing_line() {
    let (docs, _) = run(
        &[("src/f.rs", &["/// K", "/// a \\", "/// b", "", "fn k() {"])],
        "u",
        false,
    );
    assert_eq!(doc(&docs, "K"), Some(lines(&["a \\", "b"])));
}

#[test]
fn link_for_r_function() {
    let (docs, _) = run(
        &[("R/f.R", &["### f", "### a", "### b \\", "f <- function(x) {"])],
        "u",
        false,
    );
    let expected = format!("b {}u/R/f.R#L4) </span> \\", LINK);
    assert_eq!(doc(&docs, "f"), Some(vec!["a".to_string(), expected]));
}

#[test]
fn no_link_when_block_too_short() {
    let (docs, _) = run(&[("f.rs", &["/// K", "fn k() {"])], "u", false);
    assert_eq!(doc(&docs, "K"), Some(vec![]));
}

#[test]
fn no_link_for_plain_code() {
    let (docs, _) = run(&[("f.rs", &["/// K", "/// a", "/// b", "let y = 3;"])], "u", false);
    assert_eq!(doc(&docs, "K"), Some(lines(&["a", "b"])));
}

#[test]
fn apply_line_takes_declaration_as_given() {
    let mut docs = Documents::new();
    let mut examples = Vec::new();
    let mut sc = Scanner::new();
    sc.apply_line("/// K", 0, false, "p", "u", false, &mut docs, &mut examples);
    assert!(sc.phase == Phase::Open);
    sc.apply_line("/// a!", 1, false, "p", "u", false, &mut docs, &mut examples);
    sc.apply_line("/// b", 2, false, "p", "u", false, &mut docs, &mut examples);
    sc.apply_line("anything", 11, true, "p", "u", false, &mut docs, &mut examples);
    assert!(sc.phase == Phase::Idle);
    let expected = format!("{}u/p#L12) </span> \\", LINK);
    assert_eq!(doc(&docs, "K"), Some(vec!["a!".to_string(), expected]));
}

#[test]
fn scan_file_matches_generate() {
    let decls = Declarations::new().unwrap();
    let mut docs = Documents::new();
    let mut examples = Vec::new();
    scan_file(&decls, &lines(&["/// K", "/// a"]), "p", "", false, &mut docs, &mut examples);
    assert_eq!(doc(&docs, "K"), Some(lines(&["a"])));
}

#[test]
fn two_runs_agree() {
    let input: &[(&str, &[&str])] =
        &[("foo.txt", &["/// Foo", "/// some text", "/// more text", "fn foo() {"])];
    let (d1, e1) = run(input, "u", true);
    let (d2, e2) = run(input, "u", true);
    assert_eq!(e1, e2);
    assert_eq!(d1.len(), d2.len());
    for i in 0..d1.entries.len() {
        let a = &d1.entries[i];
        let b = &d2.entries[i];
        assert_eq!(render_document(&a.key, &a.lines), render_document(&b.key, &b.lines));
    }
}

#[test]
fn examples_off_harvests_nothing() {
    let (_, examples) = run(&[("a.R", &["### T", "### ```r", "### x <- 1", "### ```"])], "", false);
    assert!(examples.is_empty());
}

#[test]
fn chunks_in_order_and_unterminated() {
    let (_, examples) = run(
        &[
            ("a.R", &["### T", "### ```r", "### a", "### ```", "### ```r  ", "### b", "### ```  "]),
            ("b.R", &["### U", "### ```r", "### c", "### d"]),
        ],
        "",
        true,
    );
    assert_eq!(
        examples,
        lines(&["a", "***end_of_example", "b", "***end_of_example", "c", "d"])
    );
    let chunks = example_chunks(&examples);
    assert_eq!(chunks, vec![lines(&["a"]), lines(&["b"]), lines(&["c", "d"])]);
    assert_eq!(example_script(&chunks[2]), "c;d");
}

#[test]
fn script_skips_empty_lines() {
    assert_eq!(example_script(&lines(&["x <- 1", "", "y <- 2"])), "x <- 1;y <- 2");
    assert_eq!(example_script(&lines(&[])), "");
}

#[test]
fn chunks_of_empty() {
    assert!(example_chunks(&Vec::new()).is_empty());
}

#[test]
fn render_and_parse_title() {
    let page = render_document("Foo", &lines(&["some text", "more text"]));
    assert_eq!(page, "---\ntitle: Foo\n---\n\nsome text\nmore text");
    assert_eq!(parse_title(&page), Some("Foo".to_string()));
    assert_eq!(render_document("K", &lines(&[])), "---\ntitle: K\n---\n\n");
}

#[test]
fn parse_title_rejects_other_text() {
    assert_eq!(parse_title("title: Foo"), None);
    assert_eq!(parse_title(""), None);
    assert_eq!(parse_title("---\ntitle: Bar"), Some("Bar".to_string()));
}

#[test]
fn page_file_lower_cases() {
    assert_eq!(page_file("Foo"), "foo.qmd");
    assert_eq!(page_file("ABC_d"), "abc_d.qmd");
    assert_eq!(hidden_folder("docs"), "_docs");
}

#[test]
fn normalize_path_cases() {
    assert_eq!(normalize_path("./foo.txt"), "foo.txt");
    assert_eq!(normalize_path("a/./b/../c"), "a/c");
    assert_eq!(normalize_path("../x"), "x");
    assert_eq!(normalize_path("/a/../.."), "/");
    assert_eq!(normalize_path("//a//b/"), "/a/b");
    assert_eq!(normalize_path(""), "");
    assert_eq!(normalize_path("a/.."), "");
}

#[test]
fn declarations_compile() {
    assert!(Declarations::new().is_some());
}

#[test]
fn no_base_code_lines_interchangeable() {
    let (d1, e1) = run(&[("a.rs", &["/// K", "/// a \\", "/// b", "fn k() {"])], "", true);
    let (d2, e2) = run(&[("b.rs", &["/// K", "/// a \\", "/// b", "let z = 0;"])], "", true);
    assert_eq!(doc(&d1, "K"), doc(&d2, "K"));
    assert_eq!(d1.len(), d2.len());
    assert_eq!(e1, e2);
}

#[test]
fn malformed_block_same_as_blank_lines() {
    let with_block: &[&str] = &["x", "/// two words", "/// ```r", "/// y", "/// ```", "z", "/// K", "/// k"];
    let blanked: &[&str] = &["x", "", "", "", "", "z", "/// K", "/// k"];
    let (d1, e1) = run(&[("a.rs", with_block)], "u", true);
    let (d2, e2) = run(&[("a.rs", blanked)], "u", true);
    assert_eq!(d1.len(), 1);
    assert_eq!(d1.len(), d2.len());
    assert_eq!(doc(&d1, "K"), doc(&d2, "K"));
    assert!(e1.is_empty());
    assert_eq!(e1, e2);
}

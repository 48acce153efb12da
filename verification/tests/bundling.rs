use line_bundler::bundler::{bundle_lines, try_bundle_lines};

fn bundled(input: &str) -> String {
    bundle_lines(String::from(input))
}

#[test]
fn basic_function() {
    assert_eq!(bundled("greet() {\n  echo hello\n}\n"), "greet() { echo hello; }; ");
}

#[test]
fn print_string() {
    assert_eq!(bundled("echo \"hi there\"\n"), "echo \"hi there\"; ");
}

#[test]
fn fn_with_comments() {
    let input = "# builds the target\nbuild() {\n  make all # default goal\n}\n";
    assert_eq!(bundled(input), "build() { make all; }; ");
}

#[test]
fn multi_line_string() {
    let input = "echo \"line one\nline two\nline three\"\n";
    assert_eq!(bundled(input), "echo \"line one\nline two\nline three\"; ");
}

#[test]
fn single_quote_multi_line_string() {
    assert_eq!(bundled("echo 'a\nb'\n"), "echo 'a\nb'; ");
}

#[test]
fn interpolated_string() {
    assert_eq!(bundled("echo \"${name:-default}\"\n"), "echo \"${name:-default}\"; ");
}

#[test]
fn array_len_sigil() {
    assert_eq!(bundled("echo ${#arr[@]}\n"), "echo ${#arr[@]}; ");
}

#[test]
fn nested_expansion() {
    assert_eq!(bundled("echo ${a:-${b:-c}}\n"), "echo ${a:-${b:-c}}; ");
}

#[test]
fn array_multi_line_merge() {
    // No semicolons may appear between the elements or before the
    // closing parenthesis.
    assert_eq!(bundled("arr=(\n  a\n  b\n)\n"), "arr=( a b ); ");
}

#[test]
fn array_with_nested_parens() {
    let input = "arr=(\n  one\n  two (three)\n)\necho done\n";
    assert_eq!(bundled(input), "arr=( one two (three) ); echo done; ");
}

#[test]
fn case_keyword_double_semicolons() {
    let input = "case $x in\n  a) echo one ;;\n  b) echo two ;;\nesac\n";
    assert_eq!(bundled(input), "case $x in; a) echo one ;; b) echo two ;; esac; ");
}

#[test]
fn multi_line_instruction() {
    // A trailing `\` after a space glues the lines with nothing between.
    assert_eq!(bundled("echo a \\\n  b\n"), "echo a b; ");
}

#[test]
fn trailing_space_repaired_into_separator() {
    assert_eq!(bundled("echo a \nfoo\n"), "echo a; foo; ");
}

#[test]
fn trailing_comment_dropped() {
    assert_eq!(bundled("echo a # rest\n"), "echo a; ");
}

#[test]
fn comment_line_elided() {
    let with_comment = "echo a\n# comment\necho b\n";
    let without_comment = "echo a\necho b\n";
    assert_eq!(bundled(with_comment), "echo a; echo b; ");
    assert_eq!(bundled(with_comment), bundled(without_comment));
}

#[test]
fn comment_line_at_end() {
    assert_eq!(bundled("echo a\n   # tail comment"), "echo a; ");
}

#[test]
fn escaped_sigil_dollar() {
    // `$#` never starts a comment.
    assert_eq!(bundled("echo $#\n"), "echo $#; ");
}

#[test]
fn escaped_sigil_backslash() {
    // `\#` never starts a comment.
    assert_eq!(bundled("echo \\#literal\n"), "echo \\#literal; ");
}

#[test]
fn escaped_quote_stays_inside_string() {
    assert_eq!(bundled("echo \"a\\\"b\"\n"), "echo \"a\\\"b\"; ");
}

#[test]
fn empty_input() {
    assert_eq!(bundled(""), "; ");
}

#[test]
fn blank_lines_only() {
    assert_eq!(bundled("\n\n\n"), "; ");
}

#[test]
fn leading_blank_lines() {
    assert_eq!(bundled("\n\necho x\n"), "echo x; ");
}

#[test]
fn spaces_collapse() {
    assert_eq!(bundled("echo   a    b\n"), "echo a b; ");
}

#[test]
fn no_trailing_newline() {
    assert_eq!(bundled("echo x"), "echo x; ");
}

#[test]
fn unterminated_quote_passes_through() {
    // An unterminated string is not an error; the scanner simply stops.
    assert_eq!(bundled("echo \"abc\n"), "echo \"abc; ");
}

#[test]
fn unmatched_expansion_is_fatal() {
    // `${foo` left open across a line break is the single fatal condition.
    assert_eq!(try_bundle_lines(String::from("echo ${foo\nbar}\n")), None);
}

#[test]
fn matched_expansion_is_not_fatal() {
    assert_eq!(try_bundle_lines(String::from("echo ${foo}\nbar\n")).as_deref(), Some("echo ${foo}; bar; "));
}

#[test]
fn unmatched_expansion_on_last_line_passes() {
    // No line break follows, so the fatal check never fires.
    assert_eq!(try_bundle_lines(String::from("echo ${foo")).as_deref(), Some("echo ${foo; "));
}

#[test]
fn rebundling_is_a_no_op() {
    let inputs = [
        "greet() {\n  echo hello\n}\n",
        "echo \"line one\nline two\"\n",
        "case $x in\n  a) echo one ;;\nesac\n",
        "arr=(\n  a\n  b\n)\n",
        "echo a \\\n  b\n",
        "echo   a    b\n",
        "",
    ];
    for input in inputs {
        let once = bundled(input);
        let twice = bundled(&once);
        assert_eq!(twice, once);
    }
}

#[test]
fn output_always_ends_in_separator() {
    let inputs = ["echo a", "echo a;", "echo a; ", "x\ny\nz", "", "arr=(\na\n)"];
    for input in inputs {
        let out = bundled(input);
        assert!(out.ends_with("; "));
    }
}

#[test]
fn no_space_or_separator_runs_in_plain_output() {
    let inputs = ["echo   a    b\nfoo  \n\n\nbar \\\n  baz\n", "a \n \nb\n", "x \\\ny \\\nz"];
    for input in inputs {
        let out = bundled(input);
        assert!(!out.contains("  "));
        assert!(!out.contains(";;"));
    }
}

use ripdiff::syntax::{
    ansi, highlight_line, highlight_new_file, highlight_unified_diff, render_unified_line, split_lines_with_endings,
    unified_line_kind, SyntaxAssets, UnifiedLine,
};

#[test]
fn ansi_wraps_text_in_a_style_and_a_reset() {
    assert_eq!(ansi("1;32", "hi"), "\x1b[1;32mhi\x1b[0m");
    assert_eq!(ansi("", ""), "\x1b[m\x1b[0m");
}

#[test]
fn lines_keep_their_endings() {
    assert_eq!(split_lines_with_endings("foo\nbar\nbaz"), vec!["foo\n", "bar\n", "baz"]);
    assert_eq!(split_lines_with_endings("a\n"), vec!["a\n"]);
    assert_eq!(split_lines_with_endings("\n\n"), vec!["\n", "\n"]);
    assert!(split_lines_with_endings("").is_empty());
}

#[test]
fn unified_lines_are_classified_by_their_start() {
    assert_eq!(unified_line_kind("+++ b/src/a.rs\n"), UnifiedLine::AddedHeader);
    assert_eq!(unified_line_kind("+let x = 1;\n"), UnifiedLine::Added);
    assert_eq!(unified_line_kind("--- a/src/a.rs\n"), UnifiedLine::RemovedHeader);
    assert_eq!(unified_line_kind("-let x = 0;\n"), UnifiedLine::Removed);
    assert_eq!(unified_line_kind(" fn main() {\n"), UnifiedLine::Context);
    assert_eq!(unified_line_kind("@@ -1,2 +1,2 @@\n"), UnifiedLine::Hunk);
    assert_eq!(unified_line_kind("diff --git a/x b/x\n"), UnifiedLine::Meta);
    assert_eq!(unified_line_kind("index 123..456 100644\n"), UnifiedLine::Meta);
    assert_eq!(unified_line_kind("new file mode 100644\n"), UnifiedLine::Meta);
    assert_eq!(unified_line_kind("rename to y\n"), UnifiedLine::Meta);
    assert_eq!(unified_line_kind("\\ No newline at end of file\n"), UnifiedLine::Note);
    assert_eq!(unified_line_kind("Binary files differ\n"), UnifiedLine::Other);
    assert_eq!(unified_line_kind(""), UnifiedLine::Other);
}

#[test]
fn unified_lines_render_with_their_colours() {
    assert_eq!(render_unified_line("+++ b/x\n", "ignored"), "\x1b[1;32m+++ b/x\n\x1b[0m");
    assert_eq!(render_unified_line("+x\n", "X"), "\x1b[32m+\x1b[0mX");
    assert_eq!(render_unified_line("--- a/x\n", ""), "\x1b[1;31m--- a/x\n\x1b[0m");
    assert_eq!(render_unified_line("-x\n", "X"), "\x1b[31m-\x1b[0mX");
    assert_eq!(render_unified_line(" x\n", "X"), " X");
    assert_eq!(render_unified_line("@@ -1 +1 @@\n", ""), "\x1b[1;35m@@ -1 +1 @@\n\x1b[0m");
    assert_eq!(render_unified_line("index 1..2\n", ""), "\x1b[1;36mindex 1..2\n\x1b[0m");
    assert_eq!(render_unified_line("\\ No newline\n", ""), "\x1b[33m\\ No newline\n\x1b[0m");
    assert_eq!(render_unified_line("plain\n", "X"), "plain\n");
}

fn strip_escapes(s: &str) -> String {
    let mut out = String::new();
    let mut chars = s.chars().peekable();
    while let Some(c) = chars.next() {
        if c == '\x1b' {
            for d in chars.by_ref() {
                if d == 'm' {
                    break;
                }
            }
        } else {
            out.push(c);
        }
    }
    out
}

#[test]
fn new_files_are_numbered_and_highlighted() {
    let assets = SyntaxAssets::load();
    let text = highlight_new_file("no-such-dir/example.rs", "fn main() {}\nlet x = 1;", &assets);
    assert!(text.starts_with("\x1b[1;32mnew file: no-such-dir/example.rs\x1b[0m\n\n\x1b[90m   1 \x1b[0m\x1b[32m+ \x1b[0m"));
    assert!(text.contains("\x1b[90m   2 \x1b[0m\x1b[32m+ \x1b[0m"));
    assert!(text.ends_with('\n'));
    assert_eq!(strip_escapes(&text), "new file: no-such-dir/example.rs\n\n   1 + fn main() {}\n   2 + let x = 1;\n");
}

#[test]
fn unified_diffs_keep_their_text() {
    let assets = SyntaxAssets::load();
    let diff = "diff --git a/x.rs b/x.rs\n--- a/x.rs\n+++ b/x.rs\n@@ -1 +1 @@\n-let a = 1;\n+let a = 2;\n fn f() {}\n";
    let text = highlight_unified_diff("no-such-dir/x.rs", diff, &assets);
    assert!(text.starts_with("\x1b[1;36mdiff --git a/x.rs b/x.rs\n\x1b[0m\x1b[1;31m--- a/x.rs\n\x1b[0m\x1b[1;32m+++ b/x.rs\n\x1b[0m"));
    assert_eq!(strip_escapes(&text), diff);
}

#[test]
fn a_highlighted_line_keeps_its_text_under_colour_escapes() {
    let assets = SyntaxAssets::load();
    let syntax = assets.syntaxes.find_syntax_by_extension("rs").unwrap();
    let mut highlighter = syntect::easy::HighlightLines::new(syntax, &assets.theme);
    let line = "let answer = 42;\n";
    let text = highlight_line(&mut highlighter, line, &assets.syntaxes);
    assert!(text.contains("\x1b[38;2;"));
    assert_ne!(text, line);
    assert_eq!(strip_escapes(&text), line);
}

#[test]
fn highlighted_code_carries_only_foreground_escapes() {
    let assets = SyntaxAssets::load();
    let syntax = assets.syntaxes.find_syntax_by_extension("rs").unwrap();
    let mut highlighter = syntect::easy::HighlightLines::new(syntax, &assets.theme);
    let text = highlight_line(&mut highlighter, "fn main() {}\n", &assets.syntaxes);
    let mut escapes = 0;
    for part in text.split('\x1b').skip(1) {
        let body = &part[..part.find('m').unwrap()];
        let fields: Vec<&str> = body.split(';').collect();
        assert_eq!(fields.len(), 5);
        assert_eq!(fields[0], "[38");
        assert_eq!(fields[1], "2");
        for f in &fields[2..] {
            assert!(f.parse::<u8>().is_ok());
            assert!(f.len() == 1 || !f.starts_with('0'));
        }
        escapes += 1;
    }
    assert!(escapes > 0);
    assert!(!text.starts_with("fn"));
}

#[test]
fn code_stays_plain_when_no_syntax_is_known() {
    let assets = SyntaxAssets {
        syntaxes: syntect::parsing::SyntaxSet::new(),
        theme: syntect::highlighting::Theme::default(),
    };
    let text = highlight_new_file("no-such-dir/x.zzz", "hello\n", &assets);
    assert_eq!(text, "\x1b[1;32mnew file: no-such-dir/x.zzz\x1b[0m\n\n\x1b[90m   1 \x1b[0m\x1b[32m+ \x1b[0mhello\n");
    let diff = "@@ -1 +1 @@\n-a\n+b\n";
    assert_eq!(
        highlight_unified_diff("no-such-dir/x.zzz", diff, &assets),
        "\x1b[1;35m@@ -1 +1 @@\n\x1b[0m\x1b[31m-\x1b[0ma\n\x1b[32m+\x1b[0mb\n"
    );
}

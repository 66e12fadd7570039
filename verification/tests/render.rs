use ccc::pp::engine::{
    Dependency, DependencyGraph, DiagnosticPragmaAction, LineMarker, MacroSnapshot,
    MacroSnapshotEntry, PpItem, PragmaEvent, PreprocessOutput,
};
use ccc::pp::lexer::lex;
use ccc::pp::render::{
    DependencyRenderOptions, render_dependencies, render_macro_definitions, render_preprocessed,
};
use ccc::pp::token::{PpToken, PpTokenKind, Span};

fn dependency(path: &str, system: bool) -> Dependency {
    Dependency {
        path: path.to_owned(),
        system,
    }
}

#[test]
fn escapes_make_dependencies_and_emits_phony_targets() {
    let graph = DependencyGraph {
        files: vec![dependency("src/a b.c", false), dependency("inc/x#y.h", false)],
        edges: Vec::new(),
    };
    let rendered = render_dependencies(
        &graph,
        &DependencyRenderOptions {
            targets: vec!["out file.o".to_owned()],
            phony_targets: true,
            wrap_column: 0,
            ..DependencyRenderOptions::default()
        },
    );
    assert_eq!(
        rendered,
        "out\\ file.o: src/a\\ b.c inc/x\\#y.h\n\ninc/x\\#y.h:\n"
    );
}

#[test]
fn wraps_dependencies_with_make_continuations() {
    let graph = DependencyGraph {
        files: vec![
            dependency("source.c", false),
            dependency("long-header-name.h", false),
        ],
        edges: Vec::new(),
    };
    let rendered = render_dependencies(
        &graph,
        &DependencyRenderOptions {
            wrap_column: 20,
            ..DependencyRenderOptions::default()
        },
    );
    assert_eq!(rendered, "source.o: source.c \\\n  long-header-name.h\n");
}

#[test]
fn empty_graph_renders_nothing() {
    let graph = DependencyGraph::default();
    assert_eq!(
        render_dependencies(&graph, &DependencyRenderOptions::default()),
        ""
    );
}

#[test]
fn excluded_system_headers_and_repeated_paths_are_listed_once() {
    let graph = DependencyGraph {
        files: vec![
            dependency("dir/main.c", false),
            dependency("a.h", false),
            dependency("/usr/include/stdio.h", true),
            dependency("a.h", false),
        ],
        edges: Vec::new(),
    };
    let rendered = render_dependencies(
        &graph,
        &DependencyRenderOptions {
            exclude_system_headers: true,
            ..DependencyRenderOptions::default()
        },
    );
    assert_eq!(rendered, "main.o: dir/main.c a.h\n");
}

#[test]
fn doubles_dollars_and_escapes_backslashes_before_blanks() {
    let graph = DependencyGraph {
        files: vec![dependency("a$b\\ c.c", false)],
        edges: Vec::new(),
    };
    let rendered = render_dependencies(
        &graph,
        &DependencyRenderOptions {
            targets: vec!["t".to_owned()],
            ..DependencyRenderOptions::default()
        },
    );
    assert_eq!(rendered, "t: a$$b\\\\\\ c.c\n");
}

fn span() -> Span {
    Span {
        file: 0,
        start: 0,
        end: 0,
    }
}

#[test]
fn consumes_preprocessor_only_pragmas_but_preserves_downstream_pragmas() {
    let span = span();
    let output = PreprocessOutput {
        items: vec![
            PpItem::Pragma(PragmaEvent::Once { span }),
            PpItem::Pragma(PragmaEvent::SystemHeader { span }),
            PpItem::Pragma(PragmaEvent::Diagnostic {
                action: DiagnosticPragmaAction::Push,
                option: None,
                span,
            }),
            PpItem::Pragma(PragmaEvent::Unknown {
                text: "vendor payload".to_owned(),
                span,
            }),
        ],
        ..PreprocessOutput::default()
    };

    assert_eq!(
        render_preprocessed(&output, true),
        "#pragma GCC diagnostic push\n#pragma vendor payload\n"
    );
}

#[test]
fn keeps_a_catch_all_backslash_from_splicing_the_rendered_newline() {
    let span = span();
    let output = PreprocessOutput {
        items: vec![
            PpItem::Token(PpToken::synthetic(PpTokenKind::Punctuator, span, "\\".to_owned())),
            PpItem::Newline,
            PpItem::Token(PpToken::synthetic(PpTokenKind::Identifier, span, "after".to_owned())),
            PpItem::Newline,
        ],
        ..PreprocessOutput::default()
    };

    assert_eq!(render_preprocessed(&output, true), "\\ \nafter\n");
}

#[test]
fn keeps_pragma_and_macro_dump_backslashes_from_splicing_lines() {
    let span = span();
    let output = PreprocessOutput {
        items: vec![
            PpItem::Pragma(PragmaEvent::Unknown {
                text: "vendor \\".to_owned(),
                span,
            }),
            PpItem::Token(PpToken::synthetic(PpTokenKind::Identifier, span, "after".to_owned())),
            PpItem::Newline,
        ],
        ..PreprocessOutput::default()
    };
    assert_eq!(
        render_preprocessed(&output, true),
        "#pragma vendor \\ \nafter\n"
    );

    let macros = MacroSnapshot {
        definitions: vec![
            MacroSnapshotEntry {
                name: "TRAILING".to_owned(),
                parameters: None,
                variadic: false,
                replacement: vec![PpToken::synthetic(PpTokenKind::Punctuator, span, "\\".to_owned())],
            },
            MacroSnapshotEntry {
                name: "NEXT".to_owned(),
                parameters: None,
                variadic: false,
                replacement: vec![PpToken::synthetic(PpTokenKind::PpNumber, span, "1".to_owned())],
            },
        ],
    };
    assert_eq!(
        render_macro_definitions(&macros),
        "#define TRAILING \\ \n#define NEXT 1\n"
    );
}

#[test]
fn renders_line_markers_unless_suppressed() {
    let tokens = lex(0, "a b").unwrap();
    let output = PreprocessOutput {
        items: vec![
            PpItem::LineMarker(LineMarker {
                line: 12,
                file: "dir\\x \"y\".h".to_owned(),
                flags: vec![1, 3],
            }),
            PpItem::Token(tokens[0].clone()),
            PpItem::Token(tokens[1].clone()),
            PpItem::LineMarker(LineMarker {
                line: 7,
                file: "main.c".to_owned(),
                flags: Vec::new(),
            }),
            PpItem::Newline,
        ],
        ..PreprocessOutput::default()
    };
    assert_eq!(
        render_preprocessed(&output, false),
        "# 12 \"dir\\\\x \\\"y\\\".h\" 1 3\na b\n# 7 \"main.c\"\n\n"
    );
    assert_eq!(render_preprocessed(&output, true), "a b\n");
    assert_eq!(output.tokens().len(), 2);
}

#[test]
fn separates_tokens_that_would_join() {
    let span = span();
    let slash = PpToken::synthetic(PpTokenKind::Punctuator, span, "/".to_owned());
    let star = PpToken::synthetic(PpTokenKind::Punctuator, span, "*".to_owned());
    let x = PpToken::synthetic(PpTokenKind::Identifier, span, "x".to_owned());
    let y = PpToken::synthetic(PpTokenKind::Identifier, span, "y".to_owned());
    let output = PreprocessOutput {
        items: vec![
            PpItem::Token(slash),
            PpItem::Token(star),
            PpItem::Token(x),
            PpItem::Token(y),
        ],
        ..PreprocessOutput::default()
    };
    assert_eq!(render_preprocessed(&output, true), "/ *x y");
}

#[test]
fn renders_diagnostic_pack_and_optimize_pragmas() {
    let span = span();
    let payload = lex(0, "(push, 4)").unwrap();
    let output = PreprocessOutput {
        items: vec![
            PpItem::Token(PpToken::synthetic(PpTokenKind::Identifier, span, "x".to_owned())),
            PpItem::Pragma(PragmaEvent::Diagnostic {
                action: DiagnosticPragmaAction::Ignored,
                option: Some("-Wall".to_owned()),
                span,
            }),
            PpItem::Pragma(PragmaEvent::Pack {
                payload: payload.clone(),
                span,
            }),
            PpItem::Pragma(PragmaEvent::Pack {
                payload: Vec::new(),
                span,
            }),
            PpItem::Pragma(PragmaEvent::GccOptimize {
                payload: lex(0, "(\"O2\")").unwrap(),
                span,
            }),
        ],
        ..PreprocessOutput::default()
    };
    assert_eq!(
        render_preprocessed(&output, true),
        "x\n#pragma GCC diagnostic ignored \"-Wall\"\n#pragma pack (push, 4)\n#pragma pack\n#pragma GCC optimize (\"O2\")\n"
    );
}

#[test]
fn renders_function_like_macro_definitions() {
    let span = span();
    let macros = MacroSnapshot {
        definitions: vec![
            MacroSnapshotEntry {
                name: "F".to_owned(),
                parameters: Some(vec!["a".to_owned(), "b".to_owned()]),
                variadic: true,
                replacement: lex(0, "a +b").unwrap(),
            },
            MacroSnapshotEntry {
                name: "G".to_owned(),
                parameters: Some(Vec::new()),
                variadic: true,
                replacement: Vec::new(),
            },
            MacroSnapshotEntry {
                name: "H".to_owned(),
                parameters: Some(Vec::new()),
                variadic: false,
                replacement: vec![PpToken::synthetic(PpTokenKind::PpNumber, span, "0".to_owned())],
            },
        ],
    };
    assert_eq!(
        render_macro_definitions(&macros),
        "#define F(a, b, ...) a +b\n#define G(...)\n#define H() 0\n"
    );
}

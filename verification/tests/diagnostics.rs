use speck::diagnostic::{Diagnostic, Span};
use speck::render_diagnostics;
use speck::source::{AnalysisError, SourceId, SourceMap};

#[test]
fn renders_a_caret_under_the_span() {
    let source = "let x = 1\nlet y = oops\n";
    let diagnostic = Diagnostic::new("unknown variable `oops`".to_string(), Span::new(18, 22));
    assert_eq!(
        diagnostic.render("game.spk", source),
        "game.spk:2:9: error: unknown variable `oops`\n  |\n2 | let y = oops\n  |         ^^^^"
    );
}

#[test]
fn empty_and_overlong_spans_still_mark_one_character() {
    let source = "abc";
    let empty = Diagnostic::new("here".to_string(), Span::new(1, 1));
    assert_eq!(empty.render("a", source), "a:1:2: error: here\n  |\n1 | abc\n  |  ^");
    let past = Diagnostic::new("end".to_string(), Span::new(10, 20));
    assert_eq!(past.render("a", source), "a:1:4: error: end\n  |\n1 | abc\n  |    ^");
}

#[test]
fn line_numbers_widen_the_gutter() {
    let source = "\n\n\n\n\n\n\n\n\nx\n";
    let diagnostic = Diagnostic::new("ten".to_string(), Span::new(9, 10));
    assert_eq!(
        diagnostic.render("f", source),
        "f:10:1: error: ten\n   |\n10 | x\n   | ^"
    );
}

#[test]
fn several_diagnostics_are_joined_by_newlines() {
    let source = "ab";
    let diagnostics = vec![
        Diagnostic::new("one".to_string(), Span::new(0, 1)),
        Diagnostic::new("two".to_string(), Span::new(1, 2)),
    ];
    let text = render_diagnostics("s", source, &diagnostics);
    assert_eq!(
        text,
        "s:1:1: error: one\n  |\n1 | ab\n  | ^\ns:1:2: error: two\n  |\n1 | ab\n  |  ^"
    );
    assert_eq!(render_diagnostics("s", source, &[]), "");
}

#[test]
fn spans_merge_within_one_file() {
    let span = Span::new(3, 5).merge(Span::new(8, 9));
    assert_eq!(span, Span::new(3, 9));
}

#[test]
fn source_map_locates_spans_in_their_files() {
    let mut map = SourceMap::new();
    let first = map.add("main.spk".to_string(), "game \"A\"\nlet x = 1\n".to_string());
    let second = map.add("lib.spk".to_string(), "fn f() {}\n".to_string());
    assert_eq!(first, SourceId::default_id());
    assert_ne!(first, second);
    assert_eq!(map.files().len(), 2);
    assert_eq!(map.get(second).unwrap().path(), "lib.spk");
    assert_eq!(map.get(first).unwrap().location(13), (2, 5));
    assert_eq!(map.location(Span::new(0, 4)), Some(("main.spk", 1, 1)));
    let unknown = Span { source: SourceId(7), start: 0, end: 1 };
    assert_eq!(map.location(unknown), None);

    map.record_dependency("main.spk".to_string());
    map.record_dependency("lib.spk".to_string());
    map.record_dependency("main.spk".to_string());
    assert_eq!(map.dependencies(), ["main.spk".to_string(), "lib.spk".to_string()]);
}

#[test]
fn analysis_errors_render_each_diagnostic() {
    let mut sources = SourceMap::new();
    sources.add("g.spk".to_string(), "x".to_string());
    let error = AnalysisError {
        sources,
        diagnostics: vec![
            Diagnostic::new("bad".to_string(), Span::new(0, 1)),
            Diagnostic::new("lost".to_string(), Span { source: SourceId(3), start: 0, end: 0 }),
        ],
    };
    assert_eq!(error.message(), "g.spk:1:1: error: bad\n  |\n1 | x\n  | ^\nerror: lost");
}

#[test]
fn rendering_two_lists_joins_their_renderings() {
    let source = "abc\ndef";
    let first = vec![Diagnostic::new("one".to_string(), Span::new(0, 1))];
    let second = vec![
        Diagnostic::new("two".to_string(), Span::new(4, 6)),
        Diagnostic::new("three".to_string(), Span::new(2, 3)),
    ];
    let both: Vec<Diagnostic> = first.iter().chain(second.iter()).cloned().collect();
    assert_eq!(
        render_diagnostics("p", source, &both),
        format!("{}\n{}", render_diagnostics("p", source, &first), render_diagnostics("p", source, &second))
    );
    assert_eq!(render_diagnostics("p", source, &first), first[0].render("p", source));
}

#[test]
fn a_rendering_begins_where_location_points() {
    let mut map = SourceMap::new();
    let id = map.add("m.spk".to_string(), "a\nbcd\n".to_string());
    let span = Span { source: id, start: 3, end: 4 };
    let (path, line, column) = map.location(span).expect("the file is in the map");
    let text = map.render(&[Diagnostic::new("odd".to_string(), span)]);
    assert!(text.starts_with(&format!("{path}:{line}:{column}: error: odd")));
    let lost = Diagnostic::new("gone".to_string(), Span { source: SourceId(9), start: 0, end: 0 });
    assert_eq!(map.render(&[lost]), "error: gone");
}

#[test]
fn files_come_back_in_the_order_they_were_added() {
    let mut map = SourceMap::new();
    let names = ["a.spk", "b.spk", "c.spk"];
    let ids: Vec<SourceId> = names.iter().map(|name| map.add(name.to_string(), format!("// {name}"))).collect();
    for (i, id) in ids.iter().enumerate() {
        assert_eq!(*id, SourceId(i));
        assert_eq!(map.get(*id).unwrap().path(), names[i]);
        assert_eq!(map.get(*id).unwrap().text(), format!("// {}", names[i]));
    }
    assert!(map.get(SourceId(3)).is_none());
}

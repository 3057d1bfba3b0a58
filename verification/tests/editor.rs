//! Documents and their positions, highlighting, and what completion offers.

use prepoly::analysis::{SourceFile, SourceMap};
use prepoly::ast::{Block, FunDecl, Module, Param, TopLevel, TypeBody, TypeDecl};
use prepoly::completion::{
    dedup_by_label, filter_prefix, import_context, import_path_items, is_whitespace,
    module_roots, module_symbols, request, symbol_items, CompletionItem, CompletionItemKind,
    ImportContext, ImportRoots, Request, PROBE,
};
use prepoly::definition::{local_binding, locate, Target};
use prepoly::document::{line_starts, Document, LineIndex, Position, Range};
use prepoly::items::{closure, diff, split, words_of, ItemKind};
use prepoly::modules::{
    dir_module_names, export_probe, export_target, import_name_items, syntax_error, LibraryNames,
};
use prepoly::nav::{collect_bindings, contains, ident_at, peel_transparent};
use prepoly::semantic_tokens::{
    classify, encode, tokens, Abs, DeclaredNames, SemanticToken, M_DECLARATION, M_DEFAULT_LIBRARY, T_COMMENT, T_ENUM,
    T_FUNCTION, T_KEYWORD, T_NUMBER, T_STRING, T_TYPE,
};
use prepoly::signature::fenced;
use prepoly::span::Span;
use prepoly::token::TokenKind;
use prepoly::types::{IntKind, Type};

use std::collections::HashMap;

fn strings(v: &[&str]) -> Vec<String> {
    v.iter().map(|s| s.to_string()).collect()
}

fn doc(text: &str) -> Document {
    Document::new(text.to_string(), 1)
}

fn at(line: u32, character: u32) -> Position {
    Position { line, character }
}

// ---- documents ----

#[test]
fn positions_count_utf16_units() {
    let text = "a\u{e9}\u{1f600}b\nsecond\n";
    let d = doc(text);
    assert_eq!(d.line_starts, vec![0, 9, 16]);
    assert_eq!(d.position_at(0), at(0, 0));
    assert_eq!(d.position_at(3), at(0, 2));
    assert_eq!(d.position_at(7), at(0, 4));
    assert_eq!(d.position_at(8), at(0, 5));
    assert_eq!(d.position_at(9), at(1, 0));
    assert_eq!(d.offset_at(at(0, 4)), 7);
    assert_eq!(d.offset_at(at(1, 3)), 12);
}

/// A position goes to its offset and back.
#[test]
fn positions_round_trip() {
    let text = "x\u{20ac}y\n\n\u{1f600}z\nlast";
    let d = doc(text);
    let index = LineIndex::new(text);
    let mut off = 0;
    for c in text.chars() {
        let p = d.position_at(off);
        assert_eq!(d.offset_at(p), off);
        assert_eq!(index.position_at(text, off), p);
        off += c.len_utf8();
    }
    assert_eq!(d.offset_at(d.position_at(off)), off);
}

#[test]
fn positions_past_a_line_or_the_document_are_kept_inside() {
    let d = doc("ab\ncd");
    assert_eq!(d.offset_at(at(0, 99)), 3);
    assert_eq!(d.offset_at(at(9, 0)), 5);
}

#[test]
fn documents_are_updated() {
    let mut d = doc("one");
    d.update("two\nlines".to_string(), 2);
    assert_eq!((d.text.as_str(), d.version), ("two\nlines", 2));
    assert_eq!(d.line_starts, line_starts("two\nlines"));
    assert_eq!(
        d.range_of(Span::new(0, 5)),
        Range { start: at(0, 0), end: at(1, 1) }
    );
}

// ---- places in files ----

fn sources() -> SourceMap {
    SourceMap {
        files: vec![
            SourceFile { base: 0, path: None, src: "fun p() {}\n".to_string() },
            SourceFile {
                base: 100,
                path: Some("/tmp/a b/main.pp".to_string()),
                src: "x\ny = 1\n".to_string(),
            },
        ],
    }
}

#[test]
fn spans_are_located_in_their_file() {
    let s = sources();
    let t = locate(&s, Span::new(102, 103)).expect("a place");
    assert_eq!(t, Target { file: 1, lo: 2, hi: 3 });
    assert_eq!(t.range(&s), Range { start: at(1, 0), end: at(1, 1) });
    assert_eq!(locate(&s, Span::new(4, 5)), None);
}

/// The address of a file escapes what an address cannot hold.
#[test]
fn places_have_addresses() {
    let s = sources();
    let l = locate(&s, Span::new(100, 101)).unwrap().location(&s).expect("an address");
    assert_eq!(l.uri, "file:///tmp/a%20b/main.pp");
    assert_eq!(l.range, Range { start: at(0, 0), end: at(0, 1) });
    let found = locate(&s, Span::new(100, 101)).unwrap();
    assert_eq!(found.at_address(&s, None), None);
    let found = locate(&s, Span::new(100, 101)).unwrap();
    let given = found.at_address(&s, Some("file:///x".to_string())).unwrap();
    assert_eq!(given.uri, "file:///x");
    assert_eq!(given.range, l.range);
}

// ---- names at a cursor ----

#[test]
fn identifiers_are_found_at_and_behind_the_cursor() {
    let text = "let cafe = ab_1(x)";
    assert_eq!(ident_at(text, 4), Some(("cafe".to_string(), Span::new(4, 8))));
    assert_eq!(ident_at(text, 11), Some(("ab_1".to_string(), Span::new(11, 15))));
    assert_eq!(ident_at(text, 15), Some(("ab_1".to_string(), Span::new(11, 15))));
    assert_eq!(ident_at(text, 9), None);
    assert_eq!(ident_at("let $ = x", 8), None);
    assert!(contains(Span::new(2, 4), 4) && !contains(Span::new(2, 4), 5));
}

#[test]
fn bindings_of_unknowns_are_collected() {
    let generic = Type::Fun(
        vec![Type::Unknown(1), Type::Slice(Box::new(Type::Unknown(2)))],
        Box::new(Type::Unknown(1)),
    );
    let concrete = Type::Fun(
        vec![Type::Str, Type::Slice(Box::new(Type::Int(IntKind::I32)))],
        Box::new(Type::Bool),
    );
    let mut out = HashMap::new();
    collect_bindings(&generic, &concrete, &mut out);
    assert_eq!(out.len(), 2);
    assert_eq!(out[&1], Type::Str);
    assert_eq!(out[&2], Type::Int(IntKind::I32));
    let open = Type::result(Type::Unknown(3), Type::Str);
    collect_bindings(&open, &Type::result(Type::Bool, Type::Str), &mut out);
    assert_eq!(out[&3], Type::Bool);
    let t = Type::Ref(Box::new(Type::Mut(Box::new(Type::Str))));
    assert_eq!(peel_transparent(&t), &Type::Str);
}

// ---- highlighting ----

#[test]
fn tokens_are_classified() {
    let none = DeclaredNames::collect(None);
    assert_eq!(classify(&TokenKind::While, None, None, &none), Some((T_KEYWORD, 0)));
    assert_eq!(classify(&TokenKind::Int(1), None, None, &none), Some((T_NUMBER, 0)));
    assert_eq!(classify(&TokenKind::Newline, None, None, &none), None);
    let name = TokenKind::Ident("f".to_string());
    assert_eq!(
        classify(&name, Some(&TokenKind::Fun), None, &none),
        Some((T_FUNCTION, M_DECLARATION))
    );
    assert_eq!(
        classify(&name, Some(&TokenKind::Type), None, &none).map(|c| c.0),
        Some(T_TYPE)
    );
}

fn decoded(data: &[SemanticToken]) -> Vec<(u32, u32, u32, u32)> {
    let (mut line, mut start) = (0, 0);
    data.iter()
        .map(|t| {
            start = if t.delta_line == 0 { start + t.delta_start } else { t.delta_start };
            line += t.delta_line;
            (line, start, t.length, t.token_type)
        })
        .collect()
}

#[test]
fn a_text_is_highlighted_in_order() {
    let data = tokens("let s = \"h\u{e9}\" // n\n1\n", None);
    let all = decoded(&data);
    assert!(all.contains(&(0, 0, 3, T_KEYWORD)), "{all:?}");
    assert!(all.contains(&(0, 8, 4, T_STRING)), "{all:?}");
    assert!(all.contains(&(0, 13, 4, T_COMMENT)), "{all:?}");
    assert!(all.contains(&(1, 0, 1, T_NUMBER)), "{all:?}");
    let mut sorted = all.clone();
    sorted.sort();
    assert_eq!(all, sorted);
}

/// Decoding gives back what was encoded.
#[test]
fn encoding_is_relative() {
    let abs = vec![
        Abs { line: 0, start: 4, len: 2, ty: 1, modifiers: 0 },
        Abs { line: 0, start: 9, len: 1, ty: 2, modifiers: 1 },
        Abs { line: 3, start: 1, len: 5, ty: 3, modifiers: 0 },
    ];
    let data = encode(&abs);
    assert_eq!(decoded(&data), vec![(0, 4, 2, 1), (0, 9, 1, 2), (3, 1, 5, 3)]);
    assert_eq!(
        (data[2].delta_line, data[2].delta_start, data[1].token_modifiers_bitset),
        (3, 1, 1)
    );
}

// ---- completion ----

fn chars(s: &str) -> Vec<char> {
    s.chars().collect()
}

#[test]
fn import_lines_are_recognized() {
    assert_eq!(
        import_context(&chars("import std.coll")),
        Some(ImportContext::Path { parents: strings(&["std"]), prefix: "coll".to_string() })
    );
    assert_eq!(
        import_context(&chars("import a.b.{ x, y")),
        Some(ImportContext::Names { module: strings(&["a", "b"]), prefix: "y".to_string() })
    );
    assert_eq!(import_context(&chars("let import = 1")), None);
}

/// Empty pieces at the ends of a path are dropped, but for one that is being completed.
#[test]
fn import_paths_begin_with_a_name() {
    let path = |parents: &[&str], prefix: &str| {
        Some(ImportContext::Path { parents: strings(parents), prefix: prefix.to_string() })
    };
    assert_eq!(import_context(&chars("import .math")), path(&[], "math"));
    assert_eq!(import_context(&chars("import ..std.math")), path(&["std"], "math"));
    assert_eq!(import_context(&chars("import math.")), path(&["math"], ""));
    assert_eq!(import_context(&chars("import math..")), path(&["math"], ""));
    assert_eq!(import_context(&chars("import .")), path(&[], ""));
}

/// A name in call position is a function whatever else has that name; a built-in type is
/// always a type.
#[test]
fn call_position_precedes_known_names() {
    let mut names = DeclaredNames::collect(None);
    names.types.insert("Point");
    let point = TokenKind::Ident("Point".to_string());
    let print = TokenKind::Ident("println".to_string());
    let int = TokenKind::Ident("int32".to_string());
    let call = Some(&TokenKind::LParen);
    assert_eq!(classify(&point, None, None, &names), Some((T_TYPE, 0)));
    assert_eq!(classify(&point, None, call, &names), Some((T_FUNCTION, 0)));
    assert_eq!(
        classify(&print, None, call, &names),
        Some((T_FUNCTION, M_DEFAULT_LIBRARY))
    );
    assert_eq!(classify(&int, None, call, &names), Some((T_TYPE, M_DEFAULT_LIBRARY)));
}

/// A type that the document declares under the name of a built-in one is its own.
#[test]
fn declared_types_precede_builtin_ones() {
    let mut names = DeclaredNames::collect(None);
    let string = TokenKind::Ident("string".to_string());
    assert_eq!(classify(&string, None, None, &names), Some((T_TYPE, M_DEFAULT_LIBRARY)));
    names.types.insert("string");
    assert_eq!(classify(&string, None, None, &names), Some((T_TYPE, 0)));
    assert_eq!(classify(&string, None, Some(&TokenKind::LParen), &names), Some((T_TYPE, 0)));
    names.types.insert("Result");
    names.sum_types.insert("Result");
    let result = TokenKind::Ident("Result".to_string());
    assert_eq!(classify(&result, None, None, &names), Some((T_ENUM, 0)));
}

fn roots() -> ImportRoots {
    ImportRoots {
        prelude: strings(&["math", "io"]),
        nested: strings(&["collections/hashmap", "collections/set", "data/json"]),
        packages: strings(&["pkg"]),
        served: strings(&["local"]),
    }
}

fn labels(items: &[CompletionItem]) -> Vec<&str> {
    items.iter().map(|i| i.label.as_str()).collect()
}

#[test]
fn module_paths_are_offered_by_level() {
    let top = import_path_items(&vec![], "", &roots());
    for l in ["math", "io", "std", "pkg", "local"] {
        assert!(labels(&top).contains(&l), "{l}: {top:?}");
    }
    let std = import_path_items(&strings(&["std"]), "", &roots());
    for l in ["collections", "data"] {
        assert_eq!(labels(&std).iter().filter(|x| **x == l).count(), 1, "{std:?}");
    }
    let nested = import_path_items(&strings(&["std", "collections"]), "h", &roots());
    assert_eq!(labels(&nested), vec!["hashmap"]);
}

fn item(label: &str) -> CompletionItem {
    CompletionItem {
        label: label.to_string(),
        kind: CompletionItemKind::Function,
        detail: None,
        documentation: None,
    }
}

#[test]
fn offers_are_filtered_and_without_repeats() {
    let all = vec![item("abc"), item("b"), item("ab"), item("abc")];
    assert_eq!(labels(&filter_prefix(all, "ab")), vec!["abc", "ab", "abc"]);
    let all = vec![item("abc"), item("b"), item("abc")];
    assert_eq!(labels(&dedup_by_label(all)), vec!["abc", "b"]);
    let offered = symbol_items(vec![item("mine")]);
    assert!(labels(&offered).contains(&"mine") && labels(&offered).contains(&"string"));
}

#[test]
fn white_space_is_that_of_the_standard() {
    for n in 0..0x3100 {
        if let Some(c) = char::from_u32(n) {
            assert_eq!(is_whitespace(c), c.is_whitespace(), "{n:x}");
        }
    }
}

/// What stands behind a dangling `.` is replaced by a name that parses.
#[test]
fn a_dangling_member_is_probed() {
    let text = "fun f(b) {\n    b.\n}\n";
    let d = doc(text);
    let dot = text.find("b.\n").unwrap() + 1;
    let Request::Member { text: probed, dot: found, partial } =
        request(&d, d.position_at(dot + 1))
    else {
        panic!("a member");
    };
    assert_eq!((found, partial.as_str()), (dot, ""));
    assert!(probed.contains(&format!("b.{PROBE}\n")), "{probed}");
    let text = "b.na";
    let d = doc(text);
    let Request::Member { dot, partial, .. } = request(&d, d.position_at(4)) else {
        panic!("a member");
    };
    assert_eq!((dot, partial.as_str()), (1, "na"));
    let d = doc("3.");
    assert_eq!(request(&d, d.position_at(2)), Request::Symbols);
    let d = doc("x3.");
    assert!(matches!(request(&d, d.position_at(3)), Request::Member { dot: 2, .. }));
}

#[test]
fn roots_of_a_module() {
    let packages = vec![("pkg".to_string(), "/opt/pkg".to_string())];
    let found = module_roots(&packages, "/work", &strings(&["/inc"]), "pkg");
    assert!(found.contains(&"/opt/pkg".to_string()), "{found:?}");
    let found = module_roots(&packages, "/work", &strings(&["/inc"]), "util");
    assert!(found.contains(&"/work".to_string()) && found.contains(&"/inc".to_string()));
}

// ---- modules ----

fn span() -> Span {
    Span::new(0, 0)
}

fn fun(name: &str, lo: usize, hi: usize) -> TopLevel {
    TopLevel::Fun(FunDecl {
        name: name.to_string(),
        recv: None,
        params: vec![],
        ret: None,
        body: Block { stmts: vec![], span: Span::new(lo, hi) },
        span: Span::new(lo, hi),
        doc: None,
    })
}

fn module(items: Vec<TopLevel>) -> Module {
    Module { imports: vec![], items }
}

#[test]
fn public_symbols_of_a_module() {
    let ty = TopLevel::Type(TypeDecl {
        name: "Point".to_string(),
        interfaces: vec![],
        body: TypeBody::Record(vec![]),
        span: span(),
        doc: None,
    });
    let m = module(vec![ty, fun("area", 0, 0), fun("_inner", 0, 0)]);
    let public = module_symbols(&m, true);
    assert!(labels(&public).contains(&"Point") && labels(&public).contains(&"area"));
    assert!(!labels(&public).contains(&"_inner"));
    assert!(labels(&module_symbols(&m, false)).contains(&"_inner"));
}

#[test]
fn parameters_are_bindings() {
    let p = Param { name: "x".to_string(), ty: None, span: Span::new(6, 7) };
    let f = TopLevel::Fun(FunDecl {
        name: "f".to_string(),
        recv: None,
        params: vec![p],
        ret: None,
        body: Block { stmts: vec![], span: Span::new(9, 20) },
        span: Span::new(0, 20),
        doc: None,
    });
    let m = module(vec![f]);
    assert_eq!(local_binding(&m, 12, "x"), Some(Span::new(6, 7)));
    assert_eq!(local_binding(&m, 12, "y"), None);
}

// ---- items ----

#[test]
fn words_are_the_names_of_a_text() {
    assert_eq!(
        words_of("fun a1(b) { c.a1 }").items(),
        &strings(&["a1", "b", "c", "fun"])
    );
}

#[test]
fn a_change_reaches_the_users() {
    let old = "fun a(){1}\nfun b(){a()}\nfun c(){2}\n";
    let new = "fun a(){9}\nfun b(){a()}\nfun c(){2}\n";
    let m = module(vec![fun("a", 0, 10), fun("b", 11, 23), fun("c", 24, 34)]);
    let prev = split(&m, old, 0);
    let next = split(&m, new, 0);
    assert_eq!(prev[1].kind, ItemKind::Fun);
    assert_eq!(next[0].source, "fun a(){9}");
    let d = diff(&prev, &next);
    assert!(!d.full);
    assert_eq!(d.affected, vec![true, true, false]);
    assert_eq!(d.reduced, vec![true, true, false]);
    assert_eq!(d.matches, vec![None, Some(1), Some(2)]);
    let same = diff(&prev, &split(&m, old, 0));
    assert_eq!(same.affected, vec![false, false, false]);
}

#[test]
fn an_item_that_stands_twice_has_everything_checked() {
    let text = "fun a(){1}\nfun a(){1}\n";
    let m = module(vec![fun("a", 0, 10), fun("a", 11, 21)]);
    let items = split(&m, text, 0);
    assert!(diff(&items, &split(&m, text, 0)).full);
}

#[test]
fn closures_of_marks_are_least() {
    let edges = vec![
        vec![false, true, false],
        vec![false, false, false],
        vec![true, false, false],
    ];
    assert_eq!(closure(vec![true, false, false], &edges), vec![true, true, false]);
    assert_eq!(closure(vec![false, false, false], &edges), vec![false, false, false]);
    assert_eq!(closure(vec![false, false, true], &edges), vec![true, true, true]);
}

#[test]
fn code_is_fenced() {
    assert_eq!(fenced("x"), "```prepoly\nx\n```");
}

// ---- modules of a directory ----

#[test]
fn modules_of_a_directory() {
    let libs = LibraryNames { prefix: "lib".to_string(), extension: "so".to_string() };
    let entries: Vec<(String, bool)> = vec![
        ("sub".to_string(), true),
        ("main.pp".to_string(), false),
        ("util.pp".to_string(), false),
        ("libmath.so".to_string(), false),
        ("lib.so".to_string(), false),
        ("notes.txt".to_string(), false),
        ("plain".to_string(), false),
    ];
    let names = dir_module_names(&entries, Some("main"), &libs);
    assert!(names.contains(&"util".to_string()), "{names:?}");
    assert!(names.contains(&"math".to_string()), "{names:?}");
    assert!(names.contains(&"lib".to_string()), "{names:?}");
    assert!(names.contains(&"sub".to_string()), "{names:?}");
    for absent in ["main", "notes", "plain"] {
        assert!(!names.contains(&absent.to_string()), "{names:?}");
    }
    assert!(dir_module_names(&entries, None, &libs).contains(&"main".to_string()));
}

#[test]
fn exports_are_probed_by_an_import() {
    let path = strings(&["std", "io"]);
    assert_eq!(export_probe(&path), Some("import std.io\n".to_string()));
    assert_eq!(export_probe(&vec![]), None);
    assert_eq!(export_target(&strings(&["io"]), true), path);
    assert_eq!(export_target(&strings(&["io"]), false), strings(&["io"]));
}

#[test]
fn names_of_an_import_come_from_the_analysis_first() {
    let offered = import_name_items(vec![item("print"), item("read")], None, "pr");
    assert_eq!(offered.iter().map(|i| i.label.as_str()).collect::<Vec<&str>>(), vec!["print"]);
    let parsed = Module {
        imports: vec![],
        items: vec![TopLevel::Fun(FunDecl {
            name: "helper".to_string(),
            recv: None,
            params: vec![],
            ret: None,
            body: Block { stmts: vec![], span: Span::new(0, 0) },
            span: Span::new(0, 0),
            doc: None,
        })],
    };
    let offered = import_name_items(vec![], Some(&parsed), "");
    assert_eq!(offered.iter().map(|i| i.label.as_str()).collect::<Vec<&str>>(), vec!["helper"]);
    assert!(import_name_items(vec![], None, "").is_empty());
    assert_eq!(syntax_error("expected `}`"), "syntax error: expected `}`");
}

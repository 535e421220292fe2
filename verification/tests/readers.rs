use differential_review::naive::{definitions, references, NaiveSymbols};
use differential_review::namespace::{is_code, of};
use differential_review::sfc::script_only;
use differential_review::stub::StubSymbols;
use differential_review::symbols::{FileSymbols, Scope, Symbol};

fn mask(src: &str) -> String {
    String::from_utf8(script_only(src.as_bytes()).expect("a script block")).unwrap()
}

#[test]
fn the_mask_keeps_every_byte_position_and_every_line() {
    let src = "<template>\n  <Child />\n</template>\n<script>\nconst a = 1;\n</script>\n";
    let out = mask(src);
    assert_eq!(out.len(), src.len(), "a byte offset must not move");
    assert_eq!(out.lines().count(), src.lines().count(), "a line number must not move");
    assert!(out.contains("const a = 1;"), "the script survives: {out:?}");
    assert!(!out.contains("Child"), "the template does not: {out:?}");
}

#[test]
fn both_blocks_of_a_setup_component_are_kept() {
    let src = "<script lang=\"ts\">\nexport default {};\n</script>\n\
               <script setup lang=\"ts\">\nconst b = 2;\n</script>\n";
    let out = mask(src);
    assert!(out.contains("export default {};"), "{out:?}");
    assert!(out.contains("const b = 2;"), "{out:?}");
}

#[test]
fn a_template_only_component_is_declined_rather_than_read_as_empty() {
    assert!(script_only(b"<template>\n  <Child />\n</template>\n").is_none());
}

#[test]
fn a_script_blanks_its_tags_and_keeps_carriage_returns() {
    let src = "<template>x</template>\r\n<script>\r\nlet v;\r\n</script>\r\n";
    let out = mask(src);
    assert_eq!(out.len(), src.len());
    assert_eq!(out.matches('\r').count(), src.matches('\r').count());
    assert_eq!(out.matches('\n').count(), src.matches('\n').count());
    assert!(out.contains("let v;"));
    assert!(!out.contains("script"));
    assert!(!out.contains('x'));
}

fn text(rows: &[Vec<Symbol>], line: usize) -> Vec<String> {
    rows[line - 1].iter().map(|s| String::from_utf8_lossy(&s.name).into_owned()).collect()
}

#[test]
fn it_reads_source_and_declines_data_and_prose() {
    assert_eq!(NaiveSymbols.priority(b"src/lib.rs"), Some(1));
    assert_eq!(NaiveSymbols.priority(b"queries/get.sql"), Some(1));
    assert_eq!(NaiveSymbols.priority(b"Cargo.toml"), None);
    assert_eq!(NaiveSymbols.priority(b"README.md"), None);
    assert_eq!(NaiveSymbols.priority(b"pnpm-lock.yaml"), None);
    assert_eq!(NaiveSymbols.priority(b"package.json"), None);
    assert_eq!(NaiveSymbols.priority(b"CODEOWNERS"), None);
}

#[test]
fn symbols_land_on_the_line_that_carries_them() {
    let s = NaiveSymbols
        .file_symbols(b"a.rs", b"// nothing\nstruct WidgetCore {}\nlet c = WidgetCore;\n")
        .unwrap();
    assert_eq!(text(&s.defines, 2), ["WidgetCore"]);
    assert!(s.defines[2].is_empty(), "line 3 defines nothing");
    assert_eq!(text(&s.references, 3), ["WidgetCore"]);
}

#[test]
fn the_crude_reader_places_names_at_their_bytes_in_its_namespace() {
    let s = NaiveSymbols.file_symbols(b"src/a.rs", b"fn compute() {}\n").unwrap();
    assert_eq!(s.namespace, b"rust".to_vec());
    assert_eq!(s.defines.len(), 2, "a trailing newline leaves an empty last line");
    let d = &s.defines[0][0];
    assert_eq!(d.name, b"compute".to_vec());
    assert_eq!((d.site.start, d.site.end, d.site.through), (3, 10, 0));
    assert_eq!(d.scope, Scope::Global);
    assert_eq!(NaiveSymbols.fingerprint(), "naive-v4");
}

fn ns(path: &str) -> String {
    String::from_utf8(of(path.as_bytes())).unwrap()
}

#[test]
fn one_language_is_one_namespace_however_it_is_spelled() {
    assert_ne!(ns("src/model.rs"), ns("tests/api.test.ts"));
    assert_eq!(ns("a.ts"), ns("b.tsx"));
    assert_eq!(ns("a.ts"), ns("c.js"));
    assert_eq!(ns("A.kt"), ns("B.java"));
    assert_eq!(ns("a.c"), ns("b.hpp"));
    assert_eq!(ns("a.rs"), "rust");
}

#[test]
fn the_claim_and_the_namespace_read_one_table() {
    for path in ["a.pyi", "a.mts", "a.cts", "a.rs", "q.sql"] {
        assert!(is_code(path.as_bytes()), "{path} is in the table");
    }
    for path in ["Cargo.toml", "README.md", "CODEOWNERS"] {
        assert!(!is_code(path.as_bytes()), "{path} is not");
    }
}

#[test]
fn an_unclaimed_file_gets_its_own_extension_not_a_shared_bucket() {
    assert_eq!(ns("Cargo.lock"), ".lock");
    assert_eq!(ns("notes.md"), ".md");
    assert_ne!(ns("notes.md"), ns("Cargo.lock"));
    assert_eq!(ns("CODEOWNERS"), "CODEOWNERS");
}

fn names(row: &[Symbol]) -> Vec<(String, u32, u32, u32)> {
    row.iter()
        .map(|s| (String::from_utf8_lossy(&s.name).into_owned(), s.site.start, s.site.end, s.site.through))
        .collect()
}

#[test]
fn the_stub_defines_after_a_keyword_and_runs_to_the_next_declaration() {
    let s: FileSymbols = StubSymbols
        .file_symbols(b"x.txt", b"fn alpha() {\n  call_beta();\n}\nstruct Gamma;\n")
        .unwrap();
    assert_eq!(s.defines.len(), 5);
    assert_eq!(names(&s.defines[0]), [("alpha".to_string(), 3, 8, 3)]);
    assert_eq!(names(&s.defines[3]), [("Gamma".to_string(), 7, 12, 5)]);
    assert!(s.defines[1].is_empty() && s.defines[2].is_empty() && s.defines[4].is_empty());
    assert_eq!(names(&s.references[0]), [("alpha".to_string(), 3, 8, 0)]);
    assert_eq!(names(&s.references[1]), [("call_beta".to_string(), 2, 11, 0)]);
    assert_eq!(names(&s.references[3]), [("struct".to_string(), 0, 6, 0), ("Gamma".to_string(), 7, 12, 0)]);
    assert!(s.namespace.is_empty());
    assert_eq!(StubSymbols.priority(b"anything"), Some(1));
    assert_eq!(StubSymbols.fingerprint(), "stub-symbols-v3");
}

#[test]
fn the_stub_places_a_definition_where_its_text_first_occurs() {
    let s = StubSymbols.file_symbols(b"x", b"xabc fn abc 2abcd").unwrap();
    assert_eq!(names(&s.defines[0]), [("abc".to_string(), 1, 4, 1)]);
    assert_eq!(names(&s.references[0]), [("xabc".to_string(), 0, 4, 0)], "a digit-led word is no reference");
}

#[test]
fn the_stub_reads_nothing_on_a_line_that_is_not_utf8() {
    let s = StubSymbols.file_symbols(b"x", b"fn good\n\xff fn bad\n").unwrap();
    assert_eq!(names(&s.defines[0]), [("good".to_string(), 3, 7, 3)]);
    assert!(s.defines[1].is_empty());
    assert!(s.references[1].is_empty());
}

use differential_review::captures::{symbols_from_captures, Capture};

fn cap(name: &str, line: usize, range: std::ops::Range<usize>, text: &str, through: u32) -> Capture {
    let columns = (range.start as u32, range.end as u32);
    Capture { name: name.to_string(), line, range, text: text.as_bytes().to_vec(), columns, through }
}

fn row(rows: &[Symbol]) -> Vec<(String, Scope, u32)> {
    rows.iter().map(|s| (String::from_utf8_lossy(&s.name).into_owned(), s.scope, s.site.through)).collect()
}

#[test]
fn a_definition_vetoes_every_other_reading_of_its_token() {
    let caps = [
        cap("def", 0, 7..13, "Widget", 4),
        cap("type", 0, 7..13, "Widget", 0),
        cap("call", 1, 20..23, "run", 0),
        cap("local_def", 1, 25..26, "x", 1),
        cap("local_ref", 2, 30..31, "x", 0),
        cap("local_def", 2, 40..41, "y", 2),
        cap("def", 2, 40..41, "y", 2),
        cap("ref", 5, 50..53, "far", 0),
        cap("comment", 0, 60..61, "z", 0),
    ];
    let s = symbols_from_captures(&caps, 3, b"rust".to_vec());
    assert_eq!(s.namespace, b"rust".to_vec());
    assert_eq!(s.defines.len(), 3);
    assert_eq!(row(&s.defines[0]), [("Widget".to_string(), Scope::Global, 4)]);
    assert!(s.references[0].is_empty(), "the type capture of a definition is no reference");
    assert_eq!(row(&s.defines[1]), [("x".to_string(), Scope::File, 1)]);
    assert_eq!(row(&s.references[1]), [("run".to_string(), Scope::Global, 0)]);
    assert_eq!(row(&s.defines[2]), [("y".to_string(), Scope::Global, 2)], "a file-scope definition wins over a local one");
    assert_eq!(row(&s.references[2]), [("x".to_string(), Scope::File, 0)]);
    assert_eq!((s.defines[0][0].site.start, s.defines[0][0].site.end), (7, 13));
}

use differential_review::kinds::{
    below, columns_of, definition_scope, inside_a_type_body, is_callee_here, is_prose, mentions_word, token_role, Above, TokenRole,
};

#[test]
fn a_token_in_a_string_is_prose_unless_an_interpolation_intervenes() {
    assert!(is_prose(&["program", "line_comment"]));
    assert!(is_prose(&["program", "call_expression", "string_literal"]));
    assert!(!is_prose(&["program", "template_string", "template_substitution", "call_expression"]));
    assert!(is_prose(&["program", "comment", "template_substitution"]), "a comment holds whatever it holds");
    assert!(!is_prose(&["program", "function_item", "block"]));
    assert!(!is_prose(&[]));
}

#[test]
fn the_flags_a_walk_carries_down_say_what_the_climb_says() {
    let paths: [&[&str]; 4] = [
        &["program", "call_expression", "string_literal"],
        &["program", "template_string", "template_substitution", "call_expression"],
        &["source_file", "block_comment"],
        &["source_file", "function_item"],
    ];
    for path in paths {
        let mut flags = Above { in_comment: false, in_string: false };
        for kind in path {
            flags = below(flags, kind);
        }
        assert_eq!(flags.in_comment || flags.in_string, is_prose(path), "{path:?}");
    }
}

#[test]
fn a_field_says_whether_a_token_is_called_or_declared() {
    assert!(mentions_word("call_expression", "call"));
    assert!(mentions_word("x", ""));
    assert!(!mentions_word("cal", "call"));
    assert!(is_callee_here("function", "anything"));
    assert!(is_callee_here("name", "method_invocation"));
    assert!(!is_callee_here("name", "class_declaration"));
    assert_eq!(definition_scope("name", "class_declaration", false, false), Some(Scope::Global));
    assert_eq!(definition_scope("name", "function_declaration", false, false), Some(Scope::Global));
    assert_eq!(definition_scope("name", "method_declaration", false, true), Some(Scope::File), "a method is its type's");
    assert_eq!(definition_scope("declarator", "init_declarator", false, false), Some(Scope::File));
    assert_eq!(definition_scope("name", "method_invocation", true, false), None, "a callee is a use");
    assert_eq!(definition_scope("body", "function_declaration", false, false), None);
    assert!(inside_a_type_body(&["program", "impl_item", "declaration_list"]));
    assert!(inside_a_type_body(&["translation_unit", "struct_specifier"]));
    assert!(!inside_a_type_body(&["program", "function_item"]));
}

#[test]
fn a_leaf_is_skipped_defined_or_read() {
    assert_eq!(token_role("(", "", "call_expression", false, false), TokenRole::Skipped);
    assert_eq!(token_role("identifier", "name", "class_declaration", false, false), TokenRole::Defines(Scope::Global));
    assert_eq!(token_role("identifier", "function", "call_expression", true, false), TokenRole::Reads { global: true });
    assert_eq!(token_role("type_identifier", "type", "parameter", false, false), TokenRole::Reads { global: true });
    assert_eq!(token_role("identifier", "argument", "call_expression", false, false), TokenRole::Reads { global: false });
    assert_eq!(token_role("identifier", "left", "assignment", false, false), TokenRole::Reads { global: false });
}

#[test]
fn a_token_on_one_row_keeps_its_columns_and_one_across_rows_keeps_its_first_row() {
    assert_eq!(columns_of((3, 4), (3, 9), 5), (4, 9));
    assert_eq!(columns_of((3, 4), (5, 2), 20), (4, 24));
    assert_eq!(columns_of((0, 0), (0, 0), 0), (0, 0));
}

/// The floor is the AST readers' fallback when a parse fails, so it has to
/// claim everything they claim.
#[test]
fn the_floor_stands_under_every_file_the_ast_readers_claim() {
    for path in [
        b"a.rs".as_slice(),
        b"a.pyi",
        b"a.mts",
        b"a.cts",
        b"a.tsx",
        b"a.kts",
        b"a.js",
        b"a.java",
        b"a.h",
        b"a.hh",
        b"a.cs",
        b"a.swift",
        b"a.php",
        b"a.zig",
        b"Panel.vue",
    ] {
        let name = String::from_utf8_lossy(path);
        assert_eq!(NaiveSymbols.priority(path), Some(1), "an AST reader claims {name} and the floor does not");
        assert!(is_code(path));
    }
}

/// The crude reader reports columns and refuses to invent an extent.
#[test]
fn the_crude_reader_places_a_name_but_claims_no_body() {
    let s = NaiveSymbols
        .file_symbols(b"a.rb", b"class Widget\n  def serve\n  end\nend\n")
        .expect("the crude reader claims .rb");
    let def = s.defines.iter().flatten().find(|y| y.name == b"Widget").expect("`class Widget` defines Widget");
    assert_eq!((def.site.start, def.site.end), (6, 12));
    assert_eq!(def.site.through, 0, "a regex cannot see an extent");
}

#[test]
fn a_line_reads_every_name_it_defines_even_a_short_one() {
    let s = NaiveSymbols.file_symbols(b"a.rs", b"fn foo() { bar_baz(); }\n").unwrap();
    assert_eq!(text(&s.defines, 1), ["foo"]);
    assert_eq!(text(&s.references, 1), ["bar_baz", "foo"], "foo is too short for the pattern and still read");
    let r = &s.references[0][1];
    assert_eq!((r.site.start, r.site.end, r.scope), (3, 6, Scope::Global));
    let long = NaiveSymbols.file_symbols(b"a.rs", b"struct Widget;\n").unwrap();
    assert_eq!(text(&long.references, 1), ["struct", "Widget"], "a long name is found once");
}

#[test]
fn a_file_named_like_a_language_stays_out_of_its_bucket() {
    assert!(!is_code(b"c") && is_code(b"a.c"));
    assert_ne!(of(b"c"), of(b"a.c"));
    assert_eq!(of(b"c"), [0xff, b'c']);
    assert_eq!(of(b"rust"), [0xff, b'r', b'u', b's', b't']);
    assert_eq!(of(b"CODEOWNERS"), b"CODEOWNERS".to_vec(), "a name no language has is its own");
}

#[test]
fn every_name_a_line_defines_is_among_its_references() {
    for line in [&b"fn foo() { bar_baz(); }"[..], b"let x = 1; fn ab() {}", b"class Queue extends Base {}", b"nothing here"] {
        let refs = references(line);
        for d in definitions(line) {
            assert!(
                refs.iter().any(|r| r.name == d.name && r.site.start == d.site.start && r.site.end == d.site.end),
                "{:?} defines a name its references miss",
                String::from_utf8_lossy(line)
            );
        }
    }
}

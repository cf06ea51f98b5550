use esm_lexer::helper::{Export, Import};
use esm_lexer::parse::parse;
use esm_lexer::source::setSource;
use esm_lexer::state::{Lexer, ParseError};

fn lex(src: &str) -> Result<(Vec<Import>, Vec<Export>, bool), ParseError> {
    let mut lx = Lexer::new();
    setSource(&mut lx, src);
    parse(&mut lx)
}

fn ok(src: &str) -> (Vec<Import>, Vec<Export>, bool) {
    match lex(src) {
        Ok(r) => r,
        Err(e) => panic!("unexpected parse error at {}", e.pos),
    }
}

#[test]
fn import_and_export_usage() {
    let (imports, exports, facade) = ok("import mod from \"module\";\nexport var p = 5;");
    assert_eq!(imports.len(), 1);
    assert_eq!(imports[0].n.as_deref(), Some("module"));
    assert_eq!(exports.len(), 1);
    assert_eq!(exports[0].n.as_deref(), Some("p"));
    assert!(!facade);
}

#[test]
fn static_import_positions() {
    let (imports, _, facade) = ok("import mod from \"module\";");
    let i = &imports[0];
    assert_eq!((i.ss, i.se, i.s, i.e, i.a, i.d, i.t), (0, 24, 17, 23, -1, -1, 1));
    assert!(i.at.is_none());
    assert!(facade);
}

#[test]
fn bare_import() {
    let (imports, _, _) = ok("import 'x';");
    assert_eq!(imports[0].n.as_deref(), Some("x"));
    assert_eq!((imports[0].s, imports[0].e), (8, 9));
}

#[test]
fn dynamic_import() {
    let (imports, _, facade) = ok("import('a')");
    let i = &imports[0];
    assert_eq!(i.n.as_deref(), Some("a"));
    assert_eq!((i.ss, i.se, i.s, i.e, i.d, i.t), (0, 11, 7, 10, 6, 2));
    assert!(facade);
}

#[test]
fn dynamic_import_expression() {
    let (imports, _, _) = ok("const m = import(name);");
    let i = &imports[0];
    assert_eq!(i.n, None);
    assert_eq!(i.d, 16);
    assert_eq!(i.t, 2);
    assert_eq!(i.e, 21);
    assert_eq!(i.se, 22);
}

#[test]
fn dynamic_import_template() {
    let (imports, _, _) = ok("import(`x`)");
    assert_eq!(imports[0].n.as_deref(), Some("x"));
}

#[test]
fn import_meta() {
    let (imports, _, _) = ok("import.meta.url");
    let i = &imports[0];
    assert_eq!(imports.len(), 1);
    assert_eq!((i.ss, i.se, i.s, i.e, i.a, i.d, i.t), (0, 11, 0, 11, -1, -2, 3));
    assert_eq!(i.n, None);
    assert!(i.at.is_none());
}

#[test]
fn import_source_phase() {
    let (imports, _, _) = ok("import source x from 'y';");
    assert_eq!(imports[0].t, 4);
    assert_eq!(imports[0].n.as_deref(), Some("y"));
}

#[test]
fn import_defer_phase() {
    let (imports, _, _) = ok("import defer * as ns from 'z';");
    assert_eq!(imports[0].t, 6);
    assert_eq!(imports[0].n.as_deref(), Some("z"));
}

#[test]
fn import_attributes() {
    let src = "import a from 'b' with { type: 'json' };";
    let (imports, _, _) = ok(src);
    let i = &imports[0];
    assert_eq!(i.n.as_deref(), Some("b"));
    assert_eq!(i.a, 23);
    assert_eq!(i.se, 39);
    let at = i.at.as_ref().expect("attributes");
    assert_eq!(at.len(), 1);
    assert_eq!(at[0].0, "type");
    assert_eq!(at[0].1, "json");
}

#[test]
fn named_exports() {
    let (_, exports, facade) = ok("export { a, b as c };");
    assert_eq!(exports.len(), 2);
    assert_eq!(exports[0].n.as_deref(), Some("a"));
    assert_eq!(exports[0].ln.as_deref(), Some("a"));
    assert_eq!(exports[1].n.as_deref(), Some("c"));
    assert_eq!(exports[1].ln.as_deref(), Some("b"));
    assert_eq!(exports[1].ss, 0);
    assert!(facade);
}

#[test]
fn reexport() {
    let (imports, exports, facade) = ok("export { x as y } from './m';");
    assert_eq!(imports.len(), 1);
    assert_eq!(imports[0].n.as_deref(), Some("./m"));
    assert_eq!(exports[0].n.as_deref(), Some("y"));
    assert_eq!(exports[0].ln, None);
    assert_eq!((exports[0].ls, exports[0].le), (-1, -1));
    assert!(facade);
}

#[test]
fn star_reexport() {
    let (imports, exports, facade) = ok("export * from 'x';");
    assert_eq!(imports.len(), 1);
    assert_eq!(exports.len(), 0);
    assert!(facade);
}

#[test]
fn export_default_function() {
    let (_, exports, facade) = ok("export default function foo() {}");
    assert_eq!(exports[0].n.as_deref(), Some("default"));
    assert_eq!(exports[0].ln.as_deref(), Some("foo"));
    assert_eq!((exports[0].s, exports[0].e), (7, 14));
    assert!(!facade);
}

#[test]
fn export_default_expression() {
    let (_, exports, _) = ok("export default 42;");
    assert_eq!(exports[0].n.as_deref(), Some("default"));
    assert_eq!(exports[0].ln, None);
    assert_eq!((exports[0].ls, exports[0].le), (-1, -1));
}

#[test]
fn export_function_and_class() {
    let (_, exports, _) = ok("export async function f() {}\nexport class C {}");
    let names: Vec<_> = exports.iter().map(|e| e.n.clone().unwrap()).collect();
    assert_eq!(names, vec!["f".to_string(), "C".to_string()]);
}

#[test]
fn export_bindings_with_initializers() {
    let (_, exports, _) = ok("export const a = f(1, 2), b = [3, 4];");
    let names: Vec<_> = exports.iter().map(|e| e.n.clone().unwrap()).collect();
    assert_eq!(names, vec!["a".to_string(), "b".to_string()]);
}

#[test]
fn export_destructuring() {
    let (_, exports, _) = ok("export const { a, b: c, d = 1, ...e } = obj, [f, , g] = arr;");
    let names: Vec<_> = exports.iter().map(|e| e.n.clone().unwrap()).collect();
    assert_eq!(names, vec!["a", "c", "d", "e", "f", "g"]);
}

#[test]
fn export_list_stops_at_line_break() {
    let (_, exports, _) = ok("export let a = 1\nfoo(b, c)");
    assert_eq!(exports.len(), 1);
    assert_eq!(exports[0].n.as_deref(), Some("a"));
}

#[test]
fn string_escapes() {
    let (imports, _, _) = ok("import '\\u{41}\\x42\\103\\n';");
    assert_eq!(imports[0].n.as_deref(), Some("ABC\n"));
}

#[test]
fn surrogate_escape() {
    let (imports, _, _) = ok("import '\\u{1F600}';");
    assert_eq!(imports[0].n.as_deref(), Some("\u{1F600}"));
}

#[test]
fn bad_escape_gives_no_name() {
    let (imports, _, _) = ok("import '\\u{110000}';");
    assert_eq!(imports.len(), 1);
    assert_eq!(imports[0].n, None);
}

#[test]
fn unterminated_string_is_an_error() {
    assert!(lex("import 'abc").is_err());
}

#[test]
fn unbalanced_brace_is_an_error() {
    assert!(lex("function f() {").is_err());
    assert!(lex("}").is_err());
}

#[test]
fn regex_and_division() {
    let (imports, _, _) = ok("const r = /'/g; const d = a / b / c; import 'x';");
    assert_eq!(imports.len(), 1);
    assert_eq!(imports[0].n.as_deref(), Some("x"));
}

#[test]
fn template_with_dynamic_import() {
    let (imports, _, _) = ok("const t = `${import('a')}`;");
    assert_eq!(imports.len(), 1);
    assert_eq!(imports[0].n.as_deref(), Some("a"));
}

#[test]
fn comments_are_skipped() {
    let (imports, _, facade) = ok("// import 'no'\n/* import 'no' */ import 'yes';");
    assert_eq!(imports.len(), 1);
    assert_eq!(imports[0].n.as_deref(), Some("yes"));
    assert!(facade);
}

#[test]
fn method_named_import_is_dropped() {
    let (imports, _, _) = ok("class A { import() {} }");
    assert_eq!(imports.len(), 0);
}

#[test]
fn jsx_text_does_not_break_strings() {
    let (imports, exports, _) = ok("const a = <div title=\"x\">it's {b}</div>;\nexport const c = 1;");
    assert_eq!(imports.len(), 0);
    assert_eq!(exports[0].n.as_deref(), Some("c"));
}

#[test]
fn jsx_nested_and_self_closing() {
    let (_, exports, _) = ok("const a = <A><B x={1} /><>f</></A>;\nexport { a };");
    assert_eq!(exports[0].n.as_deref(), Some("a"));
}

#[test]
fn jsx_unterminated_at_end_is_tolerated() {
    assert!(lex("const a = <div>{").is_ok());
}

#[test]
fn comparison_is_not_jsx() {
    let (_, exports, _) = ok("if (a < b) {}\nexport const c = 1;");
    assert_eq!(exports[0].n.as_deref(), Some("c"));
}

#[test]
fn utf16_positions() {
    let (imports, _, _) = ok("/*\u{1F600}*/import 'x';");
    assert_eq!(imports[0].ss, 6);
    assert_eq!(imports[0].s, 14);
}

#[test]
fn malformed_attributes_keep_entries_read() {
    let src = "import a from 'b' with { type: 'json', bad };";
    let (imports, _, _) = ok(src);
    let i = &imports[0];
    assert_eq!(i.a, -1);
    assert_eq!((i.s, i.e, i.se), (15, 16, 17));
    let at = i.at.as_ref().expect("entries read before the malformed one");
    assert_eq!(at.len(), 1);
    assert_eq!((at[0].0.as_str(), at[0].1.as_str()), ("type", "json"));
}

#[test]
fn quoted_attribute_key() {
    let (imports, _, _) = ok("import 'x' with { 'type': \"css\" }");
    let at = imports[0].at.as_ref().expect("attributes");
    assert_eq!((at[0].0.as_str(), at[0].1.as_str()), ("type", "css"));
    assert_eq!(imports[0].se, 33);
}

#[test]
fn dynamic_import_with_options() {
    let (imports, _, _) = ok("import('./a.json', { with: { type: 'json' } })");
    let i = &imports[0];
    assert_eq!(i.n.as_deref(), Some("./a.json"));
    assert_eq!((i.s, i.e, i.a, i.d), (7, 17, 19, 6));
    assert_eq!(i.se, 46);
}

#[test]
fn export_star_as_name() {
    let (imports, exports, facade) = ok("export * as ns from './m';");
    assert_eq!(imports.len(), 1);
    assert_eq!(exports.len(), 1);
    assert_eq!(exports[0].n.as_deref(), Some("ns"));
    assert_eq!((exports[0].s, exports[0].e, exports[0].ls), (12, 14, -1));
    assert!(facade);
}

#[test]
fn export_string_name() {
    let (_, exports, _) = ok("export { a as 'b c' };");
    assert_eq!(exports[0].n.as_deref(), Some("b c"));
    assert_eq!(exports[0].ln.as_deref(), Some("a"));
}

#[test]
fn export_class_clears_facade() {
    let (_, exports, facade) = ok("export class Foo {}");
    assert_eq!(exports[0].n.as_deref(), Some("Foo"));
    assert_eq!((exports[0].s, exports[0].e, exports[0].ls, exports[0].le), (13, 16, 13, 16));
    assert!(!facade);
}

#[test]
fn export_async_function() {
    let (_, exports, facade) = ok("export async function* gen() {}");
    assert_eq!(exports[0].n.as_deref(), Some("gen"));
    assert!(!facade);
}

#[test]
fn export_default_anonymous_class() {
    let (_, exports, _) = ok("export default class { }");
    assert_eq!(exports[0].n.as_deref(), Some("default"));
    assert_eq!(exports[0].ln, None);
    assert_eq!((exports[0].s, exports[0].e), (7, 14));
}

#[test]
fn facade_only_module_syntax() {
    assert!(ok("import 'a';\n// note\nexport * from 'b'; ;").2);
    assert!(!ok("import 'a'; foo();").2);
    assert!(!ok("export const x = 1;").2);
}

#[test]
fn second_parse_forgets_first() {
    let mut lx = Lexer::new();
    setSource(&mut lx, "import 'a'; export { b };");
    let first = parse(&mut lx).ok().expect("first parse");
    let second = parse(&mut lx).ok().expect("second parse");
    assert_eq!(first.0.len(), 1);
    assert_eq!(second.0.len(), 1);
    assert_eq!(second.1.len(), 1);
    assert_eq!(first.2, second.2);
}

#[test]
fn unterminated_reexport_specifier_is_an_error() {
    let e = lex("export * from 'x").err().expect("error");
    assert_eq!(e.pos, 16);
}

#[test]
fn jsx_container_reads_dynamic_import() {
    let (imports, _, _) = ok("const a = <div>{import('x')}</div>;");
    assert_eq!(imports.len(), 1);
    assert_eq!(imports[0].n.as_deref(), Some("x"));
    assert_eq!((imports[0].ss, imports[0].d, imports[0].t), (16, 22, 2));
}

#[test]
fn jsx_attribute_container_reads_dynamic_import() {
    let (imports, _, _) = ok("const a = <a x={import('m')} />;");
    assert_eq!(imports.len(), 1);
    assert_eq!(imports[0].n.as_deref(), Some("m"));
}

#[test]
fn jsx_attribute_forms() {
    let src = "const a = <input disabled value=x {...p} data-k='y' title=\"{'\" />;\nexport const c = 1;";
    let (imports, exports, _) = ok(src);
    assert_eq!(imports.len(), 0);
    assert_eq!(exports.len(), 1);
    assert_eq!(exports[0].n.as_deref(), Some("c"));
}

#[test]
fn jsx_closing_tags_return_to_code() {
    let (imports, _, _) = ok("const a = <a><b></b>t/x</a>; import('z');");
    assert_eq!(imports.len(), 1);
    assert_eq!(imports[0].n.as_deref(), Some("z"));
}

#[test]
fn separator_in_escape_is_no_string_value() {
    let (imports, _, _) = ok("import '\\u{4_1}';");
    assert_eq!(imports.len(), 1);
    assert_eq!(imports[0].n, None);
    let (imports, _, _) = ok("import '\\u{41}';");
    assert_eq!(imports[0].n.as_deref(), Some("A"));
    let (imports, _, _) = ok("import '\\x4_1';");
    assert_eq!(imports[0].n, None);
}

#[test]
fn default_function_name_keeps_its_first_unit() {
    let (_, exports, _) = ok("export default function <x() {}");
    assert_eq!(exports.len(), 1);
    assert_eq!(exports[0].n.as_deref(), Some("default"));
    assert_eq!((exports[0].ls, exports[0].le), (24, 26));
    assert_eq!(exports[0].ln.as_deref(), Some("<x"));
}

#[test]
fn keyword_at_source_start_allows_regex() {
    let (imports, _, _) = ok("return /'/; import('a')");
    assert_eq!(imports.len(), 1);
    assert_eq!(imports[0].n.as_deref(), Some("a"));
}

#[test]
fn reexport_statement_keeps_facade_and_adds_one_import() {
    let (imports, exports, facade) = ok("export { a as b, c } from 'd';");
    assert!(facade);
    assert_eq!(imports.len(), 1);
    assert_eq!((imports[0].ss, imports[0].d, imports[0].t), (0, -1, 1));
    assert_eq!(exports.len(), 2);
    for e in &exports {
        assert_eq!(e.ss, 0);
        assert_eq!((e.ls, e.le), (-1, -1));
        assert!(e.ln.is_none());
        assert!(e.n.is_some());
    }
}

#[test]
fn declaration_export_clears_facade() {
    let (_, exports, facade) = ok("export function f() {}");
    assert!(!facade);
    assert_eq!(exports[0].ss, 0);
    assert_eq!(exports[0].ln.as_deref(), Some("f"));
    assert!(exports[0].ls >= 0 && exports[0].le >= 0);
}

#[test]
fn export_in_initializer_starts_its_own_statement() {
    let (_, exports, _) = ok("export const a = b export const c = 1");
    let got: Vec<(Option<String>, i32)> = exports.iter().map(|e| (e.n.clone(), e.ss)).collect();
    assert_eq!(got, vec![(Some("a".to_string()), 0), (Some("c".to_string()), 19)]);
}

#[test]
fn imports_come_in_statement_order() {
    let src = "import a from 'x';\nconst b = import('y');\nexport * from 'z';\nimport.meta.url;";
    let (imports, _, _) = ok(src);
    assert_eq!(imports.len(), 4);
    for w in imports.windows(2) {
        assert!(w[0].ss < w[1].ss);
    }
    assert_eq!(imports[0].ss, 0);
}

#[test]
fn static_import_inside_brackets_records_nothing() {
    let (imports, _, _) = ok("{ import a from 'x'; }\nif (x) { import('y') }");
    assert_eq!(imports.len(), 1);
    assert_eq!(imports[0].n.as_deref(), Some("y"));
}

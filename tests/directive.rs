use winrt_import::{
    expand_paths, namespace_literal_to_rough_namespace, parse_category, parse_dependencies,
    parse_import_stream, parse_namespace, resolve_imports, Category, Directive, Entry, Environment,
    ImportError, KeySet, ParseState, PathKind, Probe, Token,
};

fn word(s: &str) -> Token {
    Token::Ident(s.to_string())
}

fn lit(s: &str) -> Token {
    Token::Literal(format!("\"{}\"", s))
}

fn punct(c: char) -> Token {
    Token::Punct(c)
}

fn env() -> Environment {
    Environment::for_target(Some("C:\\Windows".to_string()), "/home/me".to_string(), true)
}

fn file(path: &str, name: &str) -> Probe {
    Probe { path: path.to_string(), kind: PathKind::File(name.to_string()) }
}

fn entry(path: &str, name: &str, is_file: bool) -> Entry {
    Entry { path: path.to_string(), name: name.to_string(), is_file }
}

fn dir(path: &str, entries: Vec<Entry>) -> Probe {
    Probe { path: path.to_string(), kind: PathKind::Directory(entries) }
}

fn strings(v: &[&str]) -> Vec<String> {
    v.iter().map(|s| s.to_string()).collect()
}

fn compile(tokens: Vec<Token>, probes: Vec<Probe>) -> Result<(Vec<String>, Vec<String>), ImportError> {
    let d = parse_import_stream(&tokens, &env());
    resolve_imports(d, &probes).map(|im| (im.dependencies.to_vec(), im.namespaces.to_vec()))
}

#[test]
fn normalize_drops_quotes_and_underscores_and_lowercases() {
    assert_eq!(namespace_literal_to_rough_namespace("\"Foo_Bar\""), "foobar");
    assert_eq!(namespace_literal_to_rough_namespace("\"Windows.Foundation\""), "windows.foundation");
    assert_eq!(namespace_literal_to_rough_namespace(""), "");
    assert_eq!(namespace_literal_to_rough_namespace("ÀB_\"c"), "àbc");
}

#[test]
fn normalize_twice_is_normalize_once() {
    for s in ["\"Foo_Bar\"", "Windows.UI.Xaml", "__A__\"\"B", "ÉtÉ_Ω"] {
        let once = namespace_literal_to_rough_namespace(s);
        let twice = namespace_literal_to_rough_namespace(&once);
        assert_eq!(once, twice);
    }
}

#[test]
fn state_transitions() {
    assert_eq!(ParseState::Neither.parsed_namespace(), ParseState::ParsedNamespace);
    assert_eq!(ParseState::Neither.parsed_dependency(), ParseState::ParsedDependency);
    assert_eq!(ParseState::ParsedDependency.parsed_namespace(), ParseState::Both);
    assert_eq!(ParseState::ParsedNamespace.parsed_dependency(), ParseState::Both);
    assert_eq!(ParseState::ParsedNamespace.parsed_namespace(), ParseState::ParsedNamespace);
    assert_eq!(ParseState::ParsedDependency.parsed_dependency(), ParseState::ParsedDependency);
    assert_eq!(ParseState::Both.parsed_namespace(), ParseState::Both);
    assert_eq!(ParseState::Both.parsed_dependency(), ParseState::Both);
}

#[test]
fn key_set_is_sorted_and_deduplicated() {
    let mut s = KeySet::new();
    s.insert("b".to_string());
    s.insert("a".to_string());
    s.insert("b".to_string());
    s.insert("ab".to_string());
    assert_eq!(s.to_vec(), strings(&["a", "ab", "b"]));
    assert_eq!(s.len(), 3);
    assert!(s.contains("ab"));
    assert!(!s.contains("c"));
    let mut t = KeySet::new();
    t.insert("c".to_string());
    t.insert("a".to_string());
    s.union_with(&t);
    assert_eq!(s.to_vec(), strings(&["a", "ab", "b", "c"]));
}

#[test]
fn category_with_and_without_colon() {
    let t = vec![word("modules"), punct(':'), lit("X")];
    assert!(matches!(parse_category(&t, 0), Ok((Category::Namespace, 2))));
    let t = vec![word("dependencies"), lit("X")];
    assert!(matches!(parse_category(&t, 0), Ok((Category::Dependency, 1))));
    let t = vec![word("dependencies"), punct('.')];
    assert!(matches!(parse_category(&t, 0), Ok((Category::Dependency, 1))));
}

#[test]
fn category_errors() {
    assert_eq!(parse_category(&vec![], 0).err(), Some(ImportError::UnexpectedEnd));
    assert_eq!(
        parse_category(&vec![word("module")], 0).err(),
        Some(ImportError::UnknownSection("module".to_string()))
    );
    assert_eq!(parse_category(&vec![punct(':')], 0).err(), Some(ImportError::UnexpectedToken(punct(':'))));
    assert_eq!(parse_category(&vec![lit("modules")], 0).err(), Some(ImportError::UnexpectedToken(lit("modules"))));
}

#[test]
fn namespace_section_stops_at_first_non_literal() {
    let t = vec![lit("B_b"), lit("A"), lit("bb"), word("dependencies"), lit("C")];
    let (keys, end) = parse_namespace(&t, 0);
    assert_eq!(end, 3);
    assert_eq!(keys.to_vec(), strings(&["a", "bb"]));
}

#[test]
fn dependency_items_in_order() {
    let t = vec![
        lit("x.winmd"),
        word("os"),
        word("nuget"),
        punct(':'),
        word("A"),
        punct('.'),
        word("B"),
        Token::Literal("\"\"y\"\"".to_string()),
        word("modules"),
    ];
    let mut found = Vec::new();
    let (end, failure) = parse_dependencies(&t, 0, &env(), &mut found);
    assert_eq!(end, 8);
    assert_eq!(failure, None);
    assert_eq!(
        found,
        vec![
            strings(&["x.winmd"]),
            strings(&["C:\\Windows", "System32", "winmetadata"]),
            strings(&["/home/me", ".nuget", "A", "B"]),
            strings(&["y"]),
        ]
    );
}

#[test]
fn os_item_on_narrow_target() {
    let e = Environment::for_target(Some("C:\\Win".to_string()), "h".to_string(), false);
    let mut found = Vec::new();
    let (end, failure) = parse_dependencies(&vec![word("os")], 0, &e, &mut found);
    assert_eq!((end, failure), (1, None));
    assert_eq!(found, vec![strings(&["C:\\Win", "SysNative", "winmetadata"])]);
}

#[test]
fn os_item_without_system_root() {
    let e = Environment::for_target(None, "h".to_string(), true);
    let mut found = Vec::new();
    let (_, failure) = parse_dependencies(&vec![lit("a.winmd"), word("os")], 0, &e, &mut found);
    assert_eq!(failure, Some(ImportError::MissingSystemRoot));
    assert_eq!(found, vec![strings(&["a.winmd"])]);
}

#[test]
fn nuget_errors() {
    let mut found = Vec::new();
    let (_, f) = parse_dependencies(&vec![word("nuget"), word("A")], 0, &env(), &mut found);
    assert_eq!(f, Some(ImportError::NugetWithoutColon));
    let (_, f) = parse_dependencies(&vec![word("nuget")], 0, &env(), &mut found);
    assert_eq!(f, Some(ImportError::NugetWithoutColon));
    let (_, f) = parse_dependencies(&vec![word("nuget"), punct(':')], 0, &env(), &mut found);
    assert_eq!(f, Some(ImportError::NugetEnd));
    let (_, f) = parse_dependencies(&vec![word("nuget"), punct(':'), word("A"), punct('.')], 0, &env(), &mut found);
    assert_eq!(f, Some(ImportError::NugetEnd));
    let (_, f) = parse_dependencies(&vec![word("nuget"), punct(':'), lit("A")], 0, &env(), &mut found);
    assert_eq!(f, Some(ImportError::NugetSegment(lit("A"))));
    assert!(found.is_empty());
}

#[test]
fn directory_expansion_keeps_direct_descriptor_files_only() {
    let p = dir(
        "m",
        vec![
            entry("m/b.winmd", "b.winmd", true),
            entry("m/a.winmd", "a.winmd", true),
            entry("m/sub.winmd", "sub.winmd", false),
            entry("m/c.txt", "c.txt", true),
            entry("m/.winmd", ".winmd", true),
            entry("m/d.WINMD", "d.WINMD", true),
            entry("m/e.winmd.bak", "e.winmd.bak", true),
        ],
    );
    let s = expand_paths(&p).unwrap();
    assert_eq!(s.to_vec(), strings(&["m/a.winmd", "m/b.winmd"]));
}

#[test]
fn expansion_of_files_and_failures() {
    assert_eq!(expand_paths(&file("x/a.winmd", "a.winmd")).unwrap().to_vec(), strings(&["x/a.winmd"]));
    assert_eq!(
        expand_paths(&file("x/a.txt", "a.txt")).err(),
        Some(ImportError::NotFileOrDirectory("x/a.txt".to_string()))
    );
    assert_eq!(
        expand_paths(&Probe { path: "nope".to_string(), kind: PathKind::Other }).err(),
        Some(ImportError::NotFileOrDirectory("nope".to_string()))
    );
    assert_eq!(
        expand_paths(&Probe { path: "d".to_string(), kind: PathKind::Unreadable("denied".to_string()) }).err(),
        Some(ImportError::UnreadableDirectory("d".to_string(), "denied".to_string()))
    );
}

#[test]
fn scenario_literal_file_and_directory() {
    let t = vec![
        word("dependencies"),
        punct(':'),
        Token::Literal("\"C:\\meta\\a.winmd\"".to_string()),
        Token::Literal("\"C:\\meta\"".to_string()),
        word("modules"),
        punct(':'),
        lit("Windows.Foundation"),
    ];
    let d = parse_import_stream(&t, &env());
    assert_eq!(d.candidates, vec![strings(&["C:\\meta\\a.winmd"]), strings(&["C:\\meta"])]);
    let probes = vec![
        file("C:\\meta\\a.winmd", "a.winmd"),
        dir(
            "C:\\meta",
            vec![
                entry("C:\\meta\\a.winmd", "a.winmd", true),
                entry("C:\\meta\\b.winmd", "b.winmd", true),
                entry("C:\\meta\\notes.txt", "notes.txt", true),
            ],
        ),
    ];
    let im = resolve_imports(d, &probes).ok().unwrap();
    assert_eq!(im.dependencies.to_vec(), strings(&["C:\\meta\\a.winmd", "C:\\meta\\b.winmd"]));
    assert_eq!(im.namespaces.to_vec(), strings(&["windows.foundation"]));
}

#[test]
fn scenario_underscored_module() {
    let t = vec![word("modules"), punct(':'), lit("Foo_Bar"), word("dependencies")];
    assert_eq!(compile(t, vec![]).unwrap(), (vec![], strings(&["foobar"])));
}

#[test]
fn scenario_nuget_package_path() {
    let t = vec![
        word("dependencies"),
        punct(':'),
        word("nuget"),
        punct(':'),
        word("Microsoft"),
        punct('.'),
        word("Windows"),
        punct('.'),
        word("SDK"),
        punct('.'),
        word("Contracts"),
        word("modules"),
    ];
    let d = parse_import_stream(&t, &env());
    assert_eq!(
        d.candidates,
        vec![strings(&["/home/me", ".nuget", "Microsoft", "Windows", "SDK", "Contracts"])]
    );
    assert_eq!(d.failure, None);
}

#[test]
fn scenario_stray_word_without_modules() {
    let t = vec![word("dependencies"), punct(':'), lit("x.winmd"), word("extra_token")];
    let d = parse_import_stream(&t, &env());
    assert_eq!(d.failure, Some(ImportError::UnknownSection("extra_token".to_string())));
    let r = resolve_imports(d, &vec![file("x.winmd", "x.winmd")]);
    assert_eq!(r.err(), Some(ImportError::UnknownSection("extra_token".to_string())));
}

#[test]
fn earlier_path_failure_comes_before_grammar_failure() {
    let t = vec![word("dependencies"), lit("x.txt"), word("extra_token")];
    let d = parse_import_stream(&t, &env());
    let r = resolve_imports(d, &vec![file("x.txt", "x.txt")]);
    assert_eq!(r.err(), Some(ImportError::NotFileOrDirectory("x.txt".to_string())));
}

#[test]
fn scenario_directory_without_descriptors() {
    let t = vec![word("dependencies"), lit("d"), word("modules"), lit("A")];
    let probes = vec![dir("d", vec![entry("d/a.txt", "a.txt", true), entry("d/b", "b", true)])];
    assert_eq!(compile(t, probes).unwrap(), (vec![], strings(&["a"])));
}

#[test]
fn section_order_does_not_matter() {
    let a = vec![word("modules"), punct(':'), lit("N_s"), lit("M"), word("dependencies"), punct(':'), lit("x.winmd"), word("os")];
    let b = vec![word("dependencies"), punct(':'), lit("x.winmd"), word("os"), word("modules"), punct(':'), lit("N_s"), lit("M")];
    let probes = || vec![file("x.winmd", "x.winmd"), dir("w", vec![entry("w/y.winmd", "y.winmd", true)])];
    let da = parse_import_stream(&a, &env());
    let db = parse_import_stream(&b, &env());
    assert_eq!(da.candidates, db.candidates);
    let ra = resolve_imports(da, &probes()).ok().unwrap();
    let rb = resolve_imports(db, &probes()).ok().unwrap();
    assert_eq!(ra.dependencies.to_vec(), rb.dependencies.to_vec());
    assert_eq!(ra.namespaces.to_vec(), rb.namespaces.to_vec());
    assert_eq!(ra.namespaces.to_vec(), strings(&["m", "ns"]));
}

#[test]
fn repeated_literals_collapse() {
    let t = vec![word("dependencies"), punct(':'), lit("x.winmd"), lit("x.winmd"), word("modules"), punct(':'), lit("A"), lit("A")];
    let probes = vec![file("x.winmd", "x.winmd"), file("x.winmd", "x.winmd")];
    assert_eq!(compile(t, probes).unwrap(), (strings(&["x.winmd"]), strings(&["a"])));
}

#[test]
fn repeated_sections_union() {
    let t = vec![
        word("modules"), lit("B"), word("modules"), lit("A"), word("dependencies"),
    ];
    assert_eq!(compile(t, vec![]).unwrap(), (vec![], strings(&["a", "b"])));
}

#[test]
fn trailing_input_after_both_sections() {
    let t = vec![word("modules"), word("dependencies"), punct(',')];
    let d: Directive = parse_import_stream(&t, &env());
    assert_eq!(d.failure, Some(ImportError::TrailingInput(punct(','))));
}

#[test]
fn empty_directive_ends_unexpectedly() {
    assert_eq!(compile(vec![], vec![]).err(), Some(ImportError::UnexpectedEnd));
    assert_eq!(compile(vec![word("modules")], vec![]).err(), Some(ImportError::UnexpectedEnd));
}

use arithma_core::constants::{
    ascii_aliases, default_true, resolve_alias, strip_jsonc_header, ArithmaConstantConfig,
    ArithmaConstantEntry, ArithmaSymbolTable,
};

fn entry(symbol: &str, enabled: bool, cached: bool, expression: bool, value: f64)
    -> ArithmaConstantEntry<f64> {
    ArithmaConstantEntry {
        symbol: symbol.to_string(),
        enabled,
        has_cached_value: cached,
        has_expression: expression,
        value,
    }
}

#[test]
fn alias_table_is_sorted_and_has_no_duplicate_aliases() {
    let table = ascii_aliases();
    for pair in table.windows(2) {
        assert!(
            pair[0].0 < pair[1].0,
            "alias table must stay sorted and unique: {:?} then {:?}",
            pair[0].0,
            pair[1].0
        );
    }
}

#[test]
fn an_unknown_alias_resolves_to_nothing() {
    assert!(resolve_alias("definitely_not_a_constant").is_none());
    let table: ArithmaSymbolTable<f64> = ArithmaSymbolTable::new();
    assert!(table.lookup_symbol("definitely_not_a_constant").is_none());
}

#[test]
fn the_common_ascii_spellings_all_resolve() {
    for name in ["pi", "tau", "phi", "gamma", "sqrt2", "sqrt3", "sqrt5", "zeta3"] {
        assert!(resolve_alias(name).is_some(), "{name} should have a glyph");
    }
    assert_eq!(resolve_alias("pi"), Some("\u{3c0}"));
    assert_eq!(resolve_alias("golden_ratio"), Some("\u{3c6}"));
    assert_eq!(resolve_alias("sqrtPi"), Some("\u{221a}\u{3c0}"));
    assert_eq!(resolve_alias("\u{3c0}"), None, "a glyph is not an alias of itself");
}

#[test]
fn ascii_aliases_resolve_to_the_same_value_as_the_glyph() {
    let mut table = ArithmaSymbolTable::new();
    table.reregister_symbol("\u{3c0}".to_string(), std::f64::consts::PI);
    let via_alias = table.lookup_symbol("pi").copied();
    let via_glyph = table.lookup_symbol("\u{3c0}").copied();
    assert_eq!(via_alias, via_glyph);
    assert_eq!(via_alias, Some(std::f64::consts::PI));
}

#[test]
fn an_exact_match_beats_an_alias() {
    let mut table = ArithmaSymbolTable::new();
    table.reregister_symbol("\u{3c0}".to_string(), std::f64::consts::PI);
    table.reregister_symbol("pi".to_string(), 42.0);
    assert_eq!(table.lookup_symbol("pi").copied(), Some(42.0));
    assert_eq!(table.lookup_symbol("\u{3c0}").copied(), Some(std::f64::consts::PI));
}

#[test]
fn entry_without_value_or_expression_is_rejected() {
    let mut table = ArithmaSymbolTable::new();
    let r = table.load_entries(vec![entry("zz", true, false, false, 0.0)]);
    assert_eq!(r, Err("constant 'zz' has neither cached_value nor expression".to_string()));
    assert_eq!(table.registered_count(), 0);
}

#[test]
fn an_empty_symbol_is_rejected_and_earlier_entries_stay() {
    let mut table = ArithmaSymbolTable::new();
    let r = table.load_entries(vec![
        entry("e", true, true, false, std::f64::consts::E),
        entry("", true, true, false, 1.0),
        entry("c", true, true, false, 299_792_458.0),
    ]);
    assert_eq!(r, Err("constant entry has an empty symbol".to_string()));
    assert_eq!(table.registered_count(), 1);
    assert_eq!(table.lookup_symbol("e").copied(), Some(std::f64::consts::E));
    assert!(table.lookup_symbol("c").is_none());
}

#[test]
fn disabled_entries_are_skipped_before_any_check() {
    let mut table = ArithmaSymbolTable::new();
    let r = table.load_entries(vec![
        entry("", false, false, false, 0.0),
        entry("h", true, false, true, 6.626_070_15e-34),
        entry("off", false, true, false, 1.0),
    ]);
    assert_eq!(r, Ok(1));
    assert!(table.lookup_symbol("off").is_none());
    assert!(table.lookup_symbol("h").is_some());
}

#[test]
fn initialize_defaults_is_idempotent() {
    let defs = || {
        vec![
            entry("\u{3c0}", true, true, false, std::f64::consts::PI),
            entry("e", true, true, false, std::f64::consts::E),
            entry("\u{3c6}", true, true, true, 1.618_033_988_749_895),
        ]
    };
    let mut table = ArithmaSymbolTable::new();
    let first = table.load_entries(defs()).expect("first load");
    let second = table.load_entries(defs()).expect("second load");
    assert_eq!(first, second, "reloading must not error or change the count");
    assert_eq!(table.registered_count(), 3);
    assert_eq!(table.lookup_symbol("phi").copied(), Some(1.618_033_988_749_895));
}

#[test]
fn register_refuses_a_symbol_that_is_there() {
    let mut table = ArithmaSymbolTable::new();
    assert_eq!(table.register_symbol("x".to_string(), 1.0), Ok(()));
    assert_eq!(
        table.register_symbol("x".to_string(), 2.0),
        Err("Symbol 'x' is already registered".to_string())
    );
    assert_eq!(table.lookup_symbol("x").copied(), Some(1.0));
    table.reregister_symbol("x".to_string(), 3.0);
    assert_eq!(table.lookup_symbol("x").copied(), Some(3.0));
    assert_eq!(table.registered_count(), 1);
}

#[test]
fn an_alias_finds_nothing_when_its_glyph_is_not_registered() {
    let mut table = ArithmaSymbolTable::new();
    table.reregister_symbol("e".to_string(), std::f64::consts::E);
    assert!(table.lookup_symbol("tau").is_none());
}

#[test]
fn the_banner_is_stripped_and_the_json_kept() {
    let text = "// Copyright banner\n//   second line\n\n   // indented comment\n[\n  {\"symbol\": \"e\"}\n]";
    assert_eq!(strip_jsonc_header(text), "[\n  {\"symbol\": \"e\"}\n]\n");
}

#[test]
fn comments_after_the_banner_stay() {
    let text = "//a\n{\r\n// not a banner any more\r\n}\r\n";
    assert_eq!(strip_jsonc_header(text), "{\n// not a banner any more\n}\n");
}

#[test]
fn a_document_of_banner_only_strips_to_nothing() {
    assert_eq!(strip_jsonc_header("// only\n\n  \t\n// comments"), "");
    assert_eq!(strip_jsonc_header(""), "");
    assert_eq!(strip_jsonc_header("\u{3000}// ideographic space counts as blank\nx"), "x\n");
}

#[test]
fn a_lone_carriage_return_stays_in_the_line() {
    assert_eq!(strip_jsonc_header("a\rb\n"), "a\rb\n");
    assert_eq!(strip_jsonc_header("/ single slash\n"), "/ single slash\n");
}

#[test]
fn constants_are_on_unless_said_otherwise() {
    assert!(default_true());
    let cfg = ArithmaConstantConfig::default();
    assert!(cfg.enabled_constants.is_empty());
    assert!(!cfg.enable_all_by_default);
}

#[test]
fn lookup_unknown_returns_none() {
    let table: ArithmaSymbolTable<f64> = ArithmaSymbolTable::new();
    assert!(table.lookup_symbol("__definitely_not_registered__").is_none());
}

use starwm::config::Config;
use starwm::key::{build_symbol_table, Key, SymEntry, SymTable, META, META_SHIFT, NONE, SHIFT};

fn table() -> SymTable {
    SymTable {
        entries: vec![
            SymEntry { keycode: 10, syms: vec![String::from("1"), String::from("exclam")] },
            SymEntry { keycode: 11, syms: vec![String::from("2"), String::from("at")] },
            SymEntry { keycode: 87, syms: vec![String::from("1")] },
            SymEntry { keycode: 40, syms: vec![] },
        ],
    }
}

#[test]
fn modifier_masks_match_the_protocol() {
    assert_eq!(NONE, 0);
    assert_eq!(SHIFT, 1);
    assert_eq!(META, 64);
    assert_eq!(META_SHIFT, 65);
}

#[test]
fn key_equality_is_exact_over_symbol_and_modifiers() {
    let a = Key::new(META, "q");
    assert!(a.same(&Key::new(META, "q")));
    assert!(!a.same(&Key::new(META_SHIFT, "q")));
    assert!(!a.same(&Key::new(META, "w")));
}

#[test]
fn translate_yields_first_candidate_symbol() {
    let t = table();
    assert_eq!(t.translate(10), Some(String::from("1")));
    assert_eq!(t.translate(11), Some(String::from("2")));
}

#[test]
fn translate_of_unmapped_keycode_yields_nothing() {
    let t = table();
    assert_eq!(t.translate(99), None);
    assert_eq!(t.translate(40), None);
}

#[test]
fn xcode_collects_every_keycode_producing_the_symbol() {
    let t = table();
    let key = Key::new(META, "1");
    assert_eq!(key.xcode(&t), vec![10, 87]);
    let other = Key::new(META, "at");
    assert_eq!(other.xcode(&t), vec![11]);
    let absent = Key::new(META, "zzz");
    assert_eq!(absent.xcode(&t), Vec::<u8>::new());
}

#[test]
fn symbol_table_is_built_rowwise_skipping_zero_keysyms() {
    let keysyms: Vec<u32> = vec![49, 0, 50, 51, 0, 0];
    let names: Vec<String> = vec![
        String::from("1"),
        String::from("unused"),
        String::from("2"),
        String::from("3"),
        String::from("unused"),
        String::from("unused"),
    ];
    let t = build_symbol_table(8, 2, &keysyms, &names);
    assert_eq!(t.entries.len(), 3);
    assert_eq!(t.entries[0].keycode, 8);
    assert_eq!(t.entries[0].syms, vec![String::from("1")]);
    assert_eq!(t.entries[1].keycode, 9);
    assert_eq!(t.entries[1].syms, vec![String::from("2"), String::from("3")]);
    assert_eq!(t.entries[2].keycode, 10);
    assert!(t.entries[2].syms.is_empty());
    assert_eq!(t.translate(9), Some(String::from("2")));
}

#[test]
fn symbol_table_ignores_a_trailing_partial_row() {
    let keysyms: Vec<u32> = vec![49, 50, 51];
    let names: Vec<String> = vec![String::from("1"), String::from("2"), String::from("3")];
    let t = build_symbol_table(8, 2, &keysyms, &names);
    assert_eq!(t.entries.len(), 1);
    assert_eq!(t.entries[0].syms, vec![String::from("1"), String::from("2")]);
}

#[test]
fn registry_lookup_finds_the_bound_handler() {
    let mut conf = Config::new();
    conf.bind_handler(Key::new(META, "q"), 3);
    conf.bind_handler(Key::new(META_SHIFT, "q"), 4);
    assert_eq!(conf.key(&Key::new(META, "q")), Some(3));
    assert_eq!(conf.key(&Key::new(META_SHIFT, "q")), Some(4));
    assert_eq!(conf.key(&Key::new(META, "w")), None);
}

#[test]
fn rebinding_a_key_overwrites_the_old_handler() {
    let mut conf = Config::new();
    conf.bind_handler(Key::new(META, "q"), 3);
    conf.bind_handler(Key::new(META, "space"), 8);
    conf.bind_handler(Key::new(META, "q"), 5);
    assert_eq!(conf.key(&Key::new(META, "q")), Some(5));
    assert_eq!(conf.key(&Key::new(META, "space")), Some(8));
    assert_eq!(conf.key_bindings.len(), 2);
}

#[test]
fn fresh_config_has_default_border_and_no_bindings() {
    let conf = Config::new();
    assert!(conf.key_bindings.is_empty());
    assert_eq!(conf.border.size, 2);
    assert_eq!(conf.border.colour, 0x383838);
}

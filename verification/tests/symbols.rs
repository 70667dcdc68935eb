use binlang::symbols::Symbols;

#[test]
fn dedup() {
    let a = "foo";
    let b = "foo";
    let mut symbols = Symbols::new();
    let a_id = symbols.insert(a);
    let b_id = symbols.insert(b);
    assert_eq!(a_id, b_id);
    assert_eq!(symbols.len(), 1);
}

#[test]
fn find() {
    let a = "foo";
    let mut symbols = Symbols::new();
    let a_id = symbols.insert(a);
    assert_eq!(symbols.find(a), Some(a_id));
}

#[test]
fn get() {
    let a = "foo";
    let mut symbols = Symbols::new();
    let a_id = symbols.insert(a);
    assert_eq!(symbols.get(a_id), Some(a));
}

#[test]
fn dedup_stress() {
    let mut symbols = Symbols::new();
    let id = symbols.insert("hello world");
    (0..10_000 - 1).for_each(|_| {
        symbols.insert("hello world");
    });
    assert_eq!(symbols.len(), 1);
    assert_eq!(symbols.find("hello world"), Some(id));
}

#[test]
fn find_before_insert_is_none() {
    let symbols = Symbols::new();
    assert_eq!(symbols.find("anything"), None);
    assert_eq!(symbols.len(), 0);
}

#[test]
fn distinct_strings_never_collide() {
    let mut symbols = Symbols::new();
    let a = symbols.insert("alpha");
    let b = symbols.insert("beta");
    let c = symbols.insert("gamma");
    assert_ne!(a, b);
    assert_ne!(a, c);
    assert_ne!(b, c);
    assert_eq!(symbols.get(a), Some("alpha"));
    assert_eq!(symbols.get(b), Some("beta"));
    assert_eq!(symbols.get(c), Some("gamma"));
    assert_eq!(symbols.len(), 3);
}

#[test]
fn insert_twice_same_id_many() {
    let mut symbols = Symbols::new();
    let words = ["one", "two", "three", "two", "one"];
    let ids: Vec<_> = words.iter().map(|w| symbols.insert(w)).collect();
    assert_eq!(ids[0], ids[4]);
    assert_eq!(ids[1], ids[3]);
    assert_eq!(symbols.len(), 3);
}

#[test]
fn get_foreign_id_is_none() {
    let mut symbols = Symbols::new();
    symbols.insert("only");
    assert_eq!(symbols.get(binlang::symbols::SymbolId(5)), None);
}

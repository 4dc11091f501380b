use lib::symbol_table::SymbolTable;

#[test]
fn predefined_symbols() {
    let t = SymbolTable::new();
    assert_eq!(t.size(), 23);
    assert!(t.contains("R0"));
    assert!(t.contains("SCREEN"));
    for i in 0..16u16 {
        assert_eq!(t.get_address(&format!("R{}", i)), Some(i));
    }
    assert_eq!(t.get_address("SP"), Some(0));
    assert_eq!(t.get_address("LCL"), Some(1));
    assert_eq!(t.get_address("ARG"), Some(2));
    assert_eq!(t.get_address("THIS"), Some(3));
    assert_eq!(t.get_address("THAT"), Some(4));
    assert_eq!(t.get_address("SCREEN"), Some(16384));
    assert_eq!(t.get_address("KBD"), Some(24576));
    assert_eq!(t.get_address("R16"), None);
    assert!(!t.contains("r0"));
}

#[test]
fn add_then_lookup() {
    let mut t = SymbolTable::new();
    t.add_entry("LOOP".to_string(), 10);
    t.add_entry("sum".to_string(), 16);
    assert!(t.contains("LOOP"));
    assert_eq!(t.get_address("LOOP"), Some(10));
    assert_eq!(t.get_address("sum"), Some(16));
    assert_eq!(t.size(), 25);
    t.add_entry("LOOP".to_string(), 12);
    assert_eq!(t.get_address("LOOP"), Some(12));
    assert_eq!(t.size(), 25);
    t.add_entry("R0".to_string(), 7);
    assert_eq!(t.get_address("R0"), Some(7));
    assert_eq!(t.get_address("SP"), Some(0));
    assert_eq!(t.size(), 25);
}

#[test]
fn many_symbols() {
    let mut t = SymbolTable::new();
    for i in (0..500u16).rev() {
        t.add_entry(format!("v{}", i), i);
    }
    for i in 0..500u16 {
        t.add_entry(format!("w{}", i), i + 1000);
    }
    assert_eq!(t.size(), 1023);
    for i in 0..500u16 {
        assert_eq!(t.get_address(&format!("v{}", i)), Some(i));
        assert_eq!(t.get_address(&format!("w{}", i)), Some(i + 1000));
    }
    assert_eq!(t.get_address("v500"), None);
}

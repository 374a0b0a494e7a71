use quasar::alum::ast::Binding;
use quasar::alum::symbols::SymbolTable;

#[test]
fn table_gives_back_the_last_binding() {
    let mut t = SymbolTable::new();
    let x = String::from("x");
    assert!(t.get(&x).is_none());
    t.insert(x.clone(), Binding::global(x.clone()));
    let b = t.get(&x).unwrap();
    assert_eq!(b.depth, None);
    assert_eq!(b.function_depth, 0);
    t.insert(x.clone(), Binding::local(x.clone(), 3, 2));
    let b = t.get(&x).unwrap();
    assert_eq!(b.depth, Some(3));
    assert_eq!(b.function_depth, 2);
    assert_eq!(b.name, "x");
    assert!(t.get(&String::from("y")).is_none());
}

#[test]
fn table_keeps_other_names() {
    let mut t = SymbolTable::new();
    t.insert(String::from("a"), Binding::local(String::from("a"), 1, 1));
    t.insert(String::from("b"), Binding::global(String::from("b")));
    assert_eq!(t.get(&String::from("a")).unwrap().depth, Some(1));
    assert_eq!(t.get(&String::from("b")).unwrap().depth, None);
}

use minecrust::atom::{Atom2, Interner};

#[test]
fn test_atom() {
    let mut interner = Interner::new();
    let foo = Atom2::new(&mut interner, "foo");
    let bar = Atom2::new(&mut interner, "bar");
    let bar2 = Atom2::new(&mut interner, "bar");
    assert!(foo != bar);
    assert!(foo.as_str() != "bar");
    assert!(bar == bar2);
    assert!(bar.as_str() == "bar");
}

#[test]
fn interning_gives_one_identity_per_text() {
    let mut interner = Interner::new();
    assert_eq!(interner.len(), 1);
    let a = interner.intern("core::grass");
    let b = interner.intern("core::stone");
    let c = interner.intern("core::grass");
    assert!(a == c);
    assert!(a != b);
    assert_eq!(interner.len(), 3);
    let air = interner.intern("core::air");
    assert!(air.is_air());
    assert!(air == Atom2::air());
    assert!(!a.is_air());
}

#[test]
fn interner_handles_many_texts() {
    let mut interner = Interner::new();
    let mut atoms = Vec::new();
    for i in 0..500 {
        atoms.push(interner.intern(&format!("block::{}", i)));
    }
    for i in 0..500 {
        let again = interner.intern(&format!("block::{}", i));
        assert!(again == atoms[i]);
        assert_eq!(again.as_str(), format!("block::{}", i));
    }
    assert_eq!(interner.len(), 501);
}

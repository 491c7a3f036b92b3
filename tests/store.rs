use polygraph::graphs::{Graphs, Value};
use polygraph::keys::{Key, KeySet};
use polygraph::schema::{analyze, backref_name, table_name, EntityDecl, FieldDecl};
use polygraph::syntax::{PathArguments, PathSegment, TypeExpr};

fn schema_graphs() -> Graphs {
    let string = TypeExpr::Path(vec![PathSegment { ident: "String".to_string(), args: PathArguments::Bare }]);
    let u64_ty = TypeExpr::Path(vec![PathSegment { ident: "u64".to_string(), args: PathArguments::Bare }]);
    let decls = vec![
        EntityDecl {
            name: "Test".to_string(),
            generic_params: 0,
            fields: vec![FieldDecl { name: "name".to_string(), ty: string }],
        },
        EntityDecl {
            name: "Foo".to_string(),
            generic_params: 0,
            fields: vec![FieldDecl { name: "0".to_string(), ty: u64_ty }],
        },
    ];
    Graphs::new(analyze(&decls).ok().unwrap())
}

const FOO: usize = 1;

fn int_of(db: &Graphs, k: Key) -> u64 {
    match &k.d(db).values[0] {
        Value::Int(n) => *n,
        _ => panic!("not an integer field"),
    }
}

#[test]
fn insert_and_lookup_plain_rows() {
    let mut db = schema_graphs();
    let fortytwo = db.insert(FOO, vec![Value::Int(42)]);
    assert_eq!(int_of(&db, fortytwo), 42);
    db.insert(FOO, vec![Value::Int(50)]);
    let fifty = db.lookup(FOO, &vec![Value::Int(50)]).unwrap();
    let fortytwo = db.lookup(FOO, &vec![Value::Int(42)]).unwrap();
    assert_eq!(int_of(&db, fifty) - int_of(&db, fortytwo), 8);
}

#[test]
fn lookup_of_missing_value_is_none() {
    let mut db = schema_graphs();
    assert_eq!(db.lookup(FOO, &vec![Value::Int(1)]), None);
    db.insert(FOO, vec![Value::Int(2)]);
    assert_eq!(db.lookup(FOO, &vec![Value::Int(1)]), None);
    assert_eq!(db.lookup(0, &vec![Value::Text("x".to_string())]), None);
}

#[test]
fn duplicate_insert_keeps_both_rows() {
    let mut db = schema_graphs();
    let k1 = db.insert(FOO, vec![Value::Int(42)]);
    let k2 = db.insert(FOO, vec![Value::Int(42)]);
    assert_ne!(k1, k2);
    assert_eq!(db.lookup(FOO, &vec![Value::Int(42)]), Some(k2));
    assert_eq!(int_of(&db, k1), 42);
}

#[test]
fn lookup_matches_text_rows() {
    let mut db = schema_graphs();
    let a = db.insert(0, vec![Value::Text("alpha".to_string())]);
    let b = db.insert(0, vec![Value::Text("beta".to_string())]);
    assert_eq!(db.lookup(0, &vec![Value::Text("alpha".to_string())]), Some(a));
    assert_eq!(db.lookup(0, &vec![Value::Text("beta".to_string())]), Some(b));
    assert_eq!(db.lookup(0, &vec![Value::Text("gamma".to_string())]), None);
}

#[test]
fn new_store_is_empty() {
    let db = schema_graphs();
    assert_eq!(db.len(0), 0);
    assert_eq!(db.len(FOO), 0);
    assert_eq!(db.schema().entities().len(), 2);
}

#[test]
fn key_set_insert_and_contains() {
    let mut s = KeySet::new(3);
    assert!(!s.contains(Key::new(3, 7)));
    assert!(s.insert(Key::new(3, 7)));
    assert!(!s.insert(Key::new(3, 7)));
    assert!(s.insert(Key::new(3, 1000)));
    assert!(s.contains(Key::new(3, 7)));
    assert!(s.contains(Key::new(3, 1000)));
    assert!(!s.contains(Key::new(2, 7)));
    assert_eq!(s.table(), 3);
    let mut members = s.iter();
    members.sort_by_key(|k| k.index);
    assert_eq!(members, vec![Key::new(3, 7), Key::new(3, 1000)]);
}

#[test]
fn generated_names_are_snake_case() {
    assert_eq!(backref_name(&"lastName".to_string()), "last_name_of");
    assert_eq!(backref_name(&"father".to_string()), "father_of");
    assert_eq!(table_name(&"FooBar".to_string()), "foo_bar");
    assert_eq!(table_name(&"Surname".to_string()), "surname");
}

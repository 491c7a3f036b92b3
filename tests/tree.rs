use polygraph::graphs::{Graphs, Value};
use polygraph::keys::{Key, KeySet};
use polygraph::refs::Ref;
use polygraph::schema::{analyze, EntityDecl, FieldDecl};
use polygraph::syntax::{GenericArgument, PathArguments, PathSegment, TypeExpr};

fn plain(name: &str) -> TypeExpr {
    TypeExpr::Path(vec![PathSegment { ident: name.to_string(), args: PathArguments::Bare }])
}

fn generic(name: &str, inner: TypeExpr) -> TypeExpr {
    TypeExpr::Path(vec![PathSegment {
        ident: name.to_string(),
        args: PathArguments::AngleBracketed(vec![GenericArgument::Type(inner)]),
    }])
}

fn field(name: &str, ty: TypeExpr) -> FieldDecl {
    FieldDecl { name: name.to_string(), ty }
}

fn entity(name: &str, fields: Vec<FieldDecl>) -> EntityDecl {
    EntityDecl { name: name.to_string(), generic_params: 0, fields }
}

const SURNAME: usize = 0;
const PERSON: usize = 1;
const DOG: usize = 2;

fn tree() -> Graphs {
    let decls = vec![
        entity("Surname", vec![field("0", plain("String"))]),
        entity(
            "Person",
            vec![
                field("last_name", generic("Key", plain("Surname"))),
                field("father", generic("Option", generic("Key", plain("Person")))),
                field("mother", generic("Option", generic("Key", plain("Person")))),
                field("name", plain("String")),
                field("dog", generic("KeySet", plain("Dog"))),
            ],
        ),
        entity("Dog", vec![field("name", plain("String"))]),
    ];
    Graphs::new(analyze(&decls).ok().unwrap())
}

fn text(s: &str) -> Value {
    Value::Text(s.to_string())
}

fn text_of(db: &Graphs, k: Key, field: usize) -> String {
    match &k.d(db).values[field] {
        Value::Text(s) => s.clone(),
        _ => panic!("not a text field"),
    }
}

fn dogs(keys: &[Key]) -> Value {
    let mut s = KeySet::new(DOG);
    for k in keys {
        s.insert(*k);
    }
    Value::RefSet(s)
}

fn person(db: &mut Graphs, last: Key, father: Option<Key>, mother: Option<Key>, name: &str, d: &[Key]) -> Key {
    db.insert(PERSON, vec![Value::Ref(last), Value::OptRef(father), Value::OptRef(mother), text(name), dogs(d)])
}

#[test]
fn test() {
    let mut db = tree();

    let mickey = db.insert(DOG, vec![text("Mickey")]);
    let minnie = db.insert(DOG, vec![text("Minnie")]);
    let my_dogs = [mickey, minnie];

    let roundy = db.insert(SURNAME, vec![text("Roundy")]);
    let maiden_name = db.insert(SURNAME, vec![text("Maiden")]);
    let me = person(&mut db, roundy, None, None, "David", &my_dogs);
    let wife = person(&mut db, maiden_name, None, None, "Monica", &my_dogs);
    let kid = person(&mut db, roundy, Some(me), Some(wife), "Kid", &my_dogs);

    let me_last = Ref::new(&db, me).father(0).unwrap().key();
    let wife_last = Ref::new(&db, wife).father(0).unwrap().key();
    assert_eq!(text_of(&db, me_last, 0), "Roundy");
    assert_eq!(text_of(&db, wife_last, 0), "Maiden");

    assert!(db.backrefs_of(roundy, "last_name_of").unwrap().contains(me));
    assert!(db.backrefs_of(roundy, "last_name_of").unwrap().contains(kid));
    assert!(db.backrefs_of(me, "father_of").unwrap().contains(kid));
    assert!(!db.backrefs_of(me, "father_of").unwrap().contains(wife));
    assert!(db.backrefs_of(wife, "mother_of").unwrap().contains(kid));

    assert!(db.backrefs_of(minnie, "dog_of").unwrap().contains(me));
    assert!(db.backrefs_of(minnie, "dog_of").unwrap().contains(wife));
    assert!(db.backrefs_of(minnie, "dog_of").unwrap().contains(kid));

    assert_eq!(text_of(&db, me_last, 0), "Roundy");
    assert_eq!(text_of(&db, wife_last, 0), "Maiden");

    assert!(db.backrefs_of(roundy, "last_name_of").unwrap().contains(me));
    assert!(db.backrefs_of(roundy, "last_name_of").unwrap().contains(kid));
    assert!(db.backrefs_of(me, "father_of").unwrap().contains(kid));
    assert!(!db.backrefs_of(me, "father_of").unwrap().contains(wife));
}

#[test]
fn it_works() {
    assert_eq!(2 + 2, 4);
}

#[test]
fn lib_it_works() {
    assert_eq!(2 + 2, 4);
}

#[test]
fn family_scenario() {
    let mut db = tree();
    let roundy = db.insert(SURNAME, vec![text("Roundy")]);
    let me = person(&mut db, roundy, None, None, "David", &[]);
    let kid = person(&mut db, roundy, Some(me), None, "Kid", &[]);
    let last_name_of = db.backrefs_of(roundy, "last_name_of").unwrap();
    assert!(last_name_of.contains(me));
    assert!(last_name_of.contains(kid));
    assert!(db.backrefs_of(me, "father_of").unwrap().contains(kid));
}

#[test]
fn keys_stay_stable_across_inserts() {
    let mut db = tree();
    let roundy = db.insert(SURNAME, vec![text("Roundy")]);
    let maiden = db.insert(SURNAME, vec![text("Maiden")]);
    let me = person(&mut db, roundy, None, None, "David", &[]);
    for i in 0..20 {
        person(&mut db, maiden, Some(me), None, &format!("Kid{}", i), &[]);
    }
    assert_eq!(roundy, Key::new(SURNAME, 0));
    assert_eq!(maiden, Key::new(SURNAME, 1));
    assert_eq!(text_of(&db, roundy, 0), "Roundy");
    assert_eq!(text_of(&db, maiden, 0), "Maiden");
    assert_eq!(text_of(&db, me, 3), "David");
    assert_eq!(db.len(PERSON), 21);
    assert_eq!(db.backrefs_of(me, "father_of").unwrap().iter().len(), 20);
}

#[test]
fn shared_optional_target_keeps_both_rows() {
    let mut db = tree();
    let roundy = db.insert(SURNAME, vec![text("Roundy")]);
    let me = person(&mut db, roundy, None, None, "David", &[]);
    let a = person(&mut db, roundy, Some(me), None, "A", &[]);
    let b = person(&mut db, roundy, Some(me), None, "B", &[]);
    let father_of = db.backrefs_of(me, "father_of").unwrap();
    assert!(father_of.contains(a));
    assert!(father_of.contains(b));
    assert_eq!(father_of.iter().len(), 2);
}

#[test]
fn absent_optional_reference_adds_nothing() {
    let mut db = tree();
    let roundy = db.insert(SURNAME, vec![text("Roundy")]);
    let me = person(&mut db, roundy, None, None, "David", &[]);
    let other = person(&mut db, roundy, None, None, "Other", &[]);
    assert_eq!(db.backrefs_of(me, "father_of").unwrap().iter().len(), 0);
    assert_eq!(db.backrefs_of(me, "mother_of").unwrap().iter().len(), 0);
    assert_eq!(db.backrefs_of(other, "father_of").unwrap().iter().len(), 0);
    assert_eq!(db.backrefs_of(roundy, "last_name_of").unwrap().iter().len(), 2);
}

#[test]
fn navigation_through_refs() {
    let mut db = tree();
    let roundy = db.insert(SURNAME, vec![text("Roundy")]);
    let me = person(&mut db, roundy, None, None, "David", &[]);
    let kid = person(&mut db, roundy, Some(me), None, "Kid", &[]);
    let r = Ref::new(&db, kid);
    assert_eq!(r.father(1).unwrap().key(), me);
    assert!(r.father(2).is_none());
    assert!(r.father(3).is_none());
    let me_ref = Ref::new(&db, me);
    assert!(me_ref.father(1).is_none());
    let children = me_ref.father_of(0);
    assert!(!me_ref.father_of(1).contains(kid));
    assert!(children.contains(kid));
    assert_eq!(children.keys(), vec![kid]);
    assert_eq!(me_ref.deref().values.len(), 5);
    assert!(db.backrefs_of(me, "no_such_of").is_none());
}

#[test]
fn accepts_only_rows_that_fit() {
    let mut db = tree();
    let roundy = db.insert(SURNAME, vec![text("Roundy")]);
    let rex = db.insert(DOG, vec![text("Rex")]);
    assert!(db.accepts(SURNAME, &vec![text("Maiden")]));
    assert!(!db.accepts(SURNAME, &vec![]));
    assert!(!db.accepts(SURNAME, &vec![Value::Ref(roundy)]));
    assert!(!db.accepts(7, &vec![text("x")]));
    let row = |last: Value, dog: Value| vec![last, Value::OptRef(None), Value::OptRef(None), text("A"), dog];
    assert!(db.accepts(PERSON, &row(Value::Ref(roundy), dogs(&[rex]))));
    assert!(!db.accepts(PERSON, &row(Value::Ref(Key::new(SURNAME, 5)), dogs(&[rex]))));
    assert!(!db.accepts(PERSON, &row(Value::Ref(rex), dogs(&[rex]))));
    assert!(!db.accepts(PERSON, &row(Value::Ref(roundy), dogs(&[Key::new(DOG, 9)]))));
    assert!(!db.accepts(PERSON, &row(Value::Ref(roundy), Value::RefSet(KeySet::new(SURNAME)))));
    let mut wrong_parent = row(Value::Ref(roundy), dogs(&[]));
    wrong_parent[1] = Value::OptRef(Some(Key::new(PERSON, 0)));
    assert!(!db.accepts(PERSON, &wrong_parent));
}

#[test]
fn try_insert_refuses_rows_that_do_not_fit() {
    let mut db = tree();
    let roundy = db.try_insert(SURNAME, vec![text("Roundy")]).unwrap();
    assert_eq!(roundy, Key::new(SURNAME, 0));
    assert_eq!(db.try_insert(SURNAME, vec![Value::Int(3), Value::Int(4)]), None);
    let dangling = vec![Value::Ref(Key::new(SURNAME, 1)), Value::OptRef(None), Value::OptRef(None), text("A"), dogs(&[])];
    assert_eq!(db.try_insert(PERSON, dangling), None);
    assert_eq!(db.len(SURNAME), 1);
    assert_eq!(db.len(PERSON), 0);
    let me = db.try_insert(PERSON, vec![Value::Ref(roundy), Value::OptRef(None), Value::OptRef(None), text("A"), dogs(&[])]);
    assert_eq!(me, Some(Key::new(PERSON, 0)));
    assert!(db.backrefs_of(roundy, "last_name_of").unwrap().contains(me.unwrap()));
}

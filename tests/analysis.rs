use polygraph::schema::{analyze, find_entity, parse_fields, EntityDecl, FieldDecl, FieldKind, SchemaError};
use polygraph::syntax::{
    first_of_type, parse_keytype, type_is_just_ident, GenericArgument, KeyType, PathArguments, PathSegment,
    TypeError, TypeExpr,
};

fn plain(name: &str) -> TypeExpr {
    TypeExpr::Path(vec![PathSegment { ident: name.to_string(), args: PathArguments::Bare }])
}

fn with_args(name: &str, args: Vec<GenericArgument>) -> TypeExpr {
    TypeExpr::Path(vec![PathSegment { ident: name.to_string(), args: PathArguments::AngleBracketed(args) }])
}

fn generic(name: &str, inner: TypeExpr) -> TypeExpr {
    with_args(name, vec![GenericArgument::Type(inner)])
}

fn field(name: &str, ty: TypeExpr) -> FieldDecl {
    FieldDecl { name: name.to_string(), ty }
}

fn entity(name: &str, fields: Vec<FieldDecl>) -> EntityDecl {
    EntityDecl { name: name.to_string(), generic_params: 0, fields }
}

#[test]
fn classifies_key_types() {
    match parse_keytype(&generic("Key", plain("Person"))) {
        Ok(Some(KeyType::Key(t))) => assert_eq!(t, "Person"),
        _ => panic!("expected a key"),
    }
    match parse_keytype(&generic("Option", generic("Key", plain("Person")))) {
        Ok(Some(KeyType::OptionKey(t))) => assert_eq!(t, "Person"),
        _ => panic!("expected an optional key"),
    }
    match parse_keytype(&generic("KeySet", plain("Dog"))) {
        Ok(Some(k)) => assert_eq!(k.key_to(), "Dog"),
        _ => panic!("expected a key set"),
    }
    assert!(matches!(parse_keytype(&plain("String")), Ok(None)));
    assert!(matches!(parse_keytype(&generic("Option", plain("String"))), Ok(None)));
    assert!(matches!(parse_keytype(&generic("Vec", generic("Key", plain("A")))), Ok(None)));
    assert!(matches!(parse_keytype(&TypeExpr::Other), Ok(None)));
}

#[test]
fn rejects_malformed_key_types() {
    let two = with_args("Key", vec![GenericArgument::Type(plain("A")), GenericArgument::Type(plain("B"))]);
    assert!(matches!(parse_keytype(&two), Err(TypeError::MalformedReferenceType)));
    assert!(matches!(parse_keytype(&plain("Key")), Err(TypeError::MalformedReferenceType)));
    let lifetime = generic("Key", with_args("Surname", vec![GenericArgument::Other]));
    assert!(matches!(parse_keytype(&lifetime), Err(TypeError::InvalidReferenceTarget)));
    let nested = generic("Option", generic("Key", generic("Vec", plain("A"))));
    assert!(matches!(parse_keytype(&nested), Err(TypeError::InvalidReferenceTarget)));
    assert!(matches!(parse_keytype(&with_args("Key", vec![GenericArgument::Other])), Err(TypeError::InvalidReferenceTarget)));
}

#[test]
fn type_shape_helpers() {
    let opt = generic("Option", plain("u8"));
    let (name, inner) = first_of_type(&opt).unwrap();
    assert_eq!(name, "Option");
    assert_eq!(type_is_just_ident(inner), Some("u8".to_string()));
    assert!(first_of_type(&plain("u8")).is_none());
    assert_eq!(type_is_just_ident(&generic("Vec", plain("u8"))), None);
    let two_segments = TypeExpr::Path(vec![
        PathSegment { ident: "std".to_string(), args: PathArguments::Bare },
        PathSegment { ident: "String".to_string(), args: PathArguments::Bare },
    ]);
    assert_eq!(type_is_just_ident(&two_segments), None);
}

#[test]
fn analysis_resolves_targets_and_backrefs() {
    let decls = vec![
        entity("Surname", vec![field("0", plain("String"))]),
        entity(
            "Person",
            vec![
                field("last_name", generic("Key", plain("Surname"))),
                field("father", generic("Option", generic("Key", plain("Person")))),
                field("name", plain("String")),
            ],
        ),
    ];
    assert_eq!(find_entity(&decls, &"Person".to_string()), Some(1));
    assert_eq!(find_entity(&decls, &"Dog".to_string()), None);
    let kinds = parse_fields(&decls, 1).ok().unwrap();
    assert_eq!(kinds, vec![FieldKind::Reference(0), FieldKind::OptionalReference(1), FieldKind::Scalar]);
    let schema = analyze(&decls).ok().unwrap();
    let ens = schema.entities();
    assert!(!ens[0].is_linked());
    assert!(ens[1].is_linked());
    assert_eq!(ens[1].table_name, "person");
    assert_eq!(ens[0].backrefs.len(), 1);
    assert_eq!((ens[0].backrefs[0].source, ens[0].backrefs[0].field), (1, 0));
    assert_eq!(ens[0].backrefs[0].name, "last_name_of");
    assert_eq!(ens[1].backrefs.len(), 1);
    assert_eq!(ens[1].backrefs[0].name, "father_of");
}

#[test]
fn analysis_errors() {
    let mut generic_decl = entity("Int", vec![field("0", plain("usize"))]);
    generic_decl.generic_params = 1;
    let decls = vec![entity("A", vec![field("x", generic("Key", plain("Nowhere")))]), generic_decl];
    assert_eq!(analyze(&decls).err(), Some(SchemaError::UnsupportedGenericEntity { entity: 1 }));

    let decls = vec![
        entity("A", vec![field("x", plain("u8"))]),
        entity("B", vec![field("y", plain("u8")), field("z", generic("Key", plain("Nowhere")))]),
    ];
    assert_eq!(analyze(&decls).err(), Some(SchemaError::UnknownReferenceTarget { entity: 1, field: 1 }));

    let decls = vec![entity("A", vec![field("x", plain("Key"))])];
    assert_eq!(analyze(&decls).err(), Some(SchemaError::MalformedReferenceType { entity: 0, field: 0 }));

    let decls = vec![
        entity("Surname", vec![]),
        entity("A", vec![field("x", generic("Key", with_args("Surname", vec![GenericArgument::Other])))]),
    ];
    assert_eq!(analyze(&decls).err(), Some(SchemaError::InvalidReferenceTarget { entity: 1, field: 0 }));
    assert_eq!(parse_fields(&decls, 1).err(), Some(SchemaError::InvalidReferenceTarget { entity: 1, field: 0 }));
}

//! The shape of a declared field type, and how it is classified.
//!
//! A field type is given as a path (`Option<Key<Person>>`) with the generic
//! arguments of each segment. Only three shapes say something to the store:
//! `Key<T>`, `Option<Key<T>>` and `KeySet<T>`; every other type is a plain
//! value.

use vstd::prelude::*;

verus! {

/// A type as it was written in an entity declaration.
pub enum TypeExpr {
    /// A path such as `std::string::String` or `Key<Person>`.
    Path(Vec<PathSegment>),
    /// Any other type form (a reference, a tuple, an array).
    Other,
}

/// One segment of a type path, with its generic arguments.
pub struct PathSegment {
    pub ident: String,
    pub args: PathArguments,
}

/// The arguments written after a path segment.
pub enum PathArguments {
    Bare,
    AngleBracketed(Vec<GenericArgument>),
    Parenthesized,
}

/// One argument between angle brackets.
pub enum GenericArgument {
    Type(TypeExpr),
    /// A lifetime, a constant or an associated-type binding.
    Other,
}

/// Why a field type that names a key type could not be classified.
#[derive(Clone, Copy, PartialEq, Eq, Structural, Debug)]
pub enum TypeError {
    /// `Key`, `Option<Key>` or `KeySet` without exactly one type argument.
    MalformedReferenceType,
    /// The argument of a key type is not a bare table name.
    InvalidReferenceTarget,
}

/// A field that refers to another table.
pub enum KeyType {
    /// `Key<T>`: exactly one row of `T`.
    Key(String),
    /// `Option<Key<T>>`: one row of `T`, or none.
    OptionKey(String),
    /// `KeySet<T>`: any number of rows of `T`.
    KeySet(String),
}

pub enum KeyTypeView {
    Key(Seq<char>),
    OptionKey(Seq<char>),
    KeySet(Seq<char>),
}

impl View for KeyType {
    type V = KeyTypeView;

    open spec fn view(&self) -> KeyTypeView {
        match self {
            KeyType::Key(i) => KeyTypeView::Key(i@),
            KeyType::OptionKey(i) => KeyTypeView::OptionKey(i@),
            KeyType::KeySet(i) => KeyTypeView::KeySet(i@),
        }
    }
}

impl KeyTypeView {
    pub open spec fn target(self) -> Seq<char> {
        match self {
            KeyTypeView::Key(i) => i,
            KeyTypeView::OptionKey(i) => i,
            KeyTypeView::KeySet(i) => i,
        }
    }
}

impl KeyType {
    /// The name of the table referred to.
    pub fn key_to(&self) -> (r: String)
        ensures
            r@ == self@.target(),
    {
        match self {
            KeyType::Key(i) => i.clone(),
            KeyType::OptionKey(i) => i.clone(),
            KeyType::KeySet(i) => i.clone(),
        }
    }
}

/// The only segment of a one-segment path.
pub open spec fn single_segment(t: &TypeExpr) -> Option<&PathSegment> {
    match t {
        TypeExpr::Path(segs) => if segs@.len() == 1 {
            Some(&segs@[0])
        } else {
            None
        },
        TypeExpr::Other => None,
    }
}

/// `Name<U>` with a single type argument `U`: the name and `U`.
pub open spec fn first_of_type_spec(t: &TypeExpr) -> Option<(Seq<char>, &TypeExpr)> {
    match single_segment(t) {
        Some(seg) => match &seg.args {
            PathArguments::AngleBracketed(args) => if args@.len() == 1 {
                match &args@[0] {
                    GenericArgument::Type(u) => Some((seg.ident@, u)),
                    GenericArgument::Other => None,
                }
            } else {
                None
            },
            _ => None,
        },
        None => None,
    }
}

/// A bare name without arguments: the name.
pub open spec fn just_ident_spec(t: &TypeExpr) -> Option<Seq<char>> {
    match single_segment(t) {
        Some(seg) => match seg.args {
            PathArguments::Bare => Some(seg.ident@),
            _ => None,
        },
        None => None,
    }
}

/// The table that a key segment (`Key<..>`, `KeySet<..>`) names.
pub open spec fn key_target_spec(seg: &PathSegment) -> Result<Seq<char>, TypeError> {
    match &seg.args {
        PathArguments::AngleBracketed(args) => if args@.len() != 1 {
            Err(TypeError::MalformedReferenceType)
        } else {
            match &args@[0] {
                GenericArgument::Type(u) => match just_ident_spec(u) {
                    Some(i) => Ok(i),
                    None => Err(TypeError::InvalidReferenceTarget),
                },
                GenericArgument::Other => Err(TypeError::InvalidReferenceTarget),
            }
        },
        _ => Err(TypeError::MalformedReferenceType),
    }
}

/// The segment of `t` if `t` is a one-segment path with the given name.
pub open spec fn named_segment(t: &TypeExpr, name: Seq<char>) -> Option<&PathSegment> {
    match single_segment(t) {
        Some(seg) => if seg.ident@ == name {
            Some(seg)
        } else {
            None
        },
        None => None,
    }
}

/// How a field type is classified: `Ok(None)` for a plain value.
pub open spec fn classify_spec(t: &TypeExpr) -> Result<Option<KeyTypeView>, TypeError> {
    let opt_inner = match first_of_type_spec(t) {
        Some((n, u)) => if n == "Option"@ {
            named_segment(u, "Key"@)
        } else {
            None
        },
        None => None,
    };
    match opt_inner {
        Some(seg) => match key_target_spec(seg) {
            Ok(i) => Ok(Some(KeyTypeView::OptionKey(i))),
            Err(e) => Err(e),
        },
        None => match named_segment(t, "Key"@) {
            Some(seg) => match key_target_spec(seg) {
                Ok(i) => Ok(Some(KeyTypeView::Key(i))),
                Err(e) => Err(e),
            },
            None => match named_segment(t, "KeySet"@) {
                Some(seg) => match key_target_spec(seg) {
                    Ok(i) => Ok(Some(KeyTypeView::KeySet(i))),
                    Err(e) => Err(e),
                },
                None => Ok(None),
            },
        },
    }
}

fn ident_is(s: &String, name: &str) -> (r: bool)
    ensures
        r == (s@ == name@),
{
    let n = String::from_str(name);
    *s == n
}

fn segment_of(t: &TypeExpr) -> (r: Option<&PathSegment>)
    ensures
        r == single_segment(t),
{
    match t {
        TypeExpr::Path(segs) => if segs.len() == 1 {
            Some(&segs[0])
        } else {
            None
        },
        TypeExpr::Other => None,
    }
}

/// For `Name<U>` with exactly one type argument, the name and `U`.
pub fn first_of_type(t: &TypeExpr) -> (r: Option<(String, &TypeExpr)>)
    ensures
        match (r, first_of_type_spec(t)) {
            (Some((n, u)), Some((sn, su))) => n@ == sn && u == su,
            (None, None) => true,
            _ => false,
        },
{
    let seg = match segment_of(t) {
        Some(seg) => seg,
        None => return None,
    };
    let args = match &seg.args {
        PathArguments::AngleBracketed(args) => args,
        _ => return None,
    };
    if args.len() != 1 {
        return None;
    }
    match &args[0] {
        GenericArgument::Type(u) => Some((seg.ident.clone(), u)),
        GenericArgument::Other => None,
    }
}

/// For a bare name without arguments, that name.
pub fn type_is_just_ident(t: &TypeExpr) -> (r: Option<String>)
    ensures
        match (r, just_ident_spec(t)) {
            (Some(n), Some(sn)) => n@ == sn,
            (None, None) => true,
            _ => false,
        },
{
    let seg = match segment_of(t) {
        Some(seg) => seg,
        None => return None,
    };
    match seg.args {
        PathArguments::Bare => Some(seg.ident.clone()),
        _ => None,
    }
}

fn named<'a>(t: &'a TypeExpr, name: &str) -> (r: Option<&'a PathSegment>)
    ensures
        r == named_segment(t, name@),
{
    match segment_of(t) {
        Some(seg) => if ident_is(&seg.ident, name) {
            Some(seg)
        } else {
            None
        },
        None => None,
    }
}

fn key_target(seg: &PathSegment) -> (r: Result<String, TypeError>)
    ensures
        match (r, key_target_spec(seg)) {
            (Ok(n), Ok(sn)) => n@ == sn,
            (Err(e), Err(se)) => e == se,
            _ => false,
        },
{
    match &seg.args {
        PathArguments::AngleBracketed(args) => {
            if args.len() != 1 {
                return Err(TypeError::MalformedReferenceType);
            }
            match &args[0] {
                GenericArgument::Type(u) => match type_is_just_ident(u) {
                    Some(i) => Ok(i),
                    None => Err(TypeError::InvalidReferenceTarget),
                },
                GenericArgument::Other => Err(TypeError::InvalidReferenceTarget),
            }
        },
        _ => Err(TypeError::MalformedReferenceType),
    }
}

/// Classifies a field type: `Ok(Some(..))` for a reference to another table,
/// `Ok(None)` for a plain value, and an error for a key type that is not
/// written `Key<Table>`, `Option<Key<Table>>` or `KeySet<Table>`.
pub fn parse_keytype(t: &TypeExpr) -> (r: Result<Option<KeyType>, TypeError>)
    ensures
        match (r, classify_spec(t)) {
            (Ok(Some(k)), Ok(Some(sk))) => k@ == sk,
            (Ok(None), Ok(None)) => true,
            (Err(e), Err(se)) => e == se,
            _ => false,
        },
{
    let ghost opt_inner = match first_of_type_spec(t) {
        Some((n, u)) => if n == "Option"@ {
            named_segment(u, "Key"@)
        } else {
            None
        },
        None => None,
    };
    let inner = match first_of_type(t) {
        Some((n, u)) => if ident_is(&n, "Option") {
            named(u, "Key")
        } else {
            None
        },
        None => None,
    };
    proof {
        reveal_strlit("Option");
        reveal_strlit("Key");
    }
    assert(inner == opt_inner);
    if let Some(seg) = inner {
        return match key_target(seg) {
            Ok(i) => Ok(Some(KeyType::OptionKey(i))),
            Err(e) => Err(e),
        };
    }
    if let Some(seg) = named(t, "Key") {
        return match key_target(seg) {
            Ok(i) => Ok(Some(KeyType::Key(i))),
            Err(e) => Err(e),
        };
    }
    if let Some(seg) = named(t, "KeySet") {
        return match key_target(seg) {
            Ok(i) => Ok(Some(KeyType::KeySet(i))),
            Err(e) => Err(e),
        };
    }
    Ok(None)
}

} // verus!

//! Analysis of entity declarations: field kinds, targets and back-references.

use vstd::prelude::*;
use crate::syntax::{classify_spec, parse_keytype, KeyType, KeyTypeView, TypeError, TypeExpr};

verus! {

/// What `heck` makes of a name in snake case.
pub uninterp spec fn snake_case_of(s: Seq<char>) -> Seq<char>;

/// Relies on heck's `SnakeCase::to_snake_case`: the result depends on the
/// characters of the name alone.
#[verifier::external_body]
fn to_snake_case(s: &str) -> (r: String)
    ensures
        r@ == snake_case_of(s@),
{
    heck::SnakeCase::to_snake_case(s)
}

/// The name of the back-reference set that a field named `field` creates on
/// its target: the field's name in snake case, then `_of`.
pub open spec fn backref_name_spec(field: Seq<char>) -> Seq<char> {
    snake_case_of(field) + "_of"@
}

/// The name of the back-reference set that a field named `field` creates.
pub fn backref_name(field: &String) -> (r: String)
    ensures
        r@ == backref_name_spec(field@),
{
    let mut r = to_snake_case(field.as_str());
    r.append("_of");
    proof {
        reveal_strlit("_of");
    }
    r
}

/// The name under which an entity's table is stored: its name in snake case.
pub fn table_name(entity: &String) -> (r: String)
    ensures
        r@ == snake_case_of(entity@),
{
    to_snake_case(entity.as_str())
}

/// One field of an entity declaration.
pub struct FieldDecl {
    pub name: String,
    pub ty: TypeExpr,
}

/// An entity as the front end hands it over.
pub struct EntityDecl {
    pub name: String,
    /// How many type or lifetime parameters the declaration has.
    pub generic_params: usize,
    pub fields: Vec<FieldDecl>,
}

/// A resolved field kind; the target is the index of an entity.
#[derive(Clone, Copy, PartialEq, Eq, Structural, Debug)]
pub enum FieldKind {
    Scalar,
    Reference(usize),
    OptionalReference(usize),
    ReferenceSet(usize),
}

impl FieldKind {
    pub open spec fn target_spec(self) -> Option<usize> {
        match self {
            FieldKind::Scalar => None,
            FieldKind::Reference(t) => Some(t),
            FieldKind::OptionalReference(t) => Some(t),
            FieldKind::ReferenceSet(t) => Some(t),
        }
    }

    /// The entity referred to, if any.
    pub fn target(&self) -> (r: Option<usize>)
        ensures
            r == self.target_spec(),
    {
        match self {
            FieldKind::Scalar => None,
            FieldKind::Reference(t) => Some(*t),
            FieldKind::OptionalReference(t) => Some(*t),
            FieldKind::ReferenceSet(t) => Some(*t),
        }
    }
}

/// A field of an analysed entity.
pub struct Field {
    pub name: String,
    pub kind: FieldKind,
}

/// One relationship that targets an entity: field `field` of entity `source`.
pub struct Backref {
    pub source: usize,
    pub field: usize,
    /// The name of the back-reference set, `<field>_of`.
    pub name: String,
}

/// An analysed entity.
pub struct Entity {
    pub name: String,
    /// The entity's name in snake case.
    pub table_name: String,
    pub fields: Vec<Field>,
    /// Every relationship that targets this entity, ordered by source entity,
    /// then by field.
    pub backrefs: Vec<Backref>,
}

impl Entity {
    /// A linked entity has at least one field that refers to a table.
    pub open spec fn linked_spec(&self) -> bool {
        exists|j: int| 0 <= j < self.fields@.len() && (#[trigger] self.fields@[j]).kind.target_spec().is_some()
    }

    /// Whether some field refers to a table; entities without one are plain.
    pub fn is_linked(&self) -> (r: bool)
        ensures
            r == self.linked_spec(),
    {
        let mut j: usize = 0;
        while j < self.fields.len()
            invariant
                j <= self.fields@.len(),
                forall|k: int| 0 <= k < j ==> (#[trigger] self.fields@[k]).kind.target_spec().is_none(),
            decreases self.fields@.len() - j,
        {
            if self.fields[j].kind.target().is_some() {
                return true;
            }
            j += 1;
        }
        false
    }
}

/// Why a set of declarations cannot be analysed.
#[derive(Clone, Copy, PartialEq, Eq, Structural, Debug)]
pub enum SchemaError {
    /// The entity declares type or lifetime parameters.
    UnsupportedGenericEntity { entity: usize },
    /// A key type without exactly one type argument.
    MalformedReferenceType { entity: usize, field: usize },
    /// A key type whose argument is not a bare table name.
    InvalidReferenceTarget { entity: usize, field: usize },
    /// A key type naming a table that is not declared.
    UnknownReferenceTarget { entity: usize, field: usize },
}

/// `(s1, f1)` comes strictly before `(s2, f2)`.
pub open spec fn pair_lt(s1: int, f1: int, s2: int, f2: int) -> bool {
    s1 < s2 || (s1 == s2 && f1 < f2)
}

/// `brs` is the ordered list of every field, among `kinds`, that targets `e`.
pub open spec fn backrefs_exact(kinds: Seq<Seq<FieldKind>>, e: int, brs: Seq<Backref>) -> bool {
    &&& forall|b: int| 0 <= b < brs.len() ==> {
        let br = #[trigger] brs[b];
        &&& br.source < kinds.len()
        &&& br.field < kinds[br.source as int].len()
        &&& kinds[br.source as int][br.field as int].target_spec() == Some(e as usize)
    }
    &&& forall|s: int, f: int|
        0 <= s < kinds.len() && 0 <= f < kinds[s].len() && (#[trigger] kinds[s][f]).target_spec() == Some(e as usize)
            ==> exists|b: int| 0 <= b < brs.len() && (#[trigger] brs[b]).source == s && brs[b].field == f
    &&& forall|b1: int, b2: int| 0 <= b1 < b2 < brs.len()
        ==> pair_lt((#[trigger] brs[b1]).source as int, brs[b1].field as int, (#[trigger] brs[b2]).source as int, brs[b2].field as int)
}

/// An analysed set of entities.
pub struct Schema {
    entities: Vec<Entity>,
}

impl Schema {
    pub closed spec fn entities_spec(&self) -> Seq<Entity> {
        self.entities@
    }

    /// The field kinds of every entity.
    pub open spec fn kinds(&self) -> Seq<Seq<FieldKind>> {
        self.entities_spec().map_values(|en: Entity| en.fields@.map_values(|f: Field| f.kind))
    }

    /// Every target exists, and each entity lists exactly the relationships
    /// that target it.
    pub open spec fn wf(&self) -> bool {
        &&& forall|e: int, j: int| 0 <= e < self.kinds().len() && 0 <= j < self.kinds()[e].len()
            ==> match (#[trigger] self.kinds()[e][j]).target_spec() {
                Some(t) => t < self.kinds().len(),
                None => true,
            }
        &&& forall|e: int| 0 <= e < self.entities_spec().len()
            ==> backrefs_exact(self.kinds(), e, (#[trigger] self.entities_spec()[e]).backrefs@)
    }

    /// The analysed entities, in declaration order.
    pub fn entities(&self) -> (r: &Vec<Entity>)
        ensures
            r@ == self.entities_spec(),
    {
        &self.entities
    }
}

/// `i` is the first declaration named `name`.
pub open spec fn is_first_named(decls: Seq<EntityDecl>, name: Seq<char>, i: int) -> bool {
    &&& 0 <= i < decls.len()
    &&& decls[i].name@ == name
    &&& forall|j: int| 0 <= j < i ==> (#[trigger] decls[j]).name@ != name
}

/// The index of the first declaration named `name`.
pub open spec fn first_named(decls: Seq<EntityDecl>, name: Seq<char>) -> Option<int> {
    if exists|i: int| is_first_named(decls, name, i) {
        Some(choose|i: int| is_first_named(decls, name, i))
    } else {
        None
    }
}

/// What field `j` of declaration `i` resolves to.
pub open spec fn kind_of(decls: Seq<EntityDecl>, i: int, j: int) -> Result<FieldKind, SchemaError> {
    match classify_spec(&decls[i].fields@[j].ty) {
        Err(TypeError::MalformedReferenceType) => Err(
            SchemaError::MalformedReferenceType { entity: i as usize, field: j as usize },
        ),
        Err(TypeError::InvalidReferenceTarget) => Err(
            SchemaError::InvalidReferenceTarget { entity: i as usize, field: j as usize },
        ),
        Ok(None) => Ok(FieldKind::Scalar),
        Ok(Some(kt)) => match first_named(decls, kt.target()) {
            None => Err(SchemaError::UnknownReferenceTarget { entity: i as usize, field: j as usize }),
            Some(t) => Ok(
                match kt {
                    KeyTypeView::Key(_) => FieldKind::Reference(t as usize),
                    KeyTypeView::OptionKey(_) => FieldKind::OptionalReference(t as usize),
                    KeyTypeView::KeySet(_) => FieldKind::ReferenceSet(t as usize),
                },
            ),
        },
    }
}

/// No declaration has type parameters.
pub open spec fn generics_ok(decls: Seq<EntityDecl>) -> bool {
    forall|i: int| 0 <= i < decls.len() ==> (#[trigger] decls[i]).generic_params == 0
}

/// Every field of declaration `i` before field `n` resolves.
pub open spec fn fields_ok_upto(decls: Seq<EntityDecl>, i: int, n: int) -> bool {
    forall|j: int| 0 <= j < n ==> (#[trigger] kind_of(decls, i, j)).is_ok()
}

/// Every field of every declaration before declaration `n` resolves.
pub open spec fn entities_ok_upto(decls: Seq<EntityDecl>, n: int) -> bool {
    forall|i: int| 0 <= i < n ==> #[trigger] fields_ok_upto(decls, i, decls[i].fields@.len() as int)
}

/// The declarations can be analysed.
pub open spec fn decls_ok(decls: Seq<EntityDecl>) -> bool {
    generics_ok(decls) && entities_ok_upto(decls, decls.len() as int)
}

/// `e` is the error that analysing `decls` reports: the first generic
/// declaration, or else the first field, in declaration order, that does not
/// resolve.
pub open spec fn analysis_error(decls: Seq<EntityDecl>, e: SchemaError) -> bool {
    match e {
        SchemaError::UnsupportedGenericEntity { entity } => {
            &&& entity < decls.len()
            &&& decls[entity as int].generic_params != 0
            &&& forall|i: int| 0 <= i < entity ==> (#[trigger] decls[i]).generic_params == 0
        },
        SchemaError::MalformedReferenceType { entity, field }
        | SchemaError::InvalidReferenceTarget { entity, field }
        | SchemaError::UnknownReferenceTarget { entity, field } => {
            &&& generics_ok(decls)
            &&& entity < decls.len()
            &&& field < decls[entity as int].fields@.len()
            &&& entities_ok_upto(decls, entity as int)
            &&& fields_ok_upto(decls, entity as int, field as int)
            &&& kind_of(decls, entity as int, field as int) == Err::<FieldKind, SchemaError>(e)
        },
    }
}

/// `s` is the analysis of `decls`: one entity per declaration, in order, with
/// its fields resolved, its table name, and the back-references that target it.
pub open spec fn analysis_of(decls: Seq<EntityDecl>, s: Schema) -> bool {
    let ens = s.entities_spec();
    &&& s.wf()
    &&& ens.len() == decls.len()
    &&& forall|i: int| 0 <= i < decls.len() ==> {
        let en = #[trigger] ens[i];
        &&& en.name@ == decls[i].name@
        &&& en.table_name@ == snake_case_of(decls[i].name@)
        &&& en.fields@.len() == decls[i].fields@.len()
        &&& forall|j: int| 0 <= j < en.fields@.len() ==> {
            &&& (#[trigger] en.fields@[j]).name@ == decls[i].fields@[j].name@
            &&& Ok::<FieldKind, SchemaError>(en.fields@[j].kind) == kind_of(decls, i, j)
        }
        &&& forall|b: int| 0 <= b < en.backrefs@.len() ==> {
            let br = #[trigger] en.backrefs@[b];
            br.name@ == backref_name_spec(decls[br.source as int].fields@[br.field as int].name@)
        }
    }
}

/// The index of the first declaration named `name`.
pub fn find_entity(decls: &Vec<EntityDecl>, name: &String) -> (r: Option<usize>)
    ensures
        match (r, first_named(decls@, name@)) {
            (Some(a), Some(b)) => a as int == b,
            (None, None) => true,
            _ => false,
        },
{
    let mut i: usize = 0;
    while i < decls.len()
        invariant
            i <= decls@.len(),
            forall|j: int| 0 <= j < i ==> (#[trigger] decls@[j]).name@ != name@,
        decreases decls@.len() - i,
    {
        if decls[i].name == *name {
            assert(is_first_named(decls@, name@, i as int));
            let ghost c = choose|c: int| is_first_named(decls@, name@, c);
            assert(c == i) by {
                if c < i {
                    assert(decls@[c].name@ != name@);
                } else if c > i {
                    assert(decls@[i as int].name@ != name@);
                }
            }
            return Some(i);
        }
        i += 1;
    }
    None
}

/// Resolves field `j` of declaration `i`.
fn resolve_field(decls: &Vec<EntityDecl>, i: usize, j: usize) -> (r: Result<FieldKind, SchemaError>)
    requires
        i < decls@.len(),
        j < decls@[i as int].fields@.len(),
    ensures
        r == kind_of(decls@, i as int, j as int),
{
    let kt = match parse_keytype(&decls[i].fields[j].ty) {
        Err(TypeError::MalformedReferenceType) => {
            return Err(SchemaError::MalformedReferenceType { entity: i, field: j });
        },
        Err(TypeError::InvalidReferenceTarget) => {
            return Err(SchemaError::InvalidReferenceTarget { entity: i, field: j });
        },
        Ok(None) => {
            return Ok(FieldKind::Scalar);
        },
        Ok(Some(kt)) => kt,
    };
    let target = kt.key_to();
    match find_entity(decls, &target) {
        None => Err(SchemaError::UnknownReferenceTarget { entity: i, field: j }),
        Some(t) => Ok(
            match kt {
                KeyType::Key(_) => FieldKind::Reference(t),
                KeyType::OptionKey(_) => FieldKind::OptionalReference(t),
                KeyType::KeySet(_) => FieldKind::ReferenceSet(t),
            },
        ),
    }
}

/// Resolves every field of declaration `i`, stopping at the first that does
/// not resolve.
pub fn parse_fields(decls: &Vec<EntityDecl>, i: usize) -> (r: Result<Vec<FieldKind>, SchemaError>)
    requires
        i < decls@.len(),
    ensures
        r.is_ok() == fields_ok_upto(decls@, i as int, decls@[i as int].fields@.len() as int),
        match r {
            Ok(v) => v@.len() == decls@[i as int].fields@.len() && forall|j: int|
                0 <= j < v@.len() ==> Ok::<FieldKind, SchemaError>(#[trigger] v@[j]) == kind_of(decls@, i as int, j),
            Err(e) => exists|j: int|
                0 <= j < decls@[i as int].fields@.len() && fields_ok_upto(decls@, i as int, j)
                    && #[trigger] kind_of(decls@, i as int, j) == Err::<FieldKind, SchemaError>(e),
        },
{
    let mut out: Vec<FieldKind> = Vec::new();
    let mut j: usize = 0;
    let n = decls[i].fields.len();
    while j < n
        invariant
            i < decls@.len(),
            n == decls@[i as int].fields@.len(),
            j <= n,
            out@.len() == j,
            forall|k: int| 0 <= k < j ==> Ok::<FieldKind, SchemaError>(#[trigger] out@[k]) == kind_of(decls@, i as int, k),
        decreases n - j,
    {
        match resolve_field(decls, i, j) {
            Ok(k) => out.push(k),
            Err(e) => {
                assert(fields_ok_upto(decls@, i as int, j as int)) by {
                    assert forall|k: int| 0 <= k < j implies (#[trigger] kind_of(decls@, i as int, k)).is_ok() by {
                        assert(Ok::<FieldKind, SchemaError>(out@[k]) == kind_of(decls@, i as int, k));
                    }
                }
                return Err(e);
            },
        }
        j += 1;
    }
    assert forall|k: int| 0 <= k < n implies (#[trigger] kind_of(decls@, i as int, k)).is_ok() by {
        assert(Ok::<FieldKind, SchemaError>(out@[k]) == kind_of(decls@, i as int, k));
    }
    Ok(out)
}

/// The field kinds held in a vector of vectors.
pub open spec fn kinds_seq(kinds: Seq<Vec<FieldKind>>) -> Seq<Seq<FieldKind>> {
    kinds.map_values(|v: Vec<FieldKind>| v@)
}

/// `brs` is ordered, every member targets `e`, comes before `(s, f)`, and each
/// field before `(s, f)` that targets `e` is listed.
spec fn backrefs_below(kinds: Seq<Seq<FieldKind>>, e: int, brs: Seq<Backref>, s: int, f: int) -> bool {
    &&& forall|b: int| 0 <= b < brs.len() ==> {
        let br = #[trigger] brs[b];
        &&& br.source < kinds.len()
        &&& br.field < kinds[br.source as int].len()
        &&& kinds[br.source as int][br.field as int].target_spec() == Some(e as usize)
        &&& pair_lt(br.source as int, br.field as int, s, f)
    }
    &&& forall|s2: int, f2: int|
        0 <= s2 < kinds.len() && 0 <= f2 < kinds[s2].len() && (#[trigger] kinds[s2][f2]).target_spec()
            == Some(e as usize) && pair_lt(s2, f2, s, f)
            ==> exists|b: int| 0 <= b < brs.len() && (#[trigger] brs[b]).source == s2 && brs[b].field == f2
    &&& forall|b1: int, b2: int| 0 <= b1 < b2 < brs.len()
        ==> pair_lt((#[trigger] brs[b1]).source as int, brs[b1].field as int, (#[trigger] brs[b2]).source as int, brs[b2].field as int)
}

/// Lists, in order, every field of every declaration that targets entity `e`.
fn collect_backrefs(decls: &Vec<EntityDecl>, kinds: &Vec<Vec<FieldKind>>, e: usize) -> (r: Vec<Backref>)
    requires
        kinds@.len() == decls@.len(),
        forall|s: int| 0 <= s < kinds@.len() ==> (#[trigger] kinds@[s])@.len() == decls@[s].fields@.len(),
    ensures
        backrefs_exact(kinds_seq(kinds@), e as int, r@),
        forall|b: int| 0 <= b < r@.len() ==> (#[trigger] r@[b]).name@ == backref_name_spec(
            decls@[r@[b].source as int].fields@[r@[b].field as int].name@,
        ),
{
    let ghost kv = kinds_seq(kinds@);
    let mut out: Vec<Backref> = Vec::new();
    let mut s: usize = 0;
    while s < kinds.len()
        invariant
            kv == kinds_seq(kinds@),
            kinds@.len() == decls@.len(),
            forall|s: int| 0 <= s < kinds@.len() ==> (#[trigger] kinds@[s])@.len() == decls@[s].fields@.len(),
            s <= kinds@.len(),
            backrefs_below(kv, e as int, out@, s as int, 0),
            forall|b: int| 0 <= b < out@.len() ==> (#[trigger] out@[b]).name@ == backref_name_spec(
                decls@[out@[b].source as int].fields@[out@[b].field as int].name@,
            ),
        decreases kinds@.len() - s,
    {
        let mut f: usize = 0;
        while f < kinds[s].len()
            invariant
                kv == kinds_seq(kinds@),
                kinds@.len() == decls@.len(),
                forall|s: int| 0 <= s < kinds@.len() ==> (#[trigger] kinds@[s])@.len() == decls@[s].fields@.len(),
                s < kinds@.len(),
                f <= kinds@[s as int]@.len(),
                backrefs_below(kv, e as int, out@, s as int, f as int),
                forall|b: int| 0 <= b < out@.len() ==> (#[trigger] out@[b]).name@ == backref_name_spec(
                    decls@[out@[b].source as int].fields@[out@[b].field as int].name@,
                ),
            decreases kinds@[s as int]@.len() - f,
        {
            assert(kv[s as int] == kinds@[s as int]@);
            assert(kv[s as int][f as int] == kinds@[s as int]@[f as int]);
            let ghost old_out = out@;
            if kinds[s][f].target() == Some(e) {
                let name = backref_name(&decls[s].fields[f].name);
                out.push(Backref { source: s, field: f, name });
                assert(out@[old_out.len() as int].source == s);
            }
            assert forall|s2: int, f2: int|
                0 <= s2 < kv.len() && 0 <= f2 < kv[s2].len() && (#[trigger] kv[s2][f2]).target_spec()
                    == Some(e as usize) && pair_lt(s2, f2, s as int, f + 1)
                implies exists|b: int| 0 <= b < out@.len() && (#[trigger] out@[b]).source == s2 && out@[b].field == f2 by {
                if s2 == s && f2 == f {
                    assert(out@[old_out.len() as int].source == s2);
                } else {
                    assert(pair_lt(s2, f2, s as int, f as int));
                    let b = choose|b: int| 0 <= b < old_out.len() && (#[trigger] old_out[b]).source == s2 && old_out[b].field == f2;
                    assert(out@[b] == old_out[b]);
                }
            }
            f += 1;
        }
        assert forall|s2: int, f2: int|
            0 <= s2 < kv.len() && 0 <= f2 < kv[s2].len() && (#[trigger] kv[s2][f2]).target_spec()
                == Some(e as usize) && pair_lt(s2, f2, s + 1, 0)
            implies exists|b: int| 0 <= b < out@.len() && (#[trigger] out@[b]).source == s2 && out@[b].field == f2 by {
            assert(kv[s as int] == kinds@[s as int]@);
            assert(pair_lt(s2, f2, s as int, f as int));
        }
        s += 1;
    }
    assert forall|s2: int, f2: int|
        0 <= s2 < kv.len() && 0 <= f2 < kv[s2].len() && (#[trigger] kv[s2][f2]).target_spec() == Some(e as usize)
        implies exists|b: int| 0 <= b < out@.len() && (#[trigger] out@[b]).source == s2 && out@[b].field == f2 by {
        assert(pair_lt(s2, f2, s as int, 0));
    }
    out
}

proof fn lemma_kind_target_in_range(decls: Seq<EntityDecl>, i: int, j: int)
    ensures
        match kind_of(decls, i, j) {
            Ok(k) => match k.target_spec() {
                Some(t) => t < decls.len(),
                None => true,
            },
            Err(_) => true,
        },
{
    if let Ok(Some(kt)) = classify_spec(&decls[i].fields@[j].ty) {
        if exists|t: int| is_first_named(decls, kt.target(), t) {
            let t = choose|t: int| is_first_named(decls, kt.target(), t);
            assert(is_first_named(decls, kt.target(), t));
        }
    }
}

proof fn lemma_kind_error_location(decls: Seq<EntityDecl>, i: int, j: int, e: SchemaError)
    requires
        0 <= i < decls.len(),
        0 <= j < decls[i].fields@.len(),
        i <= usize::MAX,
        j <= usize::MAX,
        kind_of(decls, i, j) == Err::<FieldKind, SchemaError>(e),
    ensures
        match e {
            SchemaError::UnsupportedGenericEntity { .. } => false,
            SchemaError::MalformedReferenceType { entity, field }
            | SchemaError::InvalidReferenceTarget { entity, field }
            | SchemaError::UnknownReferenceTarget { entity, field } => entity == i && field == j,
        },
{
    match classify_spec(&decls[i].fields@[j].ty) {
        Ok(Some(kt)) => {
            if first_named(decls, kt.target()).is_none() {
                assert(e == SchemaError::UnknownReferenceTarget { entity: i as usize, field: j as usize });
            }
        },
        _ => {},
    }
}

/// Analyses entity declarations: rejects generic declarations and key types
/// that do not resolve, classifies every field, and lists for each entity the
/// relationships that target it, with their back-reference names.
pub fn analyze(decls: &Vec<EntityDecl>) -> (r: Result<Schema, SchemaError>)
    ensures
        r.is_ok() == decls_ok(decls@),
        match r {
            Ok(s) => analysis_of(decls@, s),
            Err(e) => analysis_error(decls@, e),
        },
{
    let n = decls.len();
    let mut i: usize = 0;
    while i < n
        invariant
            n == decls@.len(),
            i <= n,
            forall|k: int| 0 <= k < i ==> (#[trigger] decls@[k]).generic_params == 0,
        decreases n - i,
    {
        if decls[i].generic_params != 0 {
            return Err(SchemaError::UnsupportedGenericEntity { entity: i });
        }
        i += 1;
    }
    let mut kinds: Vec<Vec<FieldKind>> = Vec::new();
    i = 0;
    while i < n
        invariant
            n == decls@.len(),
            generics_ok(decls@),
            i <= n,
            kinds@.len() == i,
            entities_ok_upto(decls@, i as int),
            forall|s: int| 0 <= s < i ==> (#[trigger] kinds@[s])@.len() == decls@[s].fields@.len(),
            forall|s: int, j: int| 0 <= s < i && 0 <= j < kinds@[s]@.len()
                ==> Ok::<FieldKind, SchemaError>(#[trigger] kinds@[s]@[j]) == kind_of(decls@, s, j),
        decreases n - i,
    {
        match parse_fields(decls, i) {
            Ok(v) => {
                kinds.push(v);
            },
            Err(e) => {
                let ghost j = choose|j: int|
                    0 <= j < decls@[i as int].fields@.len() && fields_ok_upto(decls@, i as int, j)
                        && #[trigger] kind_of(decls@, i as int, j) == Err::<FieldKind, SchemaError>(e);
                proof {
                    let fs = &decls@[i as int].fields;
                    assert(fs@.len() == fs.len());
                    lemma_kind_error_location(decls@, i as int, j, e);
                }
                assert(analysis_error(decls@, e));
                assert(!entities_ok_upto(decls@, n as int)) by {
                    assert(!(#[trigger] kind_of(decls@, i as int, j)).is_ok());
                    assert(!fields_ok_upto(decls@, i as int, decls@[i as int].fields@.len() as int));
                }
                return Err(e);
            },
        }
        i += 1;
    }
    let ghost kv = kinds_seq(kinds@);
    let mut entities: Vec<Entity> = Vec::new();
    let mut e: usize = 0;
    while e < n
        invariant
            n == decls@.len(),
            kinds@.len() == n,
            kv == kinds_seq(kinds@),
            forall|s: int| 0 <= s < n ==> (#[trigger] kinds@[s])@.len() == decls@[s].fields@.len(),
            forall|s: int, j: int| 0 <= s < n && 0 <= j < kinds@[s]@.len()
                ==> Ok::<FieldKind, SchemaError>(#[trigger] kinds@[s]@[j]) == kind_of(decls@, s, j),
            e <= n,
            entities@.len() == e,
            forall|k: int| 0 <= k < e ==> {
                let en = #[trigger] entities@[k];
                &&& en.name@ == decls@[k].name@
                &&& en.table_name@ == snake_case_of(decls@[k].name@)
                &&& en.fields@.len() == decls@[k].fields@.len()
                &&& forall|j: int| 0 <= j < en.fields@.len() ==> {
                    &&& (#[trigger] en.fields@[j]).name@ == decls@[k].fields@[j].name@
                    &&& en.fields@[j].kind == kinds@[k]@[j]
                }
                &&& backrefs_exact(kv, k, en.backrefs@)
                &&& forall|b: int| 0 <= b < en.backrefs@.len() ==> {
                    let br = #[trigger] en.backrefs@[b];
                    br.name@ == backref_name_spec(decls@[br.source as int].fields@[br.field as int].name@)
                }
            },
        decreases n - e,
    {
        let mut fields: Vec<Field> = Vec::new();
        let m = decls[e].fields.len();
        let mut j: usize = 0;
        while j < m
            invariant
                n == decls@.len(),
                kinds@.len() == n,
                e < n,
                m == decls@[e as int].fields@.len(),
                kinds@[e as int]@.len() == m,
                j <= m,
                fields@.len() == j,
                forall|k: int| 0 <= k < j ==> {
                    &&& (#[trigger] fields@[k]).name@ == decls@[e as int].fields@[k].name@
                    &&& fields@[k].kind == kinds@[e as int]@[k]
                },
            decreases m - j,
        {
            fields.push(Field { name: decls[e].fields[j].name.clone(), kind: kinds[e][j] });
            j += 1;
        }
        let backrefs = collect_backrefs(decls, &kinds, e);
        entities.push(
            Entity { name: decls[e].name.clone(), table_name: table_name(&decls[e].name), fields, backrefs },
        );
        e += 1;
    }
    let s = Schema { entities };
    assert(s.kinds() =~= kv) by {
        assert forall|k: int| 0 <= k < n implies #[trigger] s.kinds()[k] =~= kv[k] by {
            assert(s.kinds()[k] =~= s.entities_spec()[k].fields@.map_values(|f: Field| f.kind));
        }
    }
    assert forall|k: int, j: int| 0 <= k < s.kinds().len() && 0 <= j < s.kinds()[k].len() implies match (
    #[trigger] s.kinds()[k][j]).target_spec() {
        Some(t) => t < s.kinds().len(),
        None => true,
    } by {
        assert(Ok::<FieldKind, SchemaError>(kinds@[k]@[j]) == kind_of(decls@, k, j));
        lemma_kind_target_in_range(decls@, k, j);
    }
    assert(entities_ok_upto(decls@, n as int));
    Ok(s)
}

} // verus!

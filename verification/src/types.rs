//! Types: what they are, how they are written, and which ones go together.
pub mod laws;

use crate::ast::{TypeDecl, TypeExpr};
use crate::text;
use vstd::prelude::*;
use vstd::string::*;

verus! {

/// A resolved type.
///
/// `Unknown` is the hole of inference and error recovery: it is compatible with
/// everything, so that only an error which is certain is reported.
#[derive(Debug, PartialEq)]
pub enum Type {
    Int,
    Float,
    Bool,
    Str,
    Unit,
    /// An opaque or declared type, by its name.
    Named(String),
    Record(Vec<(String, Type)>),
    Result(Box<Type>, Box<Type>),
    Unknown,
}

/// The type that a `Type` value stands for.
pub enum TypeModel {
    Int,
    Float,
    Bool,
    Str,
    Unit,
    Named(Seq<char>),
    Record(Seq<(Seq<char>, TypeModel)>),
    Result(Box<TypeModel>, Box<TypeModel>),
    Unknown,
}

/// The fields of a record.
pub open spec fn fields_model(fields: Seq<(String, Type)>) -> Seq<(Seq<char>, TypeModel)>
    decreases fields,
{
    if fields.len() == 0 {
        Seq::empty()
    } else {
        fields_model(fields.drop_last()).push((fields.last().0@, fields.last().1.model()))
    }
}

impl Type {
    /// The type that this value stands for.
    pub open spec fn model(self) -> TypeModel
        decreases self,
    {
        match self {
            Type::Int => TypeModel::Int,
            Type::Float => TypeModel::Float,
            Type::Bool => TypeModel::Bool,
            Type::Str => TypeModel::Str,
            Type::Unit => TypeModel::Unit,
            Type::Named(n) => TypeModel::Named(n@),
            Type::Record(fields) => TypeModel::Record(fields_model(fields@)),
            Type::Result(a, b) => TypeModel::Result(Box::new(a.model()), Box::new(b.model())),
            Type::Unknown => TypeModel::Unknown,
        }
    }
}

impl View for Type {
    type V = TypeModel;

    open spec fn view(&self) -> TypeModel {
        self.model()
    }
}

/// Each field of a record stands at its own place.
pub proof fn lemma_fields_model(fields: Seq<(String, Type)>)
    ensures
        fields_model(fields).len() == fields.len(),
        forall|i: int|
            #![trigger fields_model(fields)[i]]
            0 <= i < fields.len() ==> fields_model(fields)[i] == (
                fields[i].0@,
                fields[i].1@,
            ),
    decreases fields.len(),
{
    if fields.len() > 0 {
        lemma_fields_model(fields.drop_last());
    }
}

impl Clone for Type {
    fn clone(&self) -> (r: Type)
        ensures
            r@ == self@,
        decreases self,
    {
        match self {
            Type::Int => Type::Int,
            Type::Float => Type::Float,
            Type::Bool => Type::Bool,
            Type::Str => Type::Str,
            Type::Unit => Type::Unit,
            Type::Named(n) => Type::Named(n.clone()),
            Type::Record(fields) => {
                let mut out: Vec<(String, Type)> = Vec::new();
                let n: usize = fields.len();
                let mut i: usize = 0;
                while i < n
                    invariant
                        n == fields.len(),
                        i <= n,
                        *self == Type::Record(*fields),
                        fields_model(out@) == fields_model(fields@.take(i as int)),
                    decreases n - i,
                {
                    let field: &(String, Type) = &fields[i];
                    assert(decreases_to!(*fields => fields[i as int]));
                    assert(decreases_to!(fields[i as int] => fields[i as int].1));
                    assert(decreases_to!(*self => self->Record_0));
                    let ghost done = out@;
                    out.push((field.0.clone(), field.1.clone()));
                    i = i + 1;
                    assert(out@.drop_last() =~= done);
                    assert(fields@.take(i as int).drop_last() =~= fields@.take(i - 1));
                }
                assert(fields@.take(n as int) =~= fields@);
                Type::Record(out)
            },
            Type::Result(a, b) => Type::Result(
                Box::new((&**a).clone()),
                Box::new((&**b).clone()),
            ),
            Type::Unknown => Type::Unknown,
        }
    }
}

// ----- how a type is written -----

/// The way a type is printed.
pub open spec fn shown(t: TypeModel) -> Seq<char>
    decreases t,
{
    match t {
        TypeModel::Int => "Int"@,
        TypeModel::Float => "Float"@,
        TypeModel::Bool => "Bool"@,
        TypeModel::Str => "String"@,
        TypeModel::Unit => "Unit"@,
        TypeModel::Named(n) => n,
        TypeModel::Record(fields) => "{ "@ + text::joined(shown_fields(fields), ", "@) + " }"@,
        TypeModel::Result(a, b) => "Result<"@ + shown(*a) + ", "@ + shown(*b) + ">"@,
        TypeModel::Unknown => "?"@,
    }
}

/// The way the fields of a record are printed, one by one.
pub open spec fn shown_fields(fields: Seq<(Seq<char>, TypeModel)>) -> Seq<Seq<char>>
    decreases fields,
{
    if fields.len() == 0 {
        Seq::empty()
    } else {
        shown_fields(fields.drop_last()).push(fields.last().0 + ": "@ + shown(fields.last().1))
    }
}

impl Type {
    /// Prints the type.
    pub fn display(&self) -> (r: String)
        ensures
            r@ == shown(self@),
        decreases self,
    {
        match self {
            Type::Int => "Int".to_string(),
            Type::Float => "Float".to_string(),
            Type::Bool => "Bool".to_string(),
            Type::Str => "String".to_string(),
            Type::Unit => "Unit".to_string(),
            Type::Named(n) => n.clone(),
            Type::Record(fields) => {
                let mut inner: Vec<String> = Vec::new();
                let n: usize = fields.len();
                let mut i: usize = 0;
                while i < n
                    invariant
                        n == fields.len(),
                        i <= n,
                        *self == Type::Record(*fields),
                        text::texts(inner@) =~= shown_fields(fields_model(fields@.take(i as int))),
                    decreases n - i,
                {
                    assert(decreases_to!(*fields => fields[i as int]));
                    assert(decreases_to!(fields[i as int] => fields[i as int].1));
                    assert(decreases_to!(*self => self->Record_0));
                    let mut part: String = fields[i].0.clone();
                    part.append(": ");
                    part.append(fields[i].1.display().as_str());
                    let ghost done = text::texts(inner@);
                    inner.push(part);
                    i = i + 1;
                    proof {
                        assert(text::texts(inner@) =~= done.push(part@));
                        assert(fields@.take(i as int).drop_last() =~= fields@.take(i - 1));
                        let now = fields_model(fields@.take(i as int));
                        assert(now.drop_last() =~= fields_model(fields@.take(i - 1)));
                    }
                }
                assert(fields@.take(n as int) =~= fields@);
                let mut out: String = "{ ".to_string();
                out.append(text::join(&inner, ", ").as_str());
                out.append(" }");
                out
            },
            Type::Result(a, b) => {
                let mut out: String = "Result<".to_string();
                out.append(a.display().as_str());
                out.append(", ");
                out.append(b.display().as_str());
                out.append(">");
                out
            },
            Type::Unknown => "?".to_string(),
        }
    }
}

// ----- types that can be written -----

/// Nothing in the type is unknown, so that it can be written down.
pub open spec fn known(t: TypeModel) -> bool
    decreases t,
{
    match t {
        TypeModel::Unknown => false,
        TypeModel::Record(fields) => known_fields(fields),
        TypeModel::Result(a, b) => known(*a) && known(*b),
        _ => true,
    }
}

/// Nothing in the types of some fields is unknown.
pub open spec fn known_fields(fields: Seq<(Seq<char>, TypeModel)>) -> bool
    decreases fields,
{
    fields.len() == 0 || (known_fields(fields.drop_last()) && known(fields.last().1))
}

/// The type with `Unit` in place of everything unknown.
pub open spec fn filled(t: TypeModel) -> TypeModel
    decreases t,
{
    match t {
        TypeModel::Unknown => TypeModel::Unit,
        TypeModel::Record(fields) => TypeModel::Record(filled_fields(fields)),
        TypeModel::Result(a, b) => TypeModel::Result(Box::new(filled(*a)), Box::new(filled(*b))),
        _ => t,
    }
}

/// The fields with `Unit` in place of everything unknown in their types.
pub open spec fn filled_fields(fields: Seq<(Seq<char>, TypeModel)>) -> Seq<(Seq<char>, TypeModel)>
    decreases fields,
{
    if fields.len() == 0 {
        Seq::empty()
    } else {
        filled_fields(fields.drop_last()).push((fields.last().0, filled(fields.last().1)))
    }
}

/// A type that can be written and that goes with `t`: what is unknown in a
/// result is taken from `hint` where that is a result too, and is `Unit`
/// elsewhere.
pub open spec fn fitted(t: TypeModel, hint: TypeModel) -> TypeModel
    decreases t,
{
    match (t, hint) {
        (TypeModel::Unknown, _) => filled(hint),
        (TypeModel::Result(a, b), TypeModel::Result(c, d)) => TypeModel::Result(
            Box::new(fitted(*a, *c)),
            Box::new(fitted(*b, *d)),
        ),
        _ => filled(t),
    }
}

/// Each filled field stands at its own place.
pub proof fn lemma_filled_fields(fields: Seq<(Seq<char>, TypeModel)>)
    ensures
        filled_fields(fields).len() == fields.len(),
        forall|i: int|
            #![trigger filled_fields(fields)[i]]
            0 <= i < fields.len() ==> filled_fields(fields)[i] == (
                fields[i].0,
                filled(fields[i].1),
            ),
    decreases fields.len(),
{
    if fields.len() > 0 {
        lemma_filled_fields(fields.drop_last());
    }
}

proof fn lemma_filled_known(t: TypeModel)
    ensures
        known(filled(t)),
    decreases t,
{
    match t {
        TypeModel::Record(fields) => {
            lemma_filled_fields_known(fields);
        },
        TypeModel::Result(a, b) => {
            lemma_filled_known(*a);
            lemma_filled_known(*b);
        },
        _ => {},
    }
}

proof fn lemma_filled_fields_known(fields: Seq<(Seq<char>, TypeModel)>)
    ensures
        known_fields(filled_fields(fields)),
    decreases fields,
{
    if fields.len() > 0 {
        lemma_filled_fields_known(fields.drop_last());
        lemma_filled_known(fields.last().1);
        let all = filled_fields(fields);
        assert(all.drop_last() =~= filled_fields(fields.drop_last()));
    }
}

/// A fitted type can be written.
pub proof fn law_fitted_can_be_written(t: TypeModel, hint: TypeModel)
    ensures
        known(fitted(t, hint)),
    decreases t,
{
    match (t, hint) {
        (TypeModel::Unknown, _) => {
            lemma_filled_known(hint);
        },
        (TypeModel::Result(a, b), TypeModel::Result(c, d)) => {
            law_fitted_can_be_written(*a, *c);
            law_fitted_can_be_written(*b, *d);
        },
        _ => {
            lemma_filled_known(t);
        },
    }
}

impl Type {
    /// The type with `Unit` in place of everything unknown.
    pub fn filled(&self) -> (r: Type)
        ensures
            r@ == filled(self@),
        decreases self,
    {
        match self {
            Type::Unknown => Type::Unit,
            Type::Record(fields) => {
                let mut out: Vec<(String, Type)> = Vec::new();
                let n: usize = fields.len();
                let mut i: usize = 0;
                while i < n
                    invariant
                        n == fields.len(),
                        i <= n,
                        *self == Type::Record(*fields),
                        fields_model(out@) == filled_fields(fields_model(fields@.take(i as int))),
                    decreases n - i,
                {
                    assert(decreases_to!(*fields => fields[i as int]));
                    assert(decreases_to!(fields[i as int] => fields[i as int].1));
                    assert(decreases_to!(*self => self->Record_0));
                    let ghost done = out@;
                    out.push((fields[i].0.clone(), fields[i].1.filled()));
                    i = i + 1;
                    proof {
                        assert(out@.drop_last() =~= done);
                        assert(fields@.take(i as int).drop_last() =~= fields@.take(i - 1));
                        let now = fields_model(fields@.take(i as int));
                        assert(now.drop_last() =~= fields_model(fields@.take(i - 1)));
                    }
                }
                assert(fields@.take(n as int) =~= fields@);
                Type::Record(out)
            },
            Type::Result(a, b) => Type::Result(Box::new(a.filled()), Box::new(b.filled())),
            other => other.clone(),
        }
    }

    /// A type that can be written and that goes with this one; `hint` tells what
    /// to write for an unknown part of a result.
    pub fn fitted(&self, hint: &Type) -> (r: Type)
        ensures
            r@ == fitted(self@, hint@),
        decreases self,
    {
        match (self, hint) {
            (Type::Unknown, _) => hint.filled(),
            (Type::Result(a, b), Type::Result(c, d)) => Type::Result(
                Box::new(a.fitted(c)),
                Box::new(b.fitted(d)),
            ),
            _ => self.filled(),
        }
    }
}

/// The type that a written type denotes. The scalar names and `Result` are
/// known; every other name stands for itself.
pub open spec fn resolved(t: TypeExpr) -> TypeModel
    decreases t,
{
    match t {
        TypeExpr::Record { fields, .. } => TypeModel::Record(resolved_fields(fields@)),
        TypeExpr::Name { name, args, .. } => if name@ == "Int"@ {
            TypeModel::Int
        } else if name@ == "Float"@ {
            TypeModel::Float
        } else if name@ == "Bool"@ {
            TypeModel::Bool
        } else if name@ == "String"@ {
            TypeModel::Str
        } else if name@ == "Unit"@ {
            TypeModel::Unit
        } else if name@ == "Result"@ {
            TypeModel::Result(
                Box::new(
                    if args@.len() > 0 {
                        resolved(args@[0])
                    } else {
                        TypeModel::Unknown
                    },
                ),
                Box::new(
                    if args@.len() > 1 {
                        resolved(args@[1])
                    } else {
                        TypeModel::Unknown
                    },
                ),
            )
        } else {
            TypeModel::Named(name@)
        },
    }
}

/// The fields that written fields denote.
pub open spec fn resolved_fields(fields: Seq<(String, TypeExpr)>) -> Seq<(Seq<char>, TypeModel)>
    decreases fields,
{
    if fields.len() == 0 {
        Seq::empty()
    } else {
        resolved_fields(fields.drop_last()).push((fields.last().0@, resolved(fields.last().1)))
    }
}

/// The type that an optional written type denotes.
pub open spec fn resolved_opt(t: Option<TypeExpr>) -> Option<TypeModel> {
    match t {
        Some(e) => Some(resolved(e)),
        None => None,
    }
}

/// Resolves a written type.
pub fn type_from_ast(t: &TypeExpr) -> (r: Type)
    ensures
        r@ == resolved(*t),
    decreases t,
{
    match t {
        TypeExpr::Record { fields, .. } => {
            let mut out: Vec<(String, Type)> = Vec::new();
            let n: usize = fields.len();
            let mut i: usize = 0;
            while i < n
                invariant
                    n == fields.len(),
                    i <= n,
                    t is Record,
                    t->fields == *fields,
                    fields_model(out@) == resolved_fields(fields@.take(i as int)),
                decreases n - i,
            {
                assert(decreases_to!(*fields => fields[i as int]));
                assert(decreases_to!(fields[i as int] => fields[i as int].1));
                assert(decreases_to!(*t => t->fields));
                let ghost done = out@;
                out.push((fields[i].0.clone(), type_from_ast(&fields[i].1)));
                i = i + 1;
                assert(out@.drop_last() =~= done);
                assert(fields@.take(i as int).drop_last() =~= fields@.take(i - 1));
            }
            assert(fields@.take(n as int) =~= fields@);
            Type::Record(out)
        },
        TypeExpr::Name { name, args, .. } => {
            if text::same(name, "Int") {
                Type::Int
            } else if text::same(name, "Float") {
                Type::Float
            } else if text::same(name, "Bool") {
                Type::Bool
            } else if text::same(name, "String") {
                Type::Str
            } else if text::same(name, "Unit") {
                Type::Unit
            } else if text::same(name, "Result") {
                let a: Type = if args.len() > 0 {
                    assert(decreases_to!(*args => args[0]));
                    assert(decreases_to!(*t => t->args));
                    type_from_ast(&args[0])
                } else {
                    Type::Unknown
                };
                let b: Type = if args.len() > 1 {
                    assert(decreases_to!(*args => args[1]));
                    assert(decreases_to!(*t => t->args));
                    type_from_ast(&args[1])
                } else {
                    Type::Unknown
                };
                Type::Result(Box::new(a), Box::new(b))
            } else {
                Type::Named(name.clone())
            }
        },
    }
}

// ----- declared records -----

/// The declared records by name: what each one's fields are.
pub type Records = Map<Seq<char>, Seq<(Seq<char>, TypeModel)>>;

#[derive(Clone, Debug)]
struct RecordDecl {
    name: String,
    fields: Vec<(String, Type)>,
}

spec fn declared(decls: Seq<RecordDecl>) -> Records
    decreases decls.len(),
{
    if decls.len() == 0 {
        Map::empty()
    } else {
        declared(decls.drop_last()).insert(decls.last().name@, fields_model(decls.last().fields@))
    }
}

/// The declared record types, by which a name is resolved to its fields.
#[derive(Clone, Debug)]
pub struct TypeRegistry {
    records: Vec<RecordDecl>,
}

impl View for TypeRegistry {
    type V = Records;

    closed spec fn view(&self) -> Records {
        declared(self.records@)
    }
}

/// The registry after a declaration: a record is entered under its name, any
/// other type leaves the registry as it is.
pub open spec fn with_decl(reg: Records, d: TypeDecl) -> Records {
    match resolved(d.ty) {
        TypeModel::Record(fields) => reg.insert(d.name@, fields),
        _ => reg,
    }
}

impl TypeRegistry {
    /// The registry without records.
    pub fn new() -> (r: TypeRegistry)
        ensures
            r@ == Map::<Seq<char>, Seq<(Seq<char>, TypeModel)>>::empty(),
    {
        TypeRegistry { records: Vec::new() }
    }

    /// Enters a declaration. A later one under the same name replaces it.
    pub fn add_decl(&mut self, d: &TypeDecl)
        ensures
            final(self)@ == with_decl(old(self)@, *d),
    {
        if let Type::Record(fields) = type_from_ast(&d.ty) {
            let ghost was = self.records@;
            self.records.push(RecordDecl { name: d.name.clone(), fields });
            assert(self.records@.drop_last() =~= was);
        }
    }

    /// The fields of a declared record.
    pub fn record_fields(&self, name: &str) -> (r: Option<&Vec<(String, Type)>>)
        ensures
            r is Some <==> self@.dom().contains(name@),
            r matches Some(fields) ==> fields_model(fields@) == self@[name@],
    {
        let n: usize = self.records.len();
        let mut i: usize = n;
        assert(self.records@.take(n as int) =~= self.records@);
        while i > 0
            invariant
                n == self.records.len(),
                i <= n,
                declared(self.records@.take(i as int)).dom().contains(name@)
                    == self@.dom().contains(name@),
                self@.dom().contains(name@) ==> declared(self.records@.take(i as int))[name@]
                    == self@[name@],
            decreases i,
        {
            assert(self.records@.take(i as int).drop_last() =~= self.records@.take(i - 1));
            if text::same(&self.records[i - 1].name, name) {
                return Some(&self.records[i - 1].fields);
            }
            i = i - 1;
        }
        None
    }

    /// Whether a record is declared under a name.
    pub fn is_known(&self, name: &str) -> (r: bool)
        ensures
            r == self@.dom().contains(name@),
    {
        self.record_fields(name).is_some()
    }
}

impl Default for TypeRegistry {
    fn default() -> (r: TypeRegistry)
        ensures
            r@ == Map::<Seq<char>, Seq<(Seq<char>, TypeModel)>>::empty(),
    {
        TypeRegistry::new()
    }
}

proof fn lemma_declared_finite(decls: Seq<RecordDecl>)
    ensures
        declared(decls).dom().finite(),
    decreases decls.len(),
{
    if decls.len() > 0 {
        lemma_declared_finite(decls.drop_last());
    }
}

/// A registry holds finitely many records.
pub proof fn law_registry_is_finite(reg: TypeRegistry)
    ensures
        reg@.dom().finite(),
{
    lemma_declared_finite(reg.records@);
}

// ----- compatibility -----

/// Compares two types, looking at most `depth` levels deep: `None` where that is
/// not deep enough. A declared record can refer to itself, so there are
/// comparisons that no depth is enough for.
///
/// `Unknown` goes with everything, a name with the same name. A name facing any
/// other type is resolved to the record it was declared as. Two records go
/// together when they have as many fields and every field of the first has a
/// field of the same name in the second that it is compatible with.
pub open spec fn compare(a: TypeModel, b: TypeModel, reg: Records, depth: nat) -> Option<bool>
    decreases depth, 0nat, 0nat,
{
    if depth == 0 {
        None
    } else {
        let below = (depth - 1) as nat;
        match (a, b) {
            (TypeModel::Unknown, _) => Some(true),
            (_, TypeModel::Unknown) => Some(true),
            (TypeModel::Int, TypeModel::Int) => Some(true),
            (TypeModel::Float, TypeModel::Float) => Some(true),
            (TypeModel::Bool, TypeModel::Bool) => Some(true),
            (TypeModel::Str, TypeModel::Str) => Some(true),
            (TypeModel::Unit, TypeModel::Unit) => Some(true),
            (TypeModel::Named(x), TypeModel::Named(y)) => Some(x == y),
            (TypeModel::Named(x), _) => if reg.dom().contains(x) {
                compare(TypeModel::Record(reg[x]), b, reg, below)
            } else {
                Some(false)
            },
            (_, TypeModel::Named(y)) => if reg.dom().contains(y) {
                compare(TypeModel::Record(reg[y]), a, reg, below)
            } else {
                Some(false)
            },
            (TypeModel::Result(a1, a2), TypeModel::Result(b1, b2)) => match compare(
                *a1,
                *b1,
                reg,
                below,
            ) {
                Some(true) => compare(*a2, *b2, reg, below),
                other => other,
            },
            (TypeModel::Record(fa), TypeModel::Record(fb)) => if fa.len() == fb.len() {
                compare_all(fa, 0, fb, reg, below)
            } else {
                Some(false)
            },
            _ => Some(false),
        }
    }
}

/// Whether every field of `fa` from `i` on has its match in `fb`, asked in order.
pub open spec fn compare_all(
    fa: Seq<(Seq<char>, TypeModel)>,
    i: nat,
    fb: Seq<(Seq<char>, TypeModel)>,
    reg: Records,
    depth: nat,
) -> Option<bool>
    decreases depth, 2nat, fa.len() - i,
{
    if i >= fa.len() {
        Some(true)
    } else {
        match compare_any(fa[i as int], fb, 0, reg, depth) {
            Some(true) => compare_all(fa, i + 1, fb, reg, depth),
            other => other,
        }
    }
}

/// Whether a field matches one of `fb` from `j` on, asked in order.
pub open spec fn compare_any(
    f: (Seq<char>, TypeModel),
    fb: Seq<(Seq<char>, TypeModel)>,
    j: nat,
    reg: Records,
    depth: nat,
) -> Option<bool>
    decreases depth, 1nat, fb.len() - j,
{
    if j >= fb.len() {
        Some(false)
    } else if f.0 == fb[j as int].0 {
        match compare(f.1, fb[j as int].1, reg, depth) {
            Some(false) => compare_any(f, fb, j + 1, reg, depth),
            other => other,
        }
    } else {
        compare_any(f, fb, j + 1, reg, depth)
    }
}

/// The comparison of two types comes to an end, within what a machine can count.
pub open spec fn comparable(a: TypeModel, b: TypeModel, reg: Records) -> bool {
    compare(a, b, reg, u64::MAX as nat) is Some
}

/// The outcome of a comparison that comes to an end.
pub open spec fn goes_with(a: TypeModel, b: TypeModel, reg: Records) -> bool {
    compare(a, b, reg, u64::MAX as nat) == Some(true)
}

/// Compares two types as deep as `depth`, and says `None` where that is not deep
/// enough.
pub fn compatible_within(a: &Type, b: &Type, reg: &TypeRegistry, depth: u64) -> (r: Option<bool>)
    ensures
        r == compare(a@, b@, reg@, depth as nat),
    decreases depth, 0nat, 0nat,
{
    if depth == 0 {
        return None;
    }
    match (a, b) {
        (Type::Unknown, _) => Some(true),
        (_, Type::Unknown) => Some(true),
        (Type::Int, Type::Int) => Some(true),
        (Type::Float, Type::Float) => Some(true),
        (Type::Bool, Type::Bool) => Some(true),
        (Type::Str, Type::Str) => Some(true),
        (Type::Unit, Type::Unit) => Some(true),
        (Type::Named(x), Type::Named(y)) => Some(*x == *y),
        (Type::Named(x), _) => match reg.record_fields(x.as_str()) {
            Some(fields) => {
                let record: Type = Type::Record(copy_fields(fields));
                compatible_within(&record, b, reg, depth - 1)
            },
            None => Some(false),
        },
        (_, Type::Named(y)) => match reg.record_fields(y.as_str()) {
            Some(fields) => {
                let record: Type = Type::Record(copy_fields(fields));
                compatible_within(&record, a, reg, depth - 1)
            },
            None => Some(false),
        },
        (Type::Result(a1, a2), Type::Result(b1, b2)) => match compatible_within(
            a1,
            b1,
            reg,
            depth - 1,
        ) {
            Some(true) => compatible_within(a2, b2, reg, depth - 1),
            other => other,
        },
        (Type::Record(fa), Type::Record(fb)) => {
            proof {
                lemma_fields_model(fa@);
                lemma_fields_model(fb@);
            }
            if fa.len() == fb.len() {
                all_within(fa, 0, fb, reg, depth - 1)
            } else {
                Some(false)
            }
        },
        _ => Some(false),
    }
}

fn all_within(
    fa: &Vec<(String, Type)>,
    i: usize,
    fb: &Vec<(String, Type)>,
    reg: &TypeRegistry,
    depth: u64,
) -> (r: Option<bool>)
    requires
        i <= fa@.len(),
    ensures
        r == compare_all(fields_model(fa@), i as nat, fields_model(fb@), reg@, depth as nat),
    decreases depth, 2nat, fa@.len() - i,
{
    proof {
        lemma_fields_model(fa@);
    }
    if i >= fa.len() {
        Some(true)
    } else {
        match any_within(&fa[i], fb, 0, reg, depth) {
            Some(true) => all_within(fa, i + 1, fb, reg, depth),
            other => other,
        }
    }
}

fn any_within(
    f: &(String, Type),
    fb: &Vec<(String, Type)>,
    j: usize,
    reg: &TypeRegistry,
    depth: u64,
) -> (r: Option<bool>)
    requires
        j <= fb@.len(),
    ensures
        r == compare_any((f.0@, f.1@), fields_model(fb@), j as nat, reg@, depth as nat),
    decreases depth, 1nat, fb@.len() - j,
{
    proof {
        lemma_fields_model(fb@);
    }
    if j >= fb.len() {
        Some(false)
    } else if f.0 == fb[j].0 {
        match compatible_within(&f.1, &fb[j].1, reg, depth) {
            Some(false) => any_within(f, fb, j + 1, reg, depth),
            other => other,
        }
    } else {
        any_within(f, fb, j + 1, reg, depth)
    }
}

/// A copy of the fields of a record.
pub fn copy_fields(fields: &Vec<(String, Type)>) -> (r: Vec<(String, Type)>)
    ensures
        fields_model(r@) == fields_model(fields@),
{
    let mut out: Vec<(String, Type)> = Vec::new();
    let n: usize = fields.len();
    let mut i: usize = 0;
    while i < n
        invariant
            n == fields.len(),
            i <= n,
            fields_model(out@) == fields_model(fields@.take(i as int)),
        decreases n - i,
    {
        let ghost done = out@;
        out.push((fields[i].0.clone(), fields[i].1.clone()));
        i = i + 1;
        assert(out@.drop_last() =~= done);
        assert(fields@.take(i as int).drop_last() =~= fields@.take(i - 1));
    }
    assert(fields@.take(n as int) =~= fields@);
    out
}

/// Whether two types go together. The comparison must come to an end, which it
/// does unless declared records nest in each other without bound.
pub fn compatible(a: &Type, b: &Type, reg: &TypeRegistry) -> (r: bool)
    requires
        comparable(a@, b@, reg@),
    ensures
        r == goes_with(a@, b@, reg@),
{
    match compatible_within(a, b, reg, u64::MAX) {
        Some(verdict) => verdict,
        None => false,
    }
}

// ----- laws of compatibility -----

/// A comparison that comes to an end has the same outcome at every greater depth.
pub proof fn law_depth_is_immaterial(a: TypeModel, b: TypeModel, reg: Records, n: nat, m: nat)
    requires
        compare(a, b, reg, n) is Some,
        n <= m,
    ensures
        compare(a, b, reg, m) == compare(a, b, reg, n),
    decreases n, 0nat, 0nat,
{
    let below = (n - 1) as nat;
    let above = (m - 1) as nat;
    match (a, b) {
        (TypeModel::Unknown, _) => {},
        (_, TypeModel::Unknown) => {},
        (TypeModel::Named(x), TypeModel::Named(y)) => {},
        (TypeModel::Named(x), _) => if reg.dom().contains(x) {
            law_depth_is_immaterial(TypeModel::Record(reg[x]), b, reg, below, above);
        },
        (_, TypeModel::Named(y)) => if reg.dom().contains(y) {
            law_depth_is_immaterial(TypeModel::Record(reg[y]), a, reg, below, above);
        },
        (TypeModel::Result(a1, a2), TypeModel::Result(b1, b2)) => {
            law_depth_is_immaterial(*a1, *b1, reg, below, above);
            if compare(*a1, *b1, reg, below) == Some(true) {
                law_depth_is_immaterial(*a2, *b2, reg, below, above);
            }
        },
        (TypeModel::Record(fa), TypeModel::Record(fb)) => if fa.len() == fb.len() {
            lemma_depth_all(fa, 0, fb, reg, below, above);
        },
        _ => {},
    }
}

proof fn lemma_depth_all(
    fa: Seq<(Seq<char>, TypeModel)>,
    i: nat,
    fb: Seq<(Seq<char>, TypeModel)>,
    reg: Records,
    n: nat,
    m: nat,
)
    requires
        compare_all(fa, i, fb, reg, n) is Some,
        n <= m,
    ensures
        compare_all(fa, i, fb, reg, m) == compare_all(fa, i, fb, reg, n),
    decreases n, 2nat, fa.len() - i,
{
    if i < fa.len() {
        lemma_depth_any(fa[i as int], fb, 0, reg, n, m);
        if compare_any(fa[i as int], fb, 0, reg, n) == Some(true) {
            lemma_depth_all(fa, i + 1, fb, reg, n, m);
        }
    }
}

proof fn lemma_depth_any(
    f: (Seq<char>, TypeModel),
    fb: Seq<(Seq<char>, TypeModel)>,
    j: nat,
    reg: Records,
    n: nat,
    m: nat,
)
    requires
        compare_any(f, fb, j, reg, n) is Some,
        n <= m,
    ensures
        compare_any(f, fb, j, reg, m) == compare_any(f, fb, j, reg, n),
    decreases n, 1nat, fb.len() - j,
{
    if j < fb.len() {
        if f.0 == fb[j as int].0 {
            law_depth_is_immaterial(f.1, fb[j as int].1, reg, n, m);
            if compare(f.1, fb[j as int].1, reg, n) == Some(false) {
                lemma_depth_any(f, fb, j + 1, reg, n, m);
            }
        } else {
            lemma_depth_any(f, fb, j + 1, reg, n, m);
        }
    }
}

/// `Unknown` goes with every type, on either side.
pub proof fn law_unknown_goes_with_everything(t: TypeModel, reg: Records)
    ensures
        goes_with(TypeModel::Unknown, t, reg),
        goes_with(t, TypeModel::Unknown, reg),
        comparable(TypeModel::Unknown, t, reg),
        comparable(t, TypeModel::Unknown, reg),
{
}

/// Two names go together exactly when they are the same, whatever is declared.
pub proof fn law_names_are_nominal(x: Seq<char>, y: Seq<char>, reg: Records)
    ensures
        goes_with(TypeModel::Named(x), TypeModel::Named(y), reg) <==> x == y,
        comparable(TypeModel::Named(x), TypeModel::Named(y), reg),
{
}

/// Every type goes with itself, where the comparison comes to an end.
pub proof fn law_compatible_reflexive(t: TypeModel, reg: Records)
    requires
        comparable(t, t, reg),
    ensures
        goes_with(t, t, reg),
{
    lemma_reflexive(t, reg, u64::MAX as nat);
}

proof fn lemma_reflexive(t: TypeModel, reg: Records, n: nat)
    requires
        compare(t, t, reg, n) is Some,
    ensures
        compare(t, t, reg, n) == Some(true),
    decreases n, 0nat, 0nat,
{
    let below = (n - 1) as nat;
    match t {
        TypeModel::Result(a, b) => {
            lemma_reflexive(*a, reg, below);
            lemma_reflexive(*b, reg, below);
        },
        TypeModel::Record(f) => {
            lemma_reflexive_all(f, 0, reg, below);
        },
        _ => {},
    }
}

proof fn lemma_reflexive_all(f: Seq<(Seq<char>, TypeModel)>, i: nat, reg: Records, n: nat)
    requires
        compare_all(f, i, f, reg, n) is Some,
    ensures
        compare_all(f, i, f, reg, n) == Some(true),
    decreases n, 2nat, f.len() - i,
{
    if i < f.len() {
        lemma_reflexive_any(f, i, 0, reg, n);
        lemma_reflexive_all(f, i + 1, reg, n);
    }
}

proof fn lemma_reflexive_any(f: Seq<(Seq<char>, TypeModel)>, i: nat, j: nat, reg: Records, n: nat)
    requires
        j <= i < f.len(),
        compare_any(f[i as int], f, j, reg, n) is Some,
    ensures
        compare_any(f[i as int], f, j, reg, n) == Some(true),
    decreases n, 1nat, f.len() - j,
{
    if j == i {
        lemma_reflexive(f[i as int].1, reg, n);
    } else {
        if f[i as int].0 == f[j as int].0 {
            if compare(f[i as int].1, f[j as int].1, reg, n) == Some(false) {
                lemma_reflexive_any(f, i, j + 1, reg, n);
            }
        } else {
            lemma_reflexive_any(f, i, j + 1, reg, n);
        }
    }
}

proof fn lemma_filled_goes(t: TypeModel, reg: Records, n: nat)
    requires
        compare(t, filled(t), reg, n) is Some,
    ensures
        compare(t, filled(t), reg, n) == Some(true),
    decreases n, 0nat, 0nat,
{
    let below = (n - 1) as nat;
    match t {
        TypeModel::Result(a, b) => {
            lemma_filled_goes(*a, reg, below);
            lemma_filled_goes(*b, reg, below);
        },
        TypeModel::Record(f) => {
            lemma_filled_fields(f);
            lemma_filled_all(f, 0, reg, below);
        },
        _ => {},
    }
}

proof fn lemma_filled_all(f: Seq<(Seq<char>, TypeModel)>, i: nat, reg: Records, n: nat)
    requires
        compare_all(f, i, filled_fields(f), reg, n) is Some,
    ensures
        compare_all(f, i, filled_fields(f), reg, n) == Some(true),
    decreases n, 2nat, f.len() - i,
{
    if i < f.len() {
        lemma_filled_any(f, i, 0, reg, n);
        lemma_filled_all(f, i + 1, reg, n);
    }
}

proof fn lemma_filled_any(f: Seq<(Seq<char>, TypeModel)>, i: nat, j: nat, reg: Records, n: nat)
    requires
        j <= i < f.len(),
        compare_any(f[i as int], filled_fields(f), j, reg, n) is Some,
    ensures
        compare_any(f[i as int], filled_fields(f), j, reg, n) == Some(true),
    decreases n, 1nat, f.len() - j,
{
    lemma_filled_fields(f);
    let g = filled_fields(f);
    assert(g[j as int] == (f[j as int].0, filled(f[j as int].1)));
    if j == i {
        lemma_filled_goes(f[i as int].1, reg, n);
    } else {
        if f[i as int].0 == g[j as int].0 {
            if compare(f[i as int].1, g[j as int].1, reg, n) == Some(false) {
                lemma_filled_any(f, i, j + 1, reg, n);
            }
        } else {
            lemma_filled_any(f, i, j + 1, reg, n);
        }
    }
}

/// A type goes with every type fitted to it, where the comparison comes to an
/// end.
pub proof fn law_fitted_goes(t: TypeModel, hint: TypeModel, reg: Records, n: nat)
    requires
        compare(t, fitted(t, hint), reg, n) is Some,
    ensures
        compare(t, fitted(t, hint), reg, n) == Some(true),
    decreases n,
{
    let below = (n - 1) as nat;
    match (t, hint) {
        (TypeModel::Unknown, _) => {},
        (TypeModel::Result(a, b), TypeModel::Result(c, d)) => {
            law_fitted_goes(*a, *c, reg, below);
            law_fitted_goes(*b, *d, reg, below);
        },
        _ => {
            lemma_filled_goes(t, reg, n);
        },
    }
}

// ----- comparisons that come to an end -----

/// How many constructors a type is written with.
pub open spec fn weight(t: TypeModel) -> nat
    decreases t,
{
    match t {
        TypeModel::Record(fields) => 1 + fields_weight(fields),
        TypeModel::Result(a, b) => 1 + weight(*a) + weight(*b),
        _ => 1,
    }
}

/// How many constructors the types of some fields are written with.
pub open spec fn fields_weight(fields: Seq<(Seq<char>, TypeModel)>) -> nat
    decreases fields,
{
    if fields.len() == 0 {
        0
    } else {
        fields_weight(fields.drop_last()) + weight(fields.last().1)
    }
}

/// A type in which no record is written out.
pub open spec fn flat(t: TypeModel) -> bool
    decreases t,
{
    match t {
        TypeModel::Record(_) => false,
        TypeModel::Result(a, b) => flat(*a) && flat(*b),
        _ => true,
    }
}

/// No declared record has a field in which a record is written out: records
/// refer to each other by name.
pub open spec fn flat_records(reg: Records) -> bool {
    forall|x: Seq<char>, i: int|
        #![trigger reg[x][i]]
        reg.dom().contains(x) && 0 <= i < reg[x].len() ==> flat(reg[x][i].1)
}

proof fn lemma_field_weight(fields: Seq<(Seq<char>, TypeModel)>, i: int)
    requires
        0 <= i < fields.len(),
    ensures
        weight(fields[i].1) <= fields_weight(fields),
    decreases fields.len(),
{
    if i < fields.len() - 1 {
        lemma_field_weight(fields.drop_last(), i);
    }
}

proof fn lemma_weight_positive(t: TypeModel)
    ensures
        weight(t) >= 1,
{
}

/// A comparison of which one side has no record written out.
proof fn lemma_flat_compares(f: TypeModel, t: TypeModel, reg: Records, n: nat)
    requires
        flat_records(reg),
        flat(f),
        n >= 2 * weight(t) + 1,
    ensures
        compare(f, t, reg, n) is Some,
        compare(t, f, reg, n) is Some,
    decreases weight(t), 0nat, 0nat,
{
    lemma_weight_positive(t);
    let below = (n - 1) as nat;
    let lower = (n - 2) as nat;
    match (f, t) {
        (TypeModel::Named(x), TypeModel::Record(fields)) => {
            if reg.dom().contains(x) {
                lemma_flat_all(reg[x], 0, fields, reg, lower);
                assert(compare(TypeModel::Record(reg[x]), t, reg, below) is Some);
            }
        },
        (TypeModel::Result(f1, f2), TypeModel::Result(t1, t2)) => {
            lemma_weight_positive(*t1);
            lemma_weight_positive(*t2);
            lemma_flat_compares(*f1, *t1, reg, below);
            lemma_flat_compares(*f2, *t2, reg, below);
        },
        (TypeModel::Named(x), TypeModel::Named(y)) => {},
        (TypeModel::Named(x), _) => {
            if reg.dom().contains(x) {
                assert(compare(TypeModel::Record(reg[x]), t, reg, below) is Some);
            }
        },
        (_, TypeModel::Named(y)) => {
            if reg.dom().contains(y) {
                assert(compare(TypeModel::Record(reg[y]), f, reg, below) is Some);
            }
        },
        _ => {},
    }
}

proof fn lemma_flat_all(
    fa: Seq<(Seq<char>, TypeModel)>,
    i: nat,
    fb: Seq<(Seq<char>, TypeModel)>,
    reg: Records,
    n: nat,
)
    requires
        flat_records(reg),
        forall|k: int| 0 <= k < fa.len() ==> flat((#[trigger] fa[k]).1),
        n >= 2 * fields_weight(fb) + 1,
    ensures
        compare_all(fa, i, fb, reg, n) is Some,
    decreases fields_weight(fb), 2nat, fa.len() - i,
{
    if i < fa.len() {
        assert(flat(fa[i as int].1));
        lemma_flat_any(fa[i as int], fb, 0, reg, n);
        lemma_flat_all(fa, i + 1, fb, reg, n);
    }
}

proof fn lemma_flat_any(
    f: (Seq<char>, TypeModel),
    fb: Seq<(Seq<char>, TypeModel)>,
    j: nat,
    reg: Records,
    n: nat,
)
    requires
        flat_records(reg),
        flat(f.1),
        n >= 2 * fields_weight(fb) + 1,
    ensures
        compare_any(f, fb, j, reg, n) is Some,
    decreases fields_weight(fb), 1nat, fb.len() - j,
{
    if j < fb.len() {
        lemma_field_weight(fb, j as int);
        lemma_flat_compares(f.1, fb[j as int].1, reg, n);
        lemma_flat_any(f, fb, j + 1, reg, n);
    }
}

/// Where declared records refer to each other by name, every comparison comes to
/// an end, at a depth that the two types alone decide. The names may go in
/// circles.
pub proof fn law_flat_records_compare(a: TypeModel, b: TypeModel, reg: Records, n: nat)
    requires
        flat_records(reg),
        n >= 2 * (weight(a) + weight(b)) + 1,
    ensures
        compare(a, b, reg, n) is Some,
    decreases weight(a) + weight(b), 0nat, 0nat,
{
    lemma_weight_positive(a);
    lemma_weight_positive(b);
    let below = (n - 1) as nat;
    match (a, b) {
        (TypeModel::Named(x), _) => {
            lemma_flat_compares(a, b, reg, n);
        },
        (_, TypeModel::Named(y)) => {
            lemma_flat_compares(b, a, reg, n);
        },
        (TypeModel::Result(a1, a2), TypeModel::Result(b1, b2)) => {
            law_flat_records_compare(*a1, *b1, reg, below);
            law_flat_records_compare(*a2, *b2, reg, below);
        },
        (TypeModel::Record(fa), TypeModel::Record(fb)) => {
            lemma_records_all(fa, 0, fb, reg, below);
        },
        _ => {},
    }
}

proof fn lemma_records_all(
    fa: Seq<(Seq<char>, TypeModel)>,
    i: nat,
    fb: Seq<(Seq<char>, TypeModel)>,
    reg: Records,
    n: nat,
)
    requires
        flat_records(reg),
        n >= 2 * (fields_weight(fa) + fields_weight(fb)) + 1,
    ensures
        compare_all(fa, i, fb, reg, n) is Some,
    decreases fields_weight(fa) + fields_weight(fb), 2nat, fa.len() - i,
{
    if i < fa.len() {
        lemma_records_any(fa, i, fb, 0, reg, n);
        lemma_records_all(fa, i + 1, fb, reg, n);
    }
}

proof fn lemma_records_any(
    fa: Seq<(Seq<char>, TypeModel)>,
    i: nat,
    fb: Seq<(Seq<char>, TypeModel)>,
    j: nat,
    reg: Records,
    n: nat,
)
    requires
        flat_records(reg),
        i < fa.len(),
        n >= 2 * (fields_weight(fa) + fields_weight(fb)) + 1,
    ensures
        compare_any(fa[i as int], fb, j, reg, n) is Some,
    decreases fields_weight(fa) + fields_weight(fb), 1nat, fb.len() - j,
{
    if j < fb.len() {
        lemma_field_weight(fa, i as int);
        lemma_field_weight(fb, j as int);
        law_flat_records_compare(fa[i as int].1, fb[j as int].1, reg, n);
        lemma_records_any(fa, i, fb, j + 1, reg, n);
    }
}

} // verus!

use vstd::prelude::*;

use crate::json::{JsonValue, JsonView};
use crate::paths::str_eq;

verus! {

/// The stable ID of an entity (type alias, model or field).
#[derive(Debug, Clone, Copy, PartialEq, Eq, Hash, Structural)]
pub struct EntityId {
    /// Where the entity is defined: 0 for the schema's own files; another number
    /// stands for one template (the caller numbers the template paths).
    pub source: u64,
    /// For a field, the ID of the model whose body declares it.
    pub model_entity_id: Option<u64>,
    pub local_id: u64,
}

/// A type expression in a schema.
#[derive(Debug)]
pub enum TypeExpression {
    Identifier { name: String },
    Array { element_type: Box<TypeExpression> },
    Union { types: Vec<TypeExpression> },
    StringLiteral { value: String },
}

/// The mathematical value of a `TypeExpression`.
pub enum TypeView {
    Identifier(Seq<char>),
    Array(Box<TypeView>),
    Union(Seq<TypeView>),
    StringLiteral(Seq<char>),
}

impl View for TypeExpression {
    type V = TypeView;

    open spec fn view(&self) -> TypeView
        decreases self,
    {
        match self {
            TypeExpression::Identifier { name } => TypeView::Identifier(name@),
            TypeExpression::Array { element_type } => TypeView::Array(Box::new((**element_type).view())),
            TypeExpression::Union { types } => TypeView::Union(view_types(types@)),
            TypeExpression::StringLiteral { value } => TypeView::StringLiteral(value@),
        }
    }
}

/// The views of a list of type expressions.
pub open spec fn view_types(s: Seq<TypeExpression>) -> Seq<TypeView>
    decreases s,
{
    if s.len() == 0 {
        Seq::empty()
    } else {
        view_types(s.drop_last()).push(s.last().view())
    }
}

pub proof fn lemma_view_types(s: Seq<TypeExpression>)
    ensures
        view_types(s).len() == s.len(),
        forall|i: int| 0 <= i < s.len() ==> #[trigger] view_types(s)[i] == s[i]@,
    decreases s.len(),
{
    if s.len() > 0 {
        lemma_view_types(s.drop_last());
        assert(view_types(s) == view_types(s.drop_last()).push(s.last().view()));
    } else {
        assert(view_types(s) == Seq::<TypeView>::empty());
    }
}

/// Type equality as migrations see it: the same identifier or string literal, equal
/// element types of arrays, and unions of the same length in which every member of
/// either one has an equal member in the other (in any order).
pub open spec fn types_eq(a: TypeView, b: TypeView) -> bool
    decreases a, 0nat,
{
    match (a, b) {
        (TypeView::Identifier(x), TypeView::Identifier(y)) => x == y,
        (TypeView::Array(x), TypeView::Array(y)) => types_eq(*x, *y),
        (TypeView::Union(x), TypeView::Union(y)) => x.len() == y.len() && all_matched(x, y, x.len())
            && all_covered(x, y, y.len()),
        (TypeView::StringLiteral(x), TypeView::StringLiteral(y)) => x == y,
        _ => false,
    }
}

/// Each of the first `n` members of `xs` has an equal member in `ys`.
pub open spec fn all_matched(xs: Seq<TypeView>, ys: Seq<TypeView>, n: nat) -> bool
    decreases xs, n,
{
    if n == 0 || n > xs.len() {
        n == 0
    } else {
        all_matched(xs, ys, (n - 1) as nat) && matched(xs[n - 1], ys, ys.len())
    }
}

/// One of the first `m` members of `ys` equals `x`.
pub open spec fn matched(x: TypeView, ys: Seq<TypeView>, m: nat) -> bool
    decreases x, m,
{
    if m == 0 || m > ys.len() {
        false
    } else {
        matched(x, ys, (m - 1) as nat) || types_eq(x, ys[m - 1])
    }
}

/// Each of the first `n` members of `ys` has an equal member in `xs`.
pub open spec fn all_covered(xs: Seq<TypeView>, ys: Seq<TypeView>, n: nat) -> bool
    decreases xs, xs.len() + n + 1,
{
    if n == 0 || n > ys.len() {
        n == 0
    } else {
        all_covered(xs, ys, (n - 1) as nat) && covered(xs, ys[n - 1], xs.len())
    }
}

/// One of the first `m` members of `xs` equals `y`.
pub open spec fn covered(xs: Seq<TypeView>, y: TypeView, m: nat) -> bool
    decreases xs, m,
{
    if m == 0 || m > xs.len() {
        false
    } else {
        covered(xs, y, (m - 1) as nat) || types_eq(xs[m - 1], y)
    }
}

proof fn lemma_all_covered_prefix(xs: Seq<TypeView>, ys: Seq<TypeView>, n: nat, m: nat)
    requires
        m <= n,
        all_covered(xs, ys, n),
    ensures
        all_covered(xs, ys, m),
    decreases n,
{
    if n > m {
        lemma_all_covered_prefix(xs, ys, (n - 1) as nat, m);
    }
}

proof fn lemma_covered_grows(xs: Seq<TypeView>, y: TypeView, m: nat, n: nat)
    requires
        m <= n <= xs.len(),
        covered(xs, y, m),
    ensures
        covered(xs, y, n),
    decreases n,
{
    if n > m {
        lemma_covered_grows(xs, y, m, (n - 1) as nat);
    }
}

proof fn lemma_all_matched_prefix(xs: Seq<TypeView>, ys: Seq<TypeView>, n: nat, m: nat)
    requires
        m <= n,
        all_matched(xs, ys, n),
    ensures
        all_matched(xs, ys, m),
    decreases n,
{
    if n > m {
        lemma_all_matched_prefix(xs, ys, (n - 1) as nat, m);
    }
}

impl TypeExpression {
    /// A copy of the type expression.
    pub fn copy(&self) -> (r: TypeExpression)
        ensures
            r@ == self@,
        decreases self,
    {
        match self {
            TypeExpression::Identifier { name } => TypeExpression::Identifier { name: name.clone() },
            TypeExpression::Array { element_type } => {
                let e = (**element_type).copy();
                TypeExpression::Array { element_type: Box::new(e) }
            },
            TypeExpression::Union { types } => {
                let mut out: Vec<TypeExpression> = Vec::new();
                let mut i: usize = 0;
                while i < types.len()
                    invariant
                        *self == (TypeExpression::Union { types: *types }),
                        i <= types@.len(),
                        out@.len() == i,
                        forall|j: int| 0 <= j < i ==> (#[trigger] out@[j])@ == types@[j]@,
                    decreases types@.len() - i,
                {
                    proof {
                        let x = *self;
                        assert(x->types == *types);
                        assert(decreases_to!(x => types@[i as int]));
                    }
                    out.push(types[i].copy());
                    i = i + 1;
                }
                proof {
                    lemma_view_types(out@);
                    lemma_view_types(types@);
                    assert(view_types(out@) =~= view_types(types@));
                }
                TypeExpression::Union { types: out }
            },
            TypeExpression::StringLiteral { value } => TypeExpression::StringLiteral { value: value.clone() },
        }
    }
}

/// Whether two type expressions are equal (see `types_eq`).
pub fn types_equal(a: &TypeExpression, b: &TypeExpression) -> (r: bool)
    ensures
        r == types_eq(a@, b@),
    decreases a, 0nat,
{
    match (a, b) {
        (TypeExpression::Identifier { name: n1 }, TypeExpression::Identifier { name: n2 }) => str_eq(n1.as_str(), n2.as_str()),
        (TypeExpression::Array { element_type: e1 }, TypeExpression::Array { element_type: e2 }) => types_equal(&**e1, &**e2),
        (TypeExpression::Union { types: t1 }, TypeExpression::Union { types: t2 }) => {
            proof {
                lemma_view_types(t1@);
                lemma_view_types(t2@);
            }
            if t1.len() != t2.len() {
                return false;
            }
            let ghost xs = view_types(t1@);
            let ghost ys = view_types(t2@);
            let mut i: usize = 0;
            while i < t1.len()
                invariant
                    *a == (TypeExpression::Union { types: *t1 }),
                    a@ == TypeView::Union(xs),
                    b@ == TypeView::Union(ys),
                    ys == view_types(t2@),
                    xs.len() == t1@.len(),
                    ys.len() == t2@.len(),
                    t1@.len() == t2@.len(),
                    forall|j: int| 0 <= j < t1@.len() ==> (#[trigger] xs[j]) == t1@[j]@,
                    forall|j: int| 0 <= j < t2@.len() ==> (#[trigger] ys[j]) == t2@[j]@,
                    i <= t1@.len(),
                    all_matched(xs, ys, i as nat),
                decreases t1@.len() - i,
            {
                proof {
                    let x = *a;
                    assert(x->types == *t1);
                    assert(decreases_to!(x => t1@[i as int]));
                }
                let found = has_equal_member(&t1[i], t2);
                proof {
                    assert(xs[i as int] == t1@[i as int]@);
                    assert(view_types(t2@) == ys);
                    assert(found == matched(t1@[i as int]@, ys, t2@.len()));
                    assert(found == matched(xs[i as int], ys, ys.len()));
                    assert(all_matched(xs, ys, (i + 1) as nat) == (all_matched(xs, ys, i as nat) && matched(xs[i as int], ys, ys.len())));
                }
                if !found {
                    proof {
                        assert(!all_matched(xs, ys, (i + 1) as nat));
                        if all_matched(xs, ys, xs.len()) {
                            lemma_all_matched_prefix(xs, ys, xs.len(), (i + 1) as nat);
                        }
                    }
                    return false;
                }
                i = i + 1;
            }
            let mut j: usize = 0;
            while j < t2.len()
                invariant
                    *a == (TypeExpression::Union { types: *t1 }),
                    a@ == TypeView::Union(xs),
                    b@ == TypeView::Union(ys),
                    xs.len() == t1@.len(),
                    ys.len() == t2@.len(),
                    t1@.len() == t2@.len(),
                    forall|k: int| 0 <= k < t1@.len() ==> (#[trigger] xs[k]) == t1@[k]@,
                    forall|k: int| 0 <= k < t2@.len() ==> (#[trigger] ys[k]) == t2@[k]@,
                    all_matched(xs, ys, xs.len()),
                    j <= t2@.len(),
                    all_covered(xs, ys, j as nat),
                decreases t2@.len() - j,
            {
                let mut m: usize = 0;
                let mut found = false;
                while m < t1.len()
                    invariant
                        *a == (TypeExpression::Union { types: *t1 }),
                        xs.len() == t1@.len(),
                        ys.len() == t2@.len(),
                        j < t2@.len(),
                        forall|k: int| 0 <= k < t1@.len() ==> (#[trigger] xs[k]) == t1@[k]@,
                        forall|k: int| 0 <= k < t2@.len() ==> (#[trigger] ys[k]) == t2@[k]@,
                        m <= t1@.len(),
                        found == covered(xs, ys[j as int], m as nat),
                    decreases t1@.len() - m,
                {
                    proof {
                        let x = *a;
                        assert(x->types == *t1);
                        assert(decreases_to!(x => t1@[m as int]));
                    }
                    let e = types_equal(&t1[m], &t2[j]);
                    found = found || e;
                    m = m + 1;
                }
                if !found {
                    proof {
                        assert(!all_covered(xs, ys, (j + 1) as nat));
                        if all_covered(xs, ys, ys.len()) {
                            lemma_all_covered_prefix(xs, ys, ys.len(), (j + 1) as nat);
                        }
                    }
                    return false;
                }
                j = j + 1;
            }
            true
        },
        (TypeExpression::StringLiteral { value: v1 }, TypeExpression::StringLiteral { value: v2 }) => str_eq(v1.as_str(), v2.as_str()),
        _ => false,
    }
}

/// Whether some member of `ys` equals `x`.
fn has_equal_member(x: &TypeExpression, ys: &Vec<TypeExpression>) -> (r: bool)
    ensures
        r == matched(x@, view_types(ys@), ys@.len()),
    decreases x, 1nat,
{
    proof { lemma_view_types(ys@); }
    let ghost yv = view_types(ys@);
    let mut m: usize = 0;
    while m < ys.len()
        invariant
            yv == view_types(ys@),
            yv.len() == ys@.len(),
            forall|j: int| 0 <= j < ys@.len() ==> (#[trigger] yv[j]) == ys@[j]@,
            m <= ys@.len(),
            !matched(x@, yv, m as nat),
        decreases ys@.len() - m,
    {
        if types_equal(x, &ys[m]) {
            proof {
                assert(matched(x@, yv, (m + 1) as nat));
                lemma_matched_grows(x@, yv, (m + 1) as nat, ys@.len());
            }
            return true;
        }
        m = m + 1;
    }
    false
}

proof fn lemma_matched_grows(x: TypeView, ys: Seq<TypeView>, m: nat, n: nat)
    requires
        m <= n <= ys.len(),
        matched(x, ys, m),
    ensures
        matched(x, ys, n),
    decreases n,
{
    if n > m {
        lemma_matched_grows(x, ys, m, (n - 1) as nat);
    }
}

/// A default value of a field. A number is kept as the bits of its `f64`.
#[derive(Debug)]
pub enum Value {
    Str(String),
    Number(u64),
    Boolean(bool),
    Complex(JsonValue),
}

/// The mathematical value of a `Value`.
pub enum ValueView {
    Str(Seq<char>),
    Number(u64),
    Boolean(bool),
    Complex(JsonView),
}

impl View for Value {
    type V = ValueView;

    open spec fn view(&self) -> ValueView {
        match self {
            Value::Str(s) => ValueView::Str(s@),
            Value::Number(n) => ValueView::Number(*n),
            Value::Boolean(b) => ValueView::Boolean(*b),
            Value::Complex(j) => ValueView::Complex(j@),
        }
    }
}

impl Value {
    /// A copy of the value.
    pub fn copy(&self) -> (r: Value)
        ensures
            r@ == self@,
    {
        match self {
            Value::Str(s) => Value::Str(s.clone()),
            Value::Number(n) => Value::Number(*n),
            Value::Boolean(b) => Value::Boolean(*b),
            Value::Complex(j) => Value::Complex(j.deep_copy()),
        }
    }
}

/// The view of an optional value.
pub open spec fn opt_value_view(v: Option<Value>) -> Option<ValueView> {
    match v {
        Some(x) => Some(x@),
        None => None,
    }
}

/// A copy of an optional value.
pub fn copy_opt_value(v: &Option<Value>) -> (r: Option<Value>)
    ensures
        opt_value_view(r) == opt_value_view(*v),
{
    match v {
        Some(x) => Some(x.copy()),
        None => None,
    }
}

/// A comparison of two numbers (given as `f64` bits) that answers the same way
/// every time it is asked about the same two numbers.
pub open spec fn is_number_comparison<F: Fn(u64, u64) -> bool>(numbers_equal: F) -> bool {
    &&& forall|x: u64, y: u64| #[trigger] numbers_equal.requires((x, y))
    &&& forall|x: u64, y: u64, r1: bool, r2: bool|
        #[trigger] numbers_equal.ensures((x, y), r1) && #[trigger] numbers_equal.ensures((x, y), r2) ==> r1 == r2
}

/// Equality of two optional default values: both absent, or equal strings, equal
/// booleans, or numbers that `numbers_equal` accepts. Other values never compare equal.
pub open spec fn values_eq<F: Fn(u64, u64) -> bool>(numbers_equal: F, a: Option<ValueView>, b: Option<ValueView>) -> bool {
    match (a, b) {
        (None, None) => true,
        (Some(ValueView::Str(x)), Some(ValueView::Str(y))) => x == y,
        (Some(ValueView::Number(x)), Some(ValueView::Number(y))) => numbers_equal.ensures((x, y), true),
        (Some(ValueView::Boolean(x)), Some(ValueView::Boolean(y))) => x == y,
        _ => false,
    }
}

/// Whether two optional default values are equal (see `values_eq`). Numbers are
/// compared by `numbers_equal`; the library holds no floating-point arithmetic.
pub fn values_equal<F: Fn(u64, u64) -> bool>(numbers_equal: &F, a: &Option<Value>, b: &Option<Value>) -> (r: bool)
    requires
        is_number_comparison(*numbers_equal),
    ensures
        r == values_eq(*numbers_equal, opt_value_view(*a), opt_value_view(*b)),
{
    match (a, b) {
        (None, None) => true,
        (Some(Value::Str(x)), Some(Value::Str(y))) => str_eq(x.as_str(), y.as_str()),
        (Some(Value::Number(x)), Some(Value::Number(y))) => {
            let r = numbers_equal(*x, *y);
            proof {
                if !r {
                    if numbers_equal.ensures((*x, *y), true) {
                        assert(numbers_equal.ensures((*x, *y), r));
                    }
                }
            }
            r
        },
        (Some(Value::Boolean(x)), Some(Value::Boolean(y))) => *x == *y,
        _ => false,
    }
}

/// A type alias of a schema.
#[derive(Debug)]
pub struct TypeAliasDefinition {
    pub name: String,
    pub alias_type: TypeExpression,
    pub config: JsonValue,
    pub entity_id: Option<EntityId>,
}

/// The mathematical value of a type alias.
pub struct TypeAliasView {
    pub name: Seq<char>,
    pub alias_type: TypeView,
    pub config: JsonView,
    pub entity_id: Option<EntityId>,
}

impl View for TypeAliasDefinition {
    type V = TypeAliasView;

    open spec fn view(&self) -> TypeAliasView {
        TypeAliasView { name: self.name@, alias_type: self.alias_type@, config: self.config@, entity_id: self.entity_id }
    }
}

/// A field of a model.
#[derive(Debug)]
pub struct FieldDefinition {
    pub name: String,
    pub field_type: TypeExpression,
    pub optional: bool,
    pub default: Option<Value>,
    pub config: JsonValue,
    pub entity_id: Option<EntityId>,
}

/// The mathematical value of a field.
pub struct FieldView {
    pub name: Seq<char>,
    pub field_type: TypeView,
    pub optional: bool,
    pub default: Option<ValueView>,
    pub config: JsonView,
    pub entity_id: Option<EntityId>,
}

impl View for FieldDefinition {
    type V = FieldView;

    open spec fn view(&self) -> FieldView {
        FieldView {
            name: self.name@,
            field_type: self.field_type@,
            optional: self.optional,
            default: opt_value_view(self.default),
            config: self.config@,
            entity_id: self.entity_id,
        }
    }
}

/// A model of a schema.
#[derive(Debug)]
pub struct ModelDefinition {
    pub name: String,
    pub parents: Vec<String>,
    pub fields: Vec<FieldDefinition>,
    pub config: JsonValue,
    pub entity_id: Option<EntityId>,
}

/// The mathematical value of a model.
pub struct ModelView {
    pub name: Seq<char>,
    pub parents: Seq<Seq<char>>,
    pub fields: Seq<FieldView>,
    pub config: JsonView,
    pub entity_id: Option<EntityId>,
}

/// The views of a list of fields.
pub open spec fn field_views(s: Seq<FieldDefinition>) -> Seq<FieldView> {
    s.map_values(|f: FieldDefinition| f@)
}

impl View for ModelDefinition {
    type V = ModelView;

    open spec fn view(&self) -> ModelView {
        ModelView {
            name: self.name@,
            parents: crate::paths::views(self.parents@),
            fields: field_views(self.fields@),
            config: self.config@,
            entity_id: self.entity_id,
        }
    }
}

/// A schema: its models and type aliases, each list keyed by name.
#[derive(Debug)]
pub struct Schema {
    pub models: Vec<ModelDefinition>,
    pub type_aliases: Vec<TypeAliasDefinition>,
}

impl TypeAliasDefinition {
    /// A copy of the type alias.
    pub fn copy(&self) -> (r: Self)
        ensures
            r@ == self@,
    {
        TypeAliasDefinition {
            name: self.name.clone(),
            alias_type: self.alias_type.copy(),
            config: self.config.deep_copy(),
            entity_id: self.entity_id,
        }
    }
}

impl FieldDefinition {
    /// A copy of the field.
    pub fn copy(&self) -> (r: Self)
        ensures
            r@ == self@,
    {
        FieldDefinition {
            name: self.name.clone(),
            field_type: self.field_type.copy(),
            optional: self.optional,
            default: copy_opt_value(&self.default),
            config: self.config.deep_copy(),
            entity_id: self.entity_id,
        }
    }
}

/// A copy of a list of strings.
pub fn copy_strings(v: &Vec<String>) -> (r: Vec<String>)
    ensures
        crate::paths::views(r@) == crate::paths::views(v@),
{
    let mut out: Vec<String> = Vec::new();
    let mut i: usize = 0;
    while i < v.len()
        invariant
            i <= v@.len(),
            out@.len() == i,
            forall|j: int| 0 <= j < i ==> (#[trigger] out@[j])@ == v@[j]@,
        decreases v@.len() - i,
    {
        out.push(v[i].clone());
        i = i + 1;
    }
    assert(crate::paths::views(out@) =~= crate::paths::views(v@));
    out
}

impl ModelDefinition {
    /// A copy of the model.
    pub fn copy(&self) -> (r: Self)
        ensures
            r@ == self@,
    {
        let mut fields: Vec<FieldDefinition> = Vec::new();
        let mut i: usize = 0;
        while i < self.fields.len()
            invariant
                i <= self.fields@.len(),
                fields@.len() == i,
                forall|j: int| 0 <= j < i ==> (#[trigger] fields@[j])@ == self.fields@[j]@,
            decreases self.fields@.len() - i,
        {
            fields.push(self.fields[i].copy());
            i = i + 1;
        }
        assert(field_views(fields@) =~= field_views(self.fields@));
        ModelDefinition {
            name: self.name.clone(),
            parents: copy_strings(&self.parents),
            fields,
            config: self.config.deep_copy(),
            entity_id: self.entity_id,
        }
    }
}

} // verus!

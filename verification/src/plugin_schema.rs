use vstd::prelude::*;

use crate::completion::{level_view, ConfigLevel, LevelView};
use crate::paths::{str_eq, views};
use crate::schema::{copy_strings, TypeExpression, TypeView};
use crate::uri_table::{self, has_key, keys_distinct, table_map, value_at, Entry};

verus! {

broadcast use vstd::string::group_string_axioms;

/// A settings field of a plugin, as completions need it.
#[derive(Debug)]
pub struct SettingsField {
    pub name: String,
    /// The type as written (such as `string` or `"postgres" | "sqlite"`).
    pub type_expr: Option<String>,
    pub optional: bool,
    /// The default value, written as JSON.
    pub default_value: Option<String>,
    /// The string literals the type allows, for enum-like types.
    pub literal_values: Vec<String>,
    /// Whether the type is `boolean`.
    pub is_boolean: bool,
}

/// A settings field by its texts.
pub struct SettingsView {
    pub name: Seq<char>,
    pub type_expr: Option<Seq<char>>,
    pub optional: bool,
    pub default_value: Option<Seq<char>>,
    pub literal_values: Seq<Seq<char>>,
    pub is_boolean: bool,
}

pub open spec fn opt_string(o: Option<String>) -> Option<Seq<char>> {
    match o {
        Some(s) => Some(s@),
        None => None,
    }
}

impl View for SettingsField {
    type V = SettingsView;

    open spec fn view(&self) -> SettingsView {
        SettingsView {
            name: self.name@,
            type_expr: opt_string(self.type_expr),
            optional: self.optional,
            default_value: opt_string(self.default_value),
            literal_values: views(self.literal_values@),
            is_boolean: self.is_boolean,
        }
    }
}

/// The views of a list of settings fields.
pub open spec fn settings_views(s: Seq<SettingsField>) -> Seq<SettingsView> {
    s.map_values(|f: SettingsField| f@)
}

/// The settings a plugin accepts at each level of a schema, and whether it can build
/// and migrate (which makes `build_output` and `migrations_output` meaningful).
#[derive(Debug)]
pub struct PluginSettingsSchema {
    pub global_settings: Vec<SettingsField>,
    pub type_alias_settings: Vec<SettingsField>,
    pub model_settings: Vec<SettingsField>,
    pub field_settings: Vec<SettingsField>,
    pub has_build: bool,
    pub has_migrate: bool,
}

/// A plugin settings schema by its texts.
pub struct SchemaView {
    pub global_settings: Seq<SettingsView>,
    pub type_alias_settings: Seq<SettingsView>,
    pub model_settings: Seq<SettingsView>,
    pub field_settings: Seq<SettingsView>,
    pub has_build: bool,
    pub has_migrate: bool,
}

impl View for PluginSettingsSchema {
    type V = SchemaView;

    open spec fn view(&self) -> SchemaView {
        SchemaView {
            global_settings: settings_views(self.global_settings@),
            type_alias_settings: settings_views(self.type_alias_settings@),
            model_settings: settings_views(self.model_settings@),
            field_settings: settings_views(self.field_settings@),
            has_build: self.has_build,
            has_migrate: self.has_migrate,
        }
    }
}

/// The fields of the settings model that a configuration level uses.
pub open spec fn fields_at(s: SchemaView, level: LevelView) -> Seq<SettingsView> {
    match level {
        LevelView::Global => s.global_settings,
        LevelView::TypeAlias(_) => s.type_alias_settings,
        LevelView::Model(_) => s.model_settings,
        LevelView::Field(_, _) => s.field_settings,
    }
}

impl PluginSettingsSchema {
    /// The settings fields for a configuration level.
    pub fn fields_for_level(&self, level: &ConfigLevel) -> (r: &Vec<SettingsField>)
        ensures
            settings_views(r@) == fields_at(self@, level_view(*level)),
    {
        match level {
            ConfigLevel::Global => &self.global_settings,
            ConfigLevel::TypeAlias { .. } => &self.type_alias_settings,
            ConfigLevel::Model { .. } => &self.model_settings,
            ConfigLevel::Field { .. } => &self.field_settings,
        }
    }

    /// A copy of the schema.
    pub fn copy(&self) -> (r: Self)
        ensures
            r@ == self@,
    {
        PluginSettingsSchema {
            global_settings: copy_fields(&self.global_settings),
            type_alias_settings: copy_fields(&self.type_alias_settings),
            model_settings: copy_fields(&self.model_settings),
            field_settings: copy_fields(&self.field_settings),
            has_build: self.has_build,
            has_migrate: self.has_migrate,
        }
    }
}

fn copy_opt_string(o: &Option<String>) -> (r: Option<String>)
    ensures
        opt_string(r) == opt_string(*o),
{
    match o {
        Some(s) => Some(s.clone()),
        None => None,
    }
}

impl SettingsField {
    /// A copy of the field.
    pub fn copy(&self) -> (r: Self)
        ensures
            r@ == self@,
    {
        SettingsField {
            name: self.name.clone(),
            type_expr: copy_opt_string(&self.type_expr),
            optional: self.optional,
            default_value: copy_opt_string(&self.default_value),
            literal_values: copy_strings(&self.literal_values),
            is_boolean: self.is_boolean,
        }
    }
}

/// A copy of a list of settings fields.
pub fn copy_fields(v: &Vec<SettingsField>) -> (r: Vec<SettingsField>)
    ensures
        settings_views(r@) == settings_views(v@),
{
    let mut out: Vec<SettingsField> = Vec::new();
    let mut i: usize = 0;
    while i < v.len()
        invariant
            i <= v@.len(),
            settings_views(out@) == settings_views(v@).take(i as int),
        decreases v@.len() - i,
    {
        let ghost before = out@;
        out.push(v[i].copy());
        proof {
            assert(settings_views(out@) =~= settings_views(before).push(v@[i as int]@));
            assert(settings_views(v@).take(i as int + 1) =~= settings_views(v@).take(i as int).push(v@[i as int]@));
        }
        i = i + 1;
    }
    proof { assert(settings_views(v@).take(v@.len() as int) =~= settings_views(v@)); }
    out
}

/// The string literals that a type allows: the literal itself, or the literal members
/// of a union (in order); none for any other type.
pub open spec fn literal_values_of(t: TypeView) -> Seq<Seq<char>> {
    match t {
        TypeView::StringLiteral(s) => seq![s],
        TypeView::Union(ts) => union_literals(ts),
        _ => Seq::empty(),
    }
}

/// The literal members of a union's members, in order.
pub open spec fn union_literals(ts: Seq<TypeView>) -> Seq<Seq<char>>
    decreases ts.len(),
{
    if ts.len() == 0 {
        Seq::empty()
    } else {
        union_literals(ts.drop_last()) + match ts.last() {
            TypeView::StringLiteral(s) => seq![s],
            _ => Seq::empty(),
        }
    }
}

/// The string literals a parsed type allows (for enum-like unions).
pub fn extract_literal_values(parsed: &TypeExpression) -> (r: Vec<String>)
    ensures
        views(r@) == literal_values_of(parsed@),
{
    match parsed {
        TypeExpression::StringLiteral { value } => {
            let mut v: Vec<String> = Vec::new();
            v.push(value.clone());
            proof { assert(views(v@) =~= seq![value@]); }
            v
        },
        TypeExpression::Union { types } => {
            let mut out: Vec<String> = Vec::new();
            let ghost ts = crate::schema::view_types(types@);
            let mut i: usize = 0;
            proof {
                crate::schema::lemma_view_types(types@);
                assert(views(out@) =~= union_literals(ts.take(0)));
            }
            while i < types.len()
                invariant
                    ts == crate::schema::view_types(types@),
                    ts.len() == types@.len(),
                    forall|k: int| 0 <= k < types@.len() ==> #[trigger] ts[k] == types@[k]@,
                    i <= types@.len(),
                    views(out@) == union_literals(ts.take(i as int)),
                decreases types@.len() - i,
            {
                proof {
                    assert(ts.take(i as int + 1).drop_last() =~= ts.take(i as int));
                    assert(ts.take(i as int + 1).last() == types@[i as int]@);
                }
                match &types[i] {
                    TypeExpression::StringLiteral { value } => {
                        let ghost before = out@;
                        out.push(value.clone());
                        proof { assert(views(out@) =~= views(before) + seq![value@]); }
                    },
                    _ => {
                        proof { assert(views(out@) =~= views(out@) + Seq::<Seq<char>>::empty()); }
                    },
                }
                i = i + 1;
            }
            proof { assert(ts.take(types@.len() as int) =~= ts); }
            out
        },
        _ => Vec::new(),
    }
}

/// Whether a parsed type is the primitive `boolean`.
pub open spec fn is_boolean_view(t: TypeView) -> bool {
    t == TypeView::Identifier("boolean"@)
}

/// Whether a parsed type is the primitive `boolean`.
pub fn is_boolean_type(parsed: &TypeExpression) -> (r: bool)
    ensures
        r == is_boolean_view(parsed@),
{
    match parsed {
        TypeExpression::Identifier { name } => str_eq(name.as_str(), "boolean"),
        _ => false,
    }
}

/// A field of a resolved settings model, with its type parsed where that succeeded.
#[derive(Debug)]
pub struct ResolvedField {
    pub name: String,
    pub type_expr: Option<String>,
    pub parsed_type: Option<TypeExpression>,
    pub optional: bool,
    /// The default value, written as JSON.
    pub default_value: Option<String>,
}

/// A model of a resolved settings schema.
#[derive(Debug)]
pub struct ResolvedModel {
    pub name: String,
    pub fields: Vec<ResolvedField>,
}

/// The settings field that a resolved field gives.
pub open spec fn settings_of(f: ResolvedField) -> SettingsView {
    SettingsView {
        name: f.name@,
        type_expr: opt_string(f.type_expr),
        optional: f.optional,
        default_value: opt_string(f.default_value),
        literal_values: match f.parsed_type {
            Some(t) => literal_values_of(t@),
            None => Seq::empty(),
        },
        is_boolean: match f.parsed_type {
            Some(t) => is_boolean_view(t@),
            None => false,
        },
    }
}

/// The position of the first model named `name`.
pub open spec fn model_index(models: Seq<ResolvedModel>, name: Seq<char>) -> Option<int>
    decreases models.len(),
{
    if models.len() == 0 {
        None
    } else {
        match model_index(models.drop_last(), name) {
            Some(i) => Some(i),
            None => if models.last().name@ == name { Some(models.len() - 1) } else { None },
        }
    }
}

/// The settings fields of the model named `name`, none when there is no such model.
pub open spec fn settings_fields_of(models: Seq<ResolvedModel>, name: Seq<char>) -> Seq<SettingsView> {
    match model_index(models, name) {
        Some(i) => models[i].fields@.map_values(|f: ResolvedField| settings_of(f)),
        None => Seq::empty(),
    }
}

/// The simplified settings fields of the model named `model_name`.
pub fn extract_settings_fields(models: &Vec<ResolvedModel>, model_name: &str) -> (r: Vec<SettingsField>)
    ensures
        settings_views(r@) == settings_fields_of(models@, model_name@),
{
    let mut k: usize = 0;
    let mut found: Option<usize> = None;
    while k < models.len()
        invariant
            k <= models@.len(),
            found is None ==> model_index(models@.take(k as int), model_name@) is None,
            found matches Some(i) ==> model_index(models@.take(k as int), model_name@) == Some(i as int) && i < models@.len(),
        decreases models@.len() - k,
    {
        proof {
            assert(models@.take(k as int + 1).drop_last() =~= models@.take(k as int));
            assert(models@.take(k as int + 1).last() == models@[k as int]);
        }
        if found.is_none() && str_eq(models[k].name.as_str(), model_name) {
            found = Some(k);
        }
        k = k + 1;
    }
    proof { assert(models@.take(models@.len() as int) =~= models@); }
    let i = match found {
        Some(i) => i,
        None => {
            proof { assert(settings_views(Seq::<SettingsField>::empty()) =~= Seq::<SettingsView>::empty()); }
            return Vec::new();
        },
    };
    let fields = &models[i].fields;
    let mut out: Vec<SettingsField> = Vec::new();
    let mut j: usize = 0;
    while j < fields.len()
        invariant
            j <= fields@.len(),
            settings_views(out@) == fields@.take(j as int).map_values(|f: ResolvedField| settings_of(f)),
        decreases fields@.len() - j,
    {
        let f = &fields[j];
        let (literal_values, is_boolean) = match &f.parsed_type {
            Some(t) => (extract_literal_values(t), is_boolean_type(t)),
            None => (Vec::new(), false),
        };
        let s = SettingsField {
            name: f.name.clone(),
            type_expr: copy_opt_string(&f.type_expr),
            optional: f.optional,
            default_value: copy_opt_string(&f.default_value),
            literal_values,
            is_boolean,
        };
        proof {
            if f.parsed_type is None {
                assert(views(s.literal_values@) =~= Seq::<Seq<char>>::empty());
            }
            assert(s@ == settings_of(*f));
        }
        let ghost before = out@;
        out.push(s);
        proof {
            assert(settings_views(out@) =~= settings_views(before).push(s@));
            assert(fields@.take(j as int + 1).map_values(|f: ResolvedField| settings_of(f))
                =~= fields@.take(j as int).map_values(|f: ResolvedField| settings_of(f)).push(settings_of(fields@[j as int])));
        }
        j = j + 1;
    }
    proof { assert(fields@.take(fields@.len() as int) =~= fields@); }
    out
}

/// The settings schema of a plugin, from the resolved models of the schema it
/// declares and whether it can build and migrate.
pub fn settings_schema(models: &Vec<ResolvedModel>, has_build: bool, has_migrate: bool) -> (r: PluginSettingsSchema)
    ensures
        r@.global_settings == settings_fields_of(models@, "GlobalSettings"@),
        r@.type_alias_settings == settings_fields_of(models@, "TypeAliasSettings"@),
        r@.model_settings == settings_fields_of(models@, "ModelSettings"@),
        r@.field_settings == settings_fields_of(models@, "FieldSettings"@),
        r@.has_build == has_build,
        r@.has_migrate == has_migrate,
{
    PluginSettingsSchema {
        global_settings: extract_settings_fields(models, "GlobalSettings"),
        type_alias_settings: extract_settings_fields(models, "TypeAliasSettings"),
        model_settings: extract_settings_fields(models, "ModelSettings"),
        field_settings: extract_settings_fields(models, "FieldSettings"),
        has_build,
        has_migrate,
    }
}

/// The settings schemas loaded so far, by plugin name.
pub struct PluginSchemaCache {
    entries: Vec<Entry<PluginSettingsSchema>>,
}

impl PluginSchemaCache {
    /// The cached schema of each plugin.
    pub closed spec fn cached(&self) -> Map<Seq<char>, SchemaView> {
        table_map(self.entries@, |s: PluginSettingsSchema| s@)
    }

    /// No plugin name is stored twice.
    pub closed spec fn wf(&self) -> bool {
        keys_distinct(self.entries@)
    }

    /// An empty cache.
    pub fn new() -> (c: Self)
        ensures
            c.wf(),
            c.cached() == Map::<Seq<char>, SchemaView>::empty(),
    {
        let c = PluginSchemaCache { entries: Vec::new() };
        proof { assert(c.cached() =~= Map::<Seq<char>, SchemaView>::empty()); }
        c
    }

    /// A copy of the cached schema of the plugin, if there is one.
    pub fn get(&self, plugin_name: &str) -> (r: Option<PluginSettingsSchema>)
        requires
            self.wf(),
        ensures
            match r {
                Some(s) => self.cached().dom().contains(plugin_name@) && self.cached()[plugin_name@] == s@,
                None => !self.cached().dom().contains(plugin_name@),
            },
    {
        match uri_table::get(&self.entries, plugin_name) {
            Some(s) => Some(s.copy()),
            None => None,
        }
    }

    /// Whether a schema is cached for the plugin.
    pub fn contains(&self, plugin_name: &str) -> (r: bool)
        requires
            self.wf(),
        ensures
            r == self.cached().dom().contains(plugin_name@),
    {
        uri_table::find(&self.entries, plugin_name).is_some()
    }

    /// Caches the schema of the plugin, replacing what was cached for it.
    pub fn insert(&mut self, plugin_name: &str, schema: PluginSettingsSchema)
        requires
            old(self).wf(),
        ensures
            final(self).wf(),
            final(self).cached() == old(self).cached().insert(plugin_name@, schema@),
    {
        let ghost before = self.entries@;
        let ghost sv = schema;
        uri_table::put(&mut self.entries, plugin_name, schema);
        proof { uri_table::lemma_map_after_put(before, self.entries@, plugin_name@, sv, |s: PluginSettingsSchema| s@); }
    }

    /// Forgets the cached schema of the plugin.
    pub fn invalidate(&mut self, plugin_name: &str)
        requires
            old(self).wf(),
        ensures
            final(self).wf(),
            final(self).cached() == old(self).cached().remove(plugin_name@),
    {
        let ghost before = self.entries@;
        uri_table::remove(&mut self.entries, plugin_name);
        proof { uri_table::lemma_map_after_remove(before, self.entries@, plugin_name@, |s: PluginSettingsSchema| s@); }
    }

    /// Forgets every cached schema.
    pub fn clear(&mut self)
        ensures
            final(self).wf(),
            final(self).cached() == Map::<Seq<char>, SchemaView>::empty(),
    {
        self.entries = Vec::new();
        proof { assert(self.cached() =~= Map::<Seq<char>, SchemaView>::empty()); }
    }
}

impl Default for PluginSchemaCache {
    /// The same as `PluginSchemaCache::new`.
    fn default() -> (c: Self)
        ensures
            c.wf(),
            c.cached() == Map::<Seq<char>, SchemaView>::empty(),
    {
        PluginSchemaCache::new()
    }
}

} // verus!

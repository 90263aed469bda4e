//! The configuration graph: named types holding named, typed fields, whose
//! fields in turn carry named, typed arguments, plus the schema record that
//! designates the root types (query, mutation, subscription).
//!
//! Every piece is viewed as plain mathematical data: names become `Seq<char>`
//! and every ordered mapping becomes a sequence of key–value pairs, so that
//! contracts about the rename transform can speak about positions and
//! references exactly.

use vstd::prelude::*;

use crate::keyed::distinct_keys;
use crate::keyed::OrderedMap;

verus! {

/// The view of a field: its type reference and its arguments' names and
/// type references, in order.
#[verifier::ext_equal]
pub ghost struct FieldV {
    pub type_of: Seq<char>,
    pub args: Seq<(Seq<char>, Seq<char>)>,
}

/// The view of a type: its fields' names and views, in order.
pub type TypeV = Seq<(Seq<char>, FieldV)>;

/// The view of the schema record: the optional root-type names.
#[verifier::ext_equal]
pub ghost struct SchemaV {
    pub query: Option<Seq<char>>,
    pub mutation: Option<Seq<char>>,
    pub subscription: Option<Seq<char>>,
}

/// The view of a whole configuration.
#[verifier::ext_equal]
pub ghost struct ConfigV {
    pub types: Seq<(Seq<char>, TypeV)>,
    pub schema: SchemaV,
}

/// The view of an optional name.
pub open spec fn opt_name_view(o: Option<String>) -> Option<Seq<char>> {
    match o {
        Some(s) => Some(s@),
        None => None,
    }
}

/// A type's field names are pairwise distinct, and so are each field's
/// argument names.
pub open spec fn type_value_wf(t: TypeV) -> bool {
    &&& distinct_keys(t)
    &&& forall|j: int| 0 <= j < t.len() ==> distinct_keys((#[trigger] t[j]).1.args)
}

/// Every type of the sequence is well formed.
pub open spec fn types_values_wf(ts: Seq<(Seq<char>, TypeV)>) -> bool {
    forall|i: int| 0 <= i < ts.len() ==> type_value_wf((#[trigger] ts[i]).1)
}

/// An argument of a field: a type reference that must resolve to a key of
/// the configuration's types.
pub struct ArgInfo {
    pub type_of: String,
}

impl View for ArgInfo {
    type V = Seq<char>;

    open spec fn view(&self) -> Seq<char> {
        self.type_of@
    }
}

impl ArgInfo {
    /// An argument referencing the type named `type_of`.
    pub fn new(type_of: String) -> (r: Self)
        ensures
            r@ == type_of@,
    {
        ArgInfo { type_of }
    }
}

/// A field of a type: a type reference and an ordered mapping from argument
/// name to argument.
pub struct FieldInfo {
    pub type_of: String,
    pub args: OrderedMap<ArgInfo>,
}

impl View for FieldInfo {
    type V = FieldV;

    open spec fn view(&self) -> FieldV {
        FieldV { type_of: self.type_of@, args: self.args@ }
    }
}

impl FieldInfo {
    /// The argument names are pairwise distinct.
    pub open spec fn wf(&self) -> bool {
        distinct_keys(self@.args)
    }

    /// A field referencing the type named `type_of`, with no arguments.
    pub fn new(type_of: String) -> (r: Self)
        ensures
            r@.type_of == type_of@,
            r@.args == Seq::<(Seq<char>, Seq<char>)>::empty(),
            r.wf(),
    {
        FieldInfo { type_of, args: OrderedMap::new() }
    }
}

/// A type of the configuration: an ordered mapping from field name to field.
pub struct TypeInfo {
    pub fields: OrderedMap<FieldInfo>,
}

impl View for TypeInfo {
    type V = TypeV;

    open spec fn view(&self) -> TypeV {
        self.fields@
    }
}

impl TypeInfo {
    /// The field names are pairwise distinct, and each field is well formed.
    pub open spec fn wf(&self) -> bool {
        type_value_wf(self@)
    }

    /// A type with no fields.
    pub fn new() -> (r: Self)
        ensures
            r@ == Seq::<(Seq<char>, FieldV)>::empty(),
            r.wf(),
    {
        TypeInfo { fields: OrderedMap::new() }
    }
}

/// The schema record: the optional root-type names.
pub struct Schema {
    pub query: Option<String>,
    pub mutation: Option<String>,
    pub subscription: Option<String>,
}

impl View for Schema {
    type V = SchemaV;

    open spec fn view(&self) -> SchemaV {
        SchemaV {
            query: opt_name_view(self.query),
            mutation: opt_name_view(self.mutation),
            subscription: opt_name_view(self.subscription),
        }
    }
}

impl Schema {
    /// A schema with no root types set.
    pub fn new() -> (r: Self)
        ensures
            r@.query is None,
            r@.mutation is None,
            r@.subscription is None,
    {
        Schema { query: None, mutation: None, subscription: None }
    }
}

/// A configuration: an ordered mapping from type name to type, and the
/// schema record.
pub struct Config {
    pub types: OrderedMap<TypeInfo>,
    pub schema: Schema,
}

impl View for Config {
    type V = ConfigV;

    open spec fn view(&self) -> ConfigV {
        ConfigV { types: self.types@, schema: self.schema@ }
    }
}

impl Config {
    /// Internal self-consistency of the names: type names are pairwise
    /// distinct, and so are the field names of every type and the argument
    /// names of every field.
    pub open spec fn wf(&self) -> bool {
        &&& distinct_keys(self@.types)
        &&& types_values_wf(self@.types)
    }

    /// A configuration with no types and an empty schema record.
    pub fn new() -> (r: Self)
        ensures
            r@.types == Seq::<(Seq<char>, TypeV)>::empty(),
            r@.schema.query is None,
            r@.schema.mutation is None,
            r@.schema.subscription is None,
            r.wf(),
    {
        Config { types: OrderedMap::new(), schema: Schema::new() }
    }
}

} // verus!

//! The rename transform: rewrites every occurrence of each old type name in a
//! configuration — the type entries themselves, the schema root pointers, and
//! every field and argument type reference — after validating that every old
//! name exists, accumulating one error per missing name instead of stopping
//! at the first.

use vstd::prelude::*;
use vstd::string::StringExecFns;

use crate::config::Config;
use crate::config::FieldV;
use crate::config::SchemaV;
use crate::config::TypeV;
use crate::config::type_value_wf;
use crate::config::types_values_wf;
use crate::keyed::OrderedMap;
use crate::keyed::distinct_keys;
use crate::keyed::has_key;
use crate::keyed::lemma_rename_key_keys;
use crate::keyed::lemma_rename_key_values;
use crate::keyed::spec_insert;
use crate::keyed::spec_rename_key;
use crate::keyed::value_of;
use crate::valid::Valid;
use crate::valid::combined_errors;

verus! {

/// The message reported for a rename pair whose old name is absent.
pub open spec fn not_found_msg(name: Seq<char>) -> Seq<char> {
    "Type '"@ + name + "' not found in configuration."@
}

/// The views of a sequence of strings.
pub open spec fn strings_view(s: Seq<String>) -> Seq<Seq<char>> {
    s.map_values(|x: String| x@)
}

/// The views of a sequence of string pairs.
pub open spec fn pairs_view(s: Seq<(String, String)>) -> Seq<(Seq<char>, Seq<char>)> {
    s.map_values(|p: (String, String)| (p.0@, p.1@))
}

/// The mapping stored for a sequence of rename pairs: ordered-map insertion,
/// where a later pair with a duplicate old name overwrites the earlier one in
/// place.
pub open spec fn stored_mapping(pairs: Seq<(Seq<char>, Seq<char>)>) -> Seq<
    (Seq<char>, Seq<char>),
>
    decreases pairs.len(),
{
    if pairs.len() == 0 {
        Seq::empty()
    } else {
        spec_insert(stored_mapping(pairs.drop_last()), pairs.last().0, pairs.last().1)
    }
}

/// The old names of the rename pairs that are not keys of `ts`, in mapping
/// order.
pub open spec fn missing_names<T>(
    m: Seq<(Seq<char>, Seq<char>)>,
    ts: Seq<(Seq<char>, T)>,
) -> Seq<Seq<char>>
    decreases m.len(),
{
    if m.len() == 0 {
        Seq::empty()
    } else {
        missing_names(m.drop_last(), ts) + (if has_key(ts, m.last().0) {
            Seq::<Seq<char>>::empty()
        } else {
            seq![m.last().0]
        })
    }
}

/// The error messages of a failed transform: one per missing old name, in
/// mapping order.
pub open spec fn error_msgs<T>(
    m: Seq<(Seq<char>, Seq<char>)>,
    ts: Seq<(Seq<char>, T)>,
) -> Seq<Seq<char>>
    decreases m.len(),
{
    if m.len() == 0 {
        Seq::empty()
    } else {
        error_msgs(m.drop_last(), ts) + (if has_key(ts, m.last().0) {
            Seq::<Seq<char>>::empty()
        } else {
            seq![not_found_msg(m.last().0)]
        })
    }
}

/// No name is missing exactly when every old name is a key of `ts`.
pub proof fn lemma_no_missing_names<T>(m: Seq<(Seq<char>, Seq<char>)>, ts: Seq<(Seq<char>, T)>)
    ensures
        (missing_names(m, ts).len() == 0) <==> (forall|j: int|
            0 <= j < m.len() ==> has_key(ts, (#[trigger] m[j]).0)),
    decreases m.len(),
{
    if m.len() > 0 {
        lemma_no_missing_names(m.drop_last(), ts);
        assert(forall|j: int| 0 <= j < m.len() - 1 ==> m.drop_last()[j] == m[j]);
        assert(m.last() == m[m.len() - 1]);
    }
}

/// The types after the primary rewrite: each rename pair, in mapping order,
/// renames its entry in place.
pub open spec fn renamed_types<T>(
    ts: Seq<(Seq<char>, T)>,
    m: Seq<(Seq<char>, Seq<char>)>,
) -> Seq<(Seq<char>, T)>
    decreases m.len(),
{
    if m.len() == 0 {
        ts
    } else {
        spec_rename_key(renamed_types(ts, m.drop_last()), m.last().0, m.last().1)
    }
}

/// One rename pair's effect on the schema roots: a query root equal to the
/// old name is updated, else a mutation root equal to it is; the
/// subscription root is never touched.
pub open spec fn roots_step(s: SchemaV, old_key: Seq<char>, new_key: Seq<char>) -> SchemaV {
    if s.query == Some(old_key) {
        SchemaV { query: Some(new_key), mutation: s.mutation, subscription: s.subscription }
    } else if s.mutation == Some(old_key) {
        SchemaV { query: s.query, mutation: Some(new_key), subscription: s.subscription }
    } else {
        s
    }
}

/// The schema record after all rename pairs, applied in mapping order.
pub open spec fn renamed_schema(s: SchemaV, m: Seq<(Seq<char>, Seq<char>)>) -> SchemaV
    decreases m.len(),
{
    if m.len() == 0 {
        s
    } else {
        roots_step(renamed_schema(s, m.drop_last()), m.last().0, m.last().1)
    }
}

/// A type reference after the reference rewrite: replaced by its new name
/// when it is an old name of the mapping, untouched otherwise.
pub open spec fn rename_ref(m: Seq<(Seq<char>, Seq<char>)>, r: Seq<char>) -> Seq<char> {
    if has_key(m, r) {
        value_of(m, r)
    } else {
        r
    }
}

/// A field after the reference rewrite: its type reference and each
/// argument's type reference go through `rename_ref`; names and order are
/// untouched.
pub open spec fn rewritten_field(f: FieldV, m: Seq<(Seq<char>, Seq<char>)>) -> FieldV {
    FieldV {
        type_of: rename_ref(m, f.type_of),
        args: f.args.map_values(|a: (Seq<char>, Seq<char>)| (a.0, rename_ref(m, a.1))),
    }
}

/// A type after the reference rewrite: every field rewritten in place.
pub open spec fn rewritten_type(t: TypeV, m: Seq<(Seq<char>, Seq<char>)>) -> TypeV {
    t.map_values(|p: (Seq<char>, FieldV)| (p.0, rewritten_field(p.1, m)))
}

/// The types after the reference rewrite: every type rewritten in place.
pub open spec fn rewritten_types(
    ts: Seq<(Seq<char>, TypeV)>,
    m: Seq<(Seq<char>, Seq<char>)>,
) -> Seq<(Seq<char>, TypeV)> {
    ts.map_values(|p: (Seq<char>, TypeV)| (p.0, rewritten_type(p.1, m)))
}

/// Whether an optional root name equals `name`.
fn opt_matches(o: &Option<String>, name: &String) -> (r: bool)
    ensures
        r == (crate::config::opt_name_view(*o) == Some(name@)),
{
    match o {
        Some(s) => *s == *name,
        None => false,
    }
}

/// A transform that renames existing types by replacing them with suggested
/// names. It holds an ordered mapping from old name to new name.
pub struct RenameTypes {
    mapping: OrderedMap<String>,
}

impl View for RenameTypes {
    type V = Seq<(Seq<char>, Seq<char>)>;

    closed spec fn view(&self) -> Seq<(Seq<char>, Seq<char>)> {
        self.mapping@
    }
}

impl RenameTypes {
    /// The stored old names are pairwise distinct.
    pub open spec fn wf(&self) -> bool {
        distinct_keys(self@)
    }

    /// Stores the suggested names as an ordered mapping from old name to new
    /// name; a later pair with a duplicate old name overwrites the earlier
    /// one in place.
    pub fn new(suggested_names: Vec<(String, String)>) -> (r: Self)
        ensures
            r.wf(),
            r@ == stored_mapping(pairs_view(suggested_names@)),
    {
        let mut mapping = OrderedMap::<String>::new();
        let n = suggested_names.len();
        let mut i: usize = 0;
        while i < n
            invariant
                n == suggested_names@.len(),
                i <= n,
                mapping.wf(),
                mapping@ == stored_mapping(pairs_view(suggested_names@.take(i as int))),
            decreases n - i,
        {
            let k = suggested_names[i].0.clone();
            let v = suggested_names[i].1.clone();
            proof {
                let pv_next = pairs_view(suggested_names@.take(i + 1));
                assert(pv_next.drop_last() =~= pairs_view(suggested_names@.take(i as int)));
                assert(pv_next.last() == (k@, v@));
            }
            mapping.insert(k, v);
            i += 1;
        }
        proof {
            assert(suggested_names@.take(n as int) =~= suggested_names@);
        }
        RenameTypes { mapping }
    }

    /// Validates that every old name of the mapping is a type of the
    /// configuration, then renames each type entry in place, updates a query
    /// or mutation root equal to an old name, and finally rewrites every
    /// field and argument type reference. When any old name is missing, the
    /// whole transform fails with one error per missing name, in mapping
    /// order, and no rewritten configuration is produced.
    pub fn transform(&self, config: Config) -> (r: Valid<Config, String>)
        requires
            self.wf(),
            config.wf(),
        ensures
            r.wf(),
            missing_names(self@, config@.types).len() == 0 ==> (r matches Valid::Success(c2)
                && c2@.types == rewritten_types(renamed_types(config@.types, self@), self@)
                && c2@.schema == renamed_schema(config@.schema, self@) && c2.wf()),
            missing_names(self@, config@.types).len() > 0 ==> (r matches Valid::Failure(es)
                && strings_view(es@) == error_msgs(self@, config@.types)),
    {
        let ghost m = self@;
        let ghost ts0 = config@.types;
        let ghost sch0 = config@.schema;
        let n = self.mapping.len();

        // Existence check: one outcome per rename pair, no early exit.
        let mut outcomes: Vec<Valid<(), String>> = Vec::new();
        let mut i: usize = 0;
        while i < n
            invariant
                self.wf(),
                m == self@,
                n == m.len(),
                i <= n,
                config@.types == ts0,
                outcomes@.len() == i,
                forall|j: int| 0 <= j < i ==> (#[trigger] outcomes@[j]).wf(),
                strings_view(combined_errors(outcomes@)) == error_msgs(m.take(i as int), ts0),
            decreases n - i,
        {
            let old_name = self.mapping.key_at(i);
            let o: Valid<(), String> = if !config.types.contains_key(old_name) {
                Valid::fail(
                    "Type '".to_owned().concat(old_name.as_str()).concat(
                        "' not found in configuration.",
                    ),
                )
            } else {
                Valid::succeed(())
            };
            proof {
                assert(m.take(i + 1).drop_last() =~= m.take(i as int));
                assert(m.take(i + 1).last() == m[i as int]);
                assert(outcomes@.push(o).drop_last() =~= outcomes@);
                assert(outcomes@.push(o).last() == o);
                match &o {
                    Valid::Success(_) => {
                        assert(strings_view(combined_errors(outcomes@.push(o))) =~= strings_view(
                            combined_errors(outcomes@),
                        ));
                    },
                    Valid::Failure(es) => {
                        assert(strings_view(combined_errors(outcomes@.push(o))) =~= strings_view(
                            combined_errors(outcomes@),
                        ) + seq![not_found_msg(m[i as int].0)]);
                    },
                }
            }
            outcomes.push(o);
            i += 1;
        }
        proof {
            assert(m.take(n as int) =~= m);
        }

        match Valid::<(), String>::all_of(outcomes) {
            Valid::Failure(errors) => {
                proof {
                    assert(error_msgs(m, ts0).len() > 0);
                    lemma_error_msgs_missing(m, ts0);
                }
                return Valid::fail_all(errors);
            },
            Valid::Success(_) => {},
        }
        proof {
            assert(error_msgs(m, ts0).len() == 0);
            lemma_error_msgs_missing(m, ts0);
            lemma_no_missing_names(m, ts0);
        }

        // Primary rewrite: rename each type entry in place, in mapping
        // order, updating a query or mutation root equal to the old name.
        let mut config = config;
        let mut i: usize = 0;
        while i < n
            invariant
                self.wf(),
                m == self@,
                n == m.len(),
                i <= n,
                distinct_keys(config@.types),
                types_values_wf(config@.types),
                config@.types == renamed_types(ts0, m.take(i as int)),
                config@.schema == renamed_schema(sch0, m.take(i as int)),
                forall|j: int| i <= j < n ==> has_key(config@.types, (#[trigger] m[j]).0),
            decreases n - i,
        {
            let old_name = self.mapping.key_at(i).clone();
            let new_name = self.mapping.value_at(i).clone();
            proof {
                assert(m.take(i + 1).drop_last() =~= m.take(i as int));
                assert(m.take(i + 1).last() == m[i as int]);
                lemma_rename_key_keys(config@.types, old_name@, new_name@);
                lemma_rename_key_values(config@.types, old_name@, new_name@);
            }
            config.types.rename_key(&old_name, new_name.clone());
            if opt_matches(&config.schema.query, &old_name) {
                config.schema.query = Some(new_name);
            } else if opt_matches(&config.schema.mutation, &old_name) {
                config.schema.mutation = Some(new_name);
            }
            i += 1;
        }
        proof {
            assert(m.take(n as int) =~= m);
        }

        // Reference rewrite: every field's and argument's type reference
        // goes through the mapping; this phase cannot fail.
        let ghost ts1 = config@.types;
        let ghost sch1 = config@.schema;
        let tn = config.types.len();
        let mut i: usize = 0;
        while i < tn
            invariant
                self.wf(),
                m == self@,
                i <= tn,
                tn == config@.types.len(),
                tn == ts1.len(),
                distinct_keys(config@.types),
                types_values_wf(ts1),
                config@.schema == sch1,
                forall|j: int|
                    0 <= j < i ==> (#[trigger] config@.types[j]) == (
                        ts1[j].0,
                        rewritten_type(ts1[j].1, m),
                    ),
                forall|j: int| i <= j < tn ==> (#[trigger] config@.types[j]) == ts1[j],
            decreases tn - i,
        {
            let placeholder = crate::config::TypeInfo::new();
            let ti = config.types.set_value_at(i, placeholder);
            proof {
                assert(ti@ == ts1[i as int].1);
                assert(type_value_wf(ts1[i as int].1));
            }
            let ti2 = self.rewrite_type_info(ti);
            let _ = config.types.set_value_at(i, ti2);
            i += 1;
        }
        proof {
            assert(config@.types =~= rewritten_types(ts1, m));
            assert(types_values_wf(config@.types)) by {
                assert forall|j: int| 0 <= j < config@.types.len() implies type_value_wf(
                    (#[trigger] config@.types[j]).1,
                ) by {
                    lemma_rewritten_type_wf(ts1[j].1, m);
                }
            }
        }
        Valid::succeed(config)
    }

    /// Rewrites every field of a type through the mapping.
    fn rewrite_type_info(&self, t: crate::config::TypeInfo) -> (r: crate::config::TypeInfo)
        requires
            self.wf(),
            type_value_wf(t@),
        ensures
            r@ == rewritten_type(t@, self@),
    {
        let mut t = t;
        let ghost t0 = t@;
        let fn_count = t.fields.len();
        let mut j: usize = 0;
        while j < fn_count
            invariant
                self.wf(),
                j <= fn_count,
                fn_count == t@.len(),
                fn_count == t0.len(),
                distinct_keys(t@),
                type_value_wf(t0),
                forall|k: int|
                    0 <= k < j ==> (#[trigger] t@[k]) == (t0[k].0, rewritten_field(t0[k].1, self@)),
                forall|k: int| j <= k < fn_count ==> (#[trigger] t@[k]) == t0[k],
            decreases fn_count - j,
        {
            let placeholder = crate::config::FieldInfo::new(String::new());
            let f = t.fields.set_value_at(j, placeholder);
            proof {
                assert(f@ == t0[j as int].1);
                assert(distinct_keys(t0[j as int].1.args));
            }
            let f2 = self.rewrite_field(f);
            let _ = t.fields.set_value_at(j, f2);
            j += 1;
        }
        proof {
            assert(t@ =~= rewritten_type(t0, self@));
        }
        t
    }

    /// Rewrites a field's type reference and each of its arguments' type
    /// references through the mapping.
    fn rewrite_field(&self, f: crate::config::FieldInfo) -> (r: crate::config::FieldInfo)
        requires
            self.wf(),
            distinct_keys(f@.args),
        ensures
            r@ == rewritten_field(f@, self@),
    {
        let mut f = f;
        let ghost f0 = f@;
        match self.mapping.get(&f.type_of) {
            Some(n) => {
                let nn = n.clone();
                f.type_of = nn;
            },
            None => {},
        }
        proof {
            assert(f@.type_of == rename_ref(self@, f0.type_of));
            assert(f@.args == f0.args);
        }
        let an = f.args.len();
        let mut j: usize = 0;
        while j < an
            invariant
                self.wf(),
                j <= an,
                an == f@.args.len(),
                an == f0.args.len(),
                distinct_keys(f@.args),
                f@.type_of == rename_ref(self@, f0.type_of),
                forall|k: int|
                    0 <= k < j ==> (#[trigger] f@.args[k]) == (
                        f0.args[k].0,
                        rename_ref(self@, f0.args[k].1),
                    ),
                forall|k: int| j <= k < an ==> (#[trigger] f@.args[k]) == f0.args[k],
            decreases an - j,
        {
            let new_ref = {
                let a = f.args.value_at(j);
                match self.mapping.get(&a.type_of) {
                    Some(nn) => nn.clone(),
                    None => a.type_of.clone(),
                }
            };
            let _ = f.args.set_value_at(j, crate::config::ArgInfo::new(new_ref));
            j += 1;
        }
        proof {
            assert(f@.args =~= rewritten_field(f0, self@).args);
            assert(f@ =~~= rewritten_field(f0, self@));
        }
        f
    }
}

/// The reference rewrite keeps a type's field names, argument names and
/// order, so it keeps the type well formed.
pub proof fn lemma_rewritten_type_wf(t: TypeV, m: Seq<(Seq<char>, Seq<char>)>)
    requires
        type_value_wf(t),
    ensures
        type_value_wf(rewritten_type(t, m)),
{
    let r = rewritten_type(t, m);
    assert forall|a: int, b: int| 0 <= a < b < r.len() implies r[a].0 != r[b].0 by {
        assert(t[a].0 != t[b].0);
    }
    assert forall|j: int| 0 <= j < r.len() implies distinct_keys((#[trigger] r[j]).1.args) by {
        assert(distinct_keys(t[j].1.args));
        assert forall|a: int, b: int| 0 <= a < b < r[j].1.args.len() implies r[j].1.args[a].0
            != r[j].1.args[b].0 by {
            assert(t[j].1.args[a].0 != t[j].1.args[b].0);
        }
    }
}

/// The missing names are exactly the old names of the mapping that are not
/// keys of `ts`, kept in mapping order: one per missing pair, none for a
/// pair whose old name exists.
pub proof fn lemma_missing_names_filter<T>(m: Seq<(Seq<char>, Seq<char>)>, ts: Seq<(Seq<char>, T)>)
    ensures
        missing_names(m, ts) == crate::keyed::key_seq(m).filter(
            |k: Seq<char>| !has_key(ts, k),
        ),
    decreases m.len(),
{
    reveal(Seq::filter);
    let pred = |k: Seq<char>| !has_key(ts, k);
    if m.len() == 0 {
        assert(missing_names(m, ts) =~= crate::keyed::key_seq(m).filter(pred));
    } else {
        lemma_missing_names_filter(m.drop_last(), ts);
        assert(crate::keyed::key_seq(m).drop_last() =~= crate::keyed::key_seq(m.drop_last()));
        assert(crate::keyed::key_seq(m).last() == m.last().0);
        assert(missing_names(m, ts) =~= crate::keyed::key_seq(m).filter(pred));
    }
}

/// An empty rename mapping leaves everything unchanged: no name can be
/// missing, the types keep their keys, values and order, and the schema
/// record is untouched.
pub proof fn lemma_empty_rename_identity(c: crate::config::ConfigV)
    ensures
        missing_names(Seq::<(Seq<char>, Seq<char>)>::empty(), c.types).len() == 0,
        renamed_types(c.types, Seq::<(Seq<char>, Seq<char>)>::empty()) == c.types,
        rewritten_types(c.types, Seq::<(Seq<char>, Seq<char>)>::empty()) == c.types,
        renamed_schema(c.schema, Seq::<(Seq<char>, Seq<char>)>::empty()) == c.schema,
{
    let m = Seq::<(Seq<char>, Seq<char>)>::empty();
    assert forall|i: int| 0 <= i < c.types.len() implies (#[trigger] rewritten_types(
        c.types,
        m,
    )[i]) =~~= c.types[i] by {
        assert(rewritten_type(c.types[i].1, m) =~~= c.types[i].1) by {
            assert forall|j: int| 0 <= j < c.types[i].1.len() implies (#[trigger] rewritten_type(
                c.types[i].1,
                m,
            )[j]) =~~= c.types[i].1[j] by {
                assert(rewritten_field(c.types[i].1[j].1, m) =~~= c.types[i].1[j].1);
            }
        }
    }
    assert(rewritten_types(c.types, m) =~~= c.types);
}

/// With a key other than the mapping's last old name, a reference rewrites
/// the same way through the whole mapping as through all pairs but the last.
pub proof fn lemma_rename_ref_drop_last(m: Seq<(Seq<char>, Seq<char>)>, k: Seq<char>)
    requires
        distinct_keys(m),
        m.len() > 0,
        k != m.last().0,
    ensures
        rename_ref(m, k) == rename_ref(m.drop_last(), k),
{
    let mp = m.drop_last();
    if has_key(mp, k) {
        let j = crate::keyed::key_index(mp, k);
        assert(m[j].0 == k);
        crate::keyed::lemma_key_index(m, k, j);
    } else if has_key(m, k) {
        let j = crate::keyed::key_index(m, k);
        assert(0 <= j < m.len() && m[j].0 == k);
        assert(j != m.len() - 1);
        assert(mp[j].0 == k);
    }
}

/// Order preservation: with fresh, pairwise distinct new names, the primary
/// rewrite keeps every entry exactly at its position — a renamed entry keeps
/// its slot under its new name and its old value, and every other entry is
/// untouched.
pub proof fn lemma_order_preservation<T>(ts: Seq<(Seq<char>, T)>, m: Seq<(Seq<char>, Seq<char>)>)
    requires
        distinct_keys(ts),
        distinct_keys(m),
        forall|j: int| 0 <= j < m.len() ==> has_key(ts, (#[trigger] m[j]).0),
        forall|j: int| 0 <= j < m.len() ==> !has_key(ts, (#[trigger] m[j]).1),
        forall|i: int, j: int| 0 <= i < j < m.len() ==> m[i].1 != m[j].1,
    ensures
        renamed_types(ts, m).len() == ts.len(),
        forall|i: int|
            0 <= i < ts.len() ==> (#[trigger] renamed_types(ts, m)[i]) == (
                rename_ref(m, ts[i].0),
                ts[i].1,
            ),
        distinct_keys(renamed_types(ts, m)),
    decreases m.len(),
{
    if m.len() == 0 {
        assert forall|i: int| 0 <= i < ts.len() implies (#[trigger] renamed_types(ts, m)[i]) == (
            rename_ref(m, ts[i].0),
            ts[i].1,
        ) by {
            assert(!has_key(m, ts[i].0));
        }
    } else {
        let mp = m.drop_last();
        let o = m.last().0;
        let nw = m.last().1;
        assert(forall|j: int| 0 <= j < mp.len() ==> mp[j] == m[j]);
        lemma_order_preservation(ts, mp);
        let tsp = renamed_types(ts, mp);
        let io = crate::keyed::key_index(ts, o);
        assert(0 <= io < ts.len() && ts[io].0 == o) by {
            assert(has_key(ts, m[m.len() - 1].0));
        }
        // The old name is still a key of the intermediate sequence, at the
        // same position: no earlier pair renamed it.
        assert(tsp[io].0 == o) by {
            assert(!has_key(mp, o)) by {
                if has_key(mp, o) {
                    let j = crate::keyed::key_index(mp, o);
                    assert(m[j].0 == m[m.len() - 1].0);
                }
            }
        }
        assert(has_key(tsp, o));
        crate::keyed::lemma_key_index(tsp, o, io);
        // The new name collides with nothing: it is fresh in `ts` and no
        // earlier pair introduced it.
        assert(!has_key(tsp, nw)) by {
            if has_key(tsp, nw) {
                let a = crate::keyed::key_index(tsp, nw);
                assert(tsp[a].0 == rename_ref(mp, ts[a].0));
                if has_key(mp, ts[a].0) {
                    let j = crate::keyed::key_index(mp, ts[a].0);
                    assert(mp[j].1 == value_of(mp, ts[a].0)) by {
                        crate::keyed::lemma_key_index(mp, ts[a].0, j);
                    }
                    assert(m[j].1 == m[m.len() - 1].1);
                } else {
                    assert(ts[a].0 == nw);
                    assert(has_key(ts, m[m.len() - 1].1));
                }
            }
        }
        lemma_rename_key_keys(tsp, o, nw);
        let r = spec_rename_key(tsp, o, nw);
        assert(o != nw) by {
            assert(has_key(ts, m[m.len() - 1].0));
            assert(!has_key(ts, m[m.len() - 1].1));
        }
        assert(r == tsp.update(io, (nw, value_of(tsp, o))));
        assert(value_of(tsp, o) == tsp[io].1);
        assert forall|i: int| 0 <= i < ts.len() implies (#[trigger] r[i]) == (
            rename_ref(m, ts[i].0),
            ts[i].1,
        ) by {
            if i == io {
                assert(rename_ref(m, o) == nw) by {
                    crate::keyed::lemma_key_index(m, o, m.len() - 1);
                }
            } else {
                assert(r[i] == tsp[i]);
                assert(ts[i].0 != o);
                lemma_rename_ref_drop_last(m, ts[i].0);
            }
        }
    }
}

/// Referential closure: after a successful rename with fresh, pairwise
/// distinct new names, every field's and every argument's type reference
/// that equalled a renamed old name now equals the corresponding new name,
/// and every other reference is unchanged; names, order and everything else
/// are untouched.
pub proof fn lemma_referential_closure(
    ts: Seq<(Seq<char>, TypeV)>,
    m: Seq<(Seq<char>, Seq<char>)>,
)
    requires
        distinct_keys(ts),
        distinct_keys(m),
        forall|j: int| 0 <= j < m.len() ==> has_key(ts, (#[trigger] m[j]).0),
        forall|j: int| 0 <= j < m.len() ==> !has_key(ts, (#[trigger] m[j]).1),
        forall|i: int, j: int| 0 <= i < j < m.len() ==> m[i].1 != m[j].1,
    ensures
        ({
            let fin = rewritten_types(renamed_types(ts, m), m);
            &&& fin.len() == ts.len()
            &&& forall|i: int|
                0 <= i < ts.len() ==> (#[trigger] fin[i].0) == rename_ref(m, ts[i].0)
            &&& forall|i: int| 0 <= i < ts.len() ==> (#[trigger] fin[i].1.len()) == ts[i].1.len()
            &&& forall|i: int, j: int|
                0 <= i < ts.len() && 0 <= j < ts[i].1.len() ==> (#[trigger] fin[i].1[j]).0
                    == ts[i].1[j].0 && fin[i].1[j].1.type_of == rename_ref(
                    m,
                    ts[i].1[j].1.type_of,
                ) && fin[i].1[j].1.args == ts[i].1[j].1.args.map_values(
                    |a: (Seq<char>, Seq<char>)| (a.0, rename_ref(m, a.1)),
                )
        }),
{
    lemma_order_preservation(ts, m);
    let mid = renamed_types(ts, m);
    let fin = rewritten_types(mid, m);
    assert forall|i: int, j: int| 0 <= i < ts.len() && 0 <= j < ts[i].1.len() implies
        (#[trigger] fin[i].1[j]).0 == ts[i].1[j].0 && fin[i].1[j].1.type_of == rename_ref(
        m,
        ts[i].1[j].1.type_of,
    ) && fin[i].1[j].1.args == ts[i].1[j].1.args.map_values(
        |a: (Seq<char>, Seq<char>)| (a.0, rename_ref(m, a.1)),
    ) by {
        assert(mid[i].1 == ts[i].1);
        assert(fin[i].1 == rewritten_type(ts[i].1, m));
        assert(fin[i].1[j] == (ts[i].1[j].0, rewritten_field(ts[i].1[j].1, m)));
    }
}

/// After a successful rename with fresh, pairwise distinct new names, every
/// name that was a key of the types is still resolvable: its rewritten form
/// is a key of the final types, and the final types keep the keys of the
/// primary rewrite unchanged.
pub proof fn lemma_resolution(ts: Seq<(Seq<char>, TypeV)>, m: Seq<(Seq<char>, Seq<char>)>)
    requires
        distinct_keys(ts),
        distinct_keys(m),
        forall|j: int| 0 <= j < m.len() ==> has_key(ts, (#[trigger] m[j]).0),
        forall|j: int| 0 <= j < m.len() ==> !has_key(ts, (#[trigger] m[j]).1),
        forall|i: int, j: int| 0 <= i < j < m.len() ==> m[i].1 != m[j].1,
    ensures
        forall|x: Seq<char>|
            has_key(ts, x) ==> #[trigger] has_key(
                rewritten_types(renamed_types(ts, m), m),
                rename_ref(m, x),
            ),
{
    lemma_order_preservation(ts, m);
    let mid = renamed_types(ts, m);
    let fin = rewritten_types(mid, m);
    assert forall|x: Seq<char>| has_key(ts, x) implies #[trigger] has_key(
        fin,
        rename_ref(m, x),
    ) by {
        let i = crate::keyed::key_index(ts, x);
        assert(mid[i].0 == rename_ref(m, x));
        assert(fin[i].0 == rename_ref(m, x));
    }
}

/// The schema's query root is untouched when no rename pair's old name
/// equals it; likewise the mutation root and the subscription root, which
/// no pair ever touches.
pub proof fn lemma_roots_unrenamed(s: SchemaV, m: Seq<(Seq<char>, Seq<char>)>, x: Seq<char>)
    requires
        forall|j: int| 0 <= j < m.len() ==> (#[trigger] m[j]).0 != x,
    ensures
        s.query == Some(x) ==> renamed_schema(s, m).query == Some(x),
        s.mutation == Some(x) ==> renamed_schema(s, m).mutation == Some(x),
        renamed_schema(s, m).subscription == s.subscription,
    decreases m.len(),
{
    if m.len() > 0 {
        assert(forall|j: int| 0 <= j < m.len() - 1 ==> m.drop_last()[j] == m[j]);
        lemma_roots_unrenamed(s, m.drop_last(), x);
        assert(m.last() == m[m.len() - 1]);
    }
}

/// Every value the query root takes is the initial one or one of the
/// mapping's new names; likewise the mutation root.
pub proof fn lemma_roots_values(s: SchemaV, m: Seq<(Seq<char>, Seq<char>)>)
    ensures
        renamed_schema(s, m).query == s.query || exists|j: int|
            0 <= j < m.len() && renamed_schema(s, m).query == Some((#[trigger] m[j]).1),
        renamed_schema(s, m).mutation == s.mutation || exists|j: int|
            0 <= j < m.len() && renamed_schema(s, m).mutation == Some((#[trigger] m[j]).1),
    decreases m.len(),
{
    if m.len() > 0 {
        let mp = m.drop_last();
        assert(forall|j: int| 0 <= j < mp.len() ==> mp[j] == m[j]);
        lemma_roots_values(s, mp);
        let prev = renamed_schema(s, mp);
        let cur = renamed_schema(s, m);
        if cur.query != prev.query {
            assert(cur.query == Some(m[m.len() - 1].1));
        }
        if cur.mutation != prev.mutation {
            assert(cur.mutation == Some(m[m.len() - 1].1));
        }
        if prev.query != s.query {
            let j = choose|j: int| 0 <= j < mp.len() && prev.query == Some((#[trigger] mp[j]).1);
            assert(prev.query == Some(m[j].1));
        }
        if prev.mutation != s.mutation {
            let j = choose|j: int|
                0 <= j < mp.len() && prev.mutation == Some((#[trigger] mp[j]).1);
            assert(prev.mutation == Some(m[j].1));
        }
    }
}

/// Schema-root rewrite for the query root: when it equals a renamed old
/// name, and no new name is itself an old name, it ends up as exactly the
/// corresponding new name.
pub proof fn lemma_query_root_rewrite(
    s: SchemaV,
    m: Seq<(Seq<char>, Seq<char>)>,
    k: int,
)
    requires
        distinct_keys(m),
        0 <= k < m.len(),
        s.query == Some(m[k].0),
        forall|i: int, j: int| 0 <= i < m.len() && 0 <= j < m.len() ==> (#[trigger] m[i]).1 != (
        #[trigger] m[j]).0,
    ensures
        renamed_schema(s, m).query == Some(m[k].1),
    decreases m.len(),
{
    let mp = m.drop_last();
    assert(forall|j: int| 0 <= j < mp.len() ==> mp[j] == m[j]);
    if k == m.len() - 1 {
        assert forall|j: int| 0 <= j < mp.len() implies (#[trigger] mp[j]).0 != m[k].0 by {}
        lemma_roots_unrenamed(s, mp, m[k].0);
        assert(renamed_schema(s, mp).query == Some(m[k].0));
    } else {
        lemma_query_root_rewrite(s, mp, k);
        assert(renamed_schema(s, m).query == Some(m[k].1)) by {
            assert(renamed_schema(s, mp).query == Some(m[k].1));
            assert(m[k].1 != m[m.len() - 1].0);
        }
    }
}

/// Schema-root rewrite for the mutation root: when it equals a renamed old
/// name that the query root does not equal, and no new name is itself an
/// old name, it ends up as exactly the corresponding new name.
pub proof fn lemma_mutation_root_rewrite(
    s: SchemaV,
    m: Seq<(Seq<char>, Seq<char>)>,
    k: int,
)
    requires
        distinct_keys(m),
        0 <= k < m.len(),
        s.mutation == Some(m[k].0),
        s.query != Some(m[k].0),
        forall|i: int, j: int| 0 <= i < m.len() && 0 <= j < m.len() ==> (#[trigger] m[i]).1 != (
        #[trigger] m[j]).0,
    ensures
        renamed_schema(s, m).mutation == Some(m[k].1),
    decreases m.len(),
{
    let mp = m.drop_last();
    assert(forall|j: int| 0 <= j < mp.len() ==> mp[j] == m[j]);
    if k == m.len() - 1 {
        assert forall|j: int| 0 <= j < mp.len() implies (#[trigger] mp[j]).0 != m[k].0 by {}
        lemma_roots_unrenamed(s, mp, m[k].0);
        let prev = renamed_schema(s, mp);
        assert(prev.mutation == Some(m[k].0));
        // The query root cannot have become the old name: it is either the
        // initial query root or one of the new names, none of which is an
        // old name.
        lemma_roots_values(s, mp);
        assert(prev.query != Some(m[k].0)) by {
            if prev.query != s.query {
                let j = choose|j: int|
                    0 <= j < mp.len() && prev.query == Some((#[trigger] mp[j]).1);
                assert(m[j].1 != m[k].0);
            }
        }
    } else {
        lemma_mutation_root_rewrite(s, mp, k);
        let prev = renamed_schema(s, mp);
        assert(prev.mutation == Some(m[k].1));
        assert(m[k].1 != m[m.len() - 1].0);
        assert(renamed_schema(s, m).mutation == Some(m[k].1));
    }
}

/// The error messages are exactly the missing names' messages, in order: one
/// per missing pair, none for a pair whose old name exists.
pub proof fn lemma_error_msgs_missing<T>(m: Seq<(Seq<char>, Seq<char>)>, ts: Seq<(Seq<char>, T)>)
    ensures
        error_msgs(m, ts) == missing_names(m, ts).map_values(|x: Seq<char>| not_found_msg(x)),
        error_msgs(m, ts).len() == missing_names(m, ts).len(),
    decreases m.len(),
{
    if m.len() == 0 {
        assert(error_msgs(m, ts) =~= missing_names(m, ts).map_values(
            |x: Seq<char>| not_found_msg(x),
        ));
    } else {
        lemma_error_msgs_missing(m.drop_last(), ts);
        assert(error_msgs(m, ts) =~= missing_names(m, ts).map_values(
            |x: Seq<char>| not_found_msg(x),
        ));
    }
}

} // verus!

use vstd::prelude::*;

use crate::merge::{deep_update, spec_deep_update};
use crate::value::{
    dict_lookup, entries_vw, find_key, has_key, lemma_entries_vw, lemma_key_index,
    lemma_lookup_at_index, lemma_lookup_skip_head, lemma_lookup_wf, ValView, Value,
};

verus! {

/// How a configuration value's shape is given.  Only `Struct` — a fixed
/// tree of fields with defaults — is in use; `Mapping` names the degenerate
/// free-form shape and is kept for completeness.
#[derive(Debug, Clone, Copy, PartialEq, Eq, Structural)]
pub enum SchemaType {
    Struct,
    Mapping,
}

/// The value a schema field takes from the data: the data's value where the
/// kinds agree (recursing where both are dictionaries, anything for a null
/// default), the default where they do not or the data lacks the field.
pub open spec fn conform_value(dflt: ValView, data: Option<ValView>) -> ValView
    decreases dflt,
{
    match data {
        None => dflt,
        Some(x) => match dflt {
            ValView::Null => x,
            ValView::Bool(_) => if x is Bool {
                x
            } else {
                dflt
            },
            ValView::Int(_) => if x is Int {
                x
            } else {
                dflt
            },
            ValView::Text(_) => if x is Text {
                x
            } else {
                dflt
            },
            ValView::List(_) => if x is List {
                x
            } else {
                dflt
            },
            ValView::Dict(se) => match x {
                ValView::Dict(de) => ValView::Dict(conform_entries(se, de)),
                _ => dflt,
            },
        },
    }
}

/// The fields of a schema dictionary filled from the data: one entry per
/// schema field, in schema order, each conformed from the data's entry of
/// the same key.  Keys the schema does not know are dropped.
pub open spec fn conform_entries(
    se: Seq<(Seq<char>, ValView)>,
    de: Seq<(Seq<char>, ValView)>,
) -> Seq<(Seq<char>, ValView)>
    decreases se,
{
    if se.len() == 0 {
        Seq::empty()
    } else {
        seq![(se[0].0, conform_value(se[0].1, dict_lookup(de, se[0].0)))] + conform_entries(
            se.subrange(1, se.len() as int),
            de,
        )
    }
}

/// Decoding a data tree against a schema: every schema field filled from
/// the data where present and kind-compatible, from the default otherwise.
pub open spec fn spec_conform(schema: ValView, data: ValView) -> ValView {
    conform_value(schema, Some(data))
}

/// Whether a value is a fully-populated instance of the schema: same
/// dictionary keys in the same order, each field of the kind its default
/// has (anything under a null default, any list under a list default).
pub open spec fn conforms_value(dflt: ValView, v: ValView) -> bool
    decreases dflt,
{
    match dflt {
        ValView::Null => true,
        ValView::Bool(_) => v is Bool,
        ValView::Int(_) => v is Int,
        ValView::Text(_) => v is Text,
        ValView::List(_) => v is List,
        ValView::Dict(se) => match v {
            ValView::Dict(ve) => conforms_entries(se, ve),
            _ => false,
        },
    }
}

pub open spec fn conforms_entries(
    se: Seq<(Seq<char>, ValView)>,
    ve: Seq<(Seq<char>, ValView)>,
) -> bool
    decreases se,
{
    if se.len() == 0 {
        ve.len() == 0
    } else {
        &&& ve.len() == se.len()
        &&& ve[0].0 == se[0].0
        &&& conforms_value(se[0].1, ve[0].1)
        &&& conforms_entries(se.subrange(1, se.len() as int), ve.subrange(1, ve.len() as int))
    }
}

/// Whether the data decodes against the schema at all: every field the
/// data does hold must be of the kind the schema's default has (anything
/// under a null default), recursively.  Absent fields and keys the schema
/// does not know never hurt: the former take defaults, the latter are
/// dropped.
pub open spec fn decodable_value(dflt: ValView, data: Option<ValView>) -> bool
    decreases dflt,
{
    match data {
        None => true,
        Some(x) => match dflt {
            ValView::Null => true,
            ValView::Bool(_) => x is Bool,
            ValView::Int(_) => x is Int,
            ValView::Text(_) => x is Text,
            ValView::List(_) => x is List,
            ValView::Dict(se) => match x {
                ValView::Dict(de) => decodable_entries(se, de),
                _ => false,
            },
        },
    }
}

pub open spec fn decodable_entries(
    se: Seq<(Seq<char>, ValView)>,
    de: Seq<(Seq<char>, ValView)>,
) -> bool
    decreases se,
{
    if se.len() == 0 {
        true
    } else {
        decodable_value(se[0].1, dict_lookup(de, se[0].0)) && decodable_entries(
            se.subrange(1, se.len() as int),
            de,
        )
    }
}

/// `decodable_entries` is the conjunction over the schema's fields.
pub proof fn lemma_decodable_entries_pointwise(
    se: Seq<(Seq<char>, ValView)>,
    de: Seq<(Seq<char>, ValView)>,
)
    ensures
        decodable_entries(se, de) <==> forall|i: int|
            0 <= i < se.len() ==> decodable_value((#[trigger] se[i]).1, dict_lookup(de, se[i].0)),
    decreases se.len(),
{
    if se.len() > 0 {
        let rest = se.subrange(1, se.len() as int);
        lemma_decodable_entries_pointwise(rest, de);
        assert forall|i: int| 1 <= i < se.len() implies se[i] == rest[i - 1] by {}
        if decodable_entries(se, de) {
            assert forall|i: int|
                0 <= i < se.len() implies decodable_value(
                (#[trigger] se[i]).1,
                dict_lookup(de, se[i].0),
            ) by {
                if i > 0 {
                    assert(decodable_value(rest[i - 1].1, dict_lookup(de, rest[i - 1].0)));
                }
            }
        } else {
            if decodable_value(se[0].1, dict_lookup(de, se[0].0)) {
                let i = choose|i: int|
                    0 <= i < rest.len() && !decodable_value(
                        (#[trigger] rest[i]).1,
                        dict_lookup(de, rest[i].0),
                    );
                assert(se[i + 1] == rest[i]);
                assert(!decodable_value(se[i + 1].1, dict_lookup(de, se[i + 1].0)));
            }
        }
    }
}

/// What decoding a document against a schema yields: the conformed tree
/// where the document decodes, the bare defaults where it does not.
pub open spec fn spec_decode(schema: ValView, data: ValView) -> ValView {
    if decodable_value(schema, Some(data)) {
        spec_conform(schema, data)
    } else {
        schema
    }
}

/// What merging an update tree over a model's tree yields: the merged tree
/// re-decoded where it decodes, the base value unchanged where it does not.
pub open spec fn spec_merge_models(schema: ValView, base: ValView, upd: ValView) -> ValView {
    let merged = spec_deep_update(base, upd);
    if decodable_value(schema, Some(merged)) {
        spec_conform(schema, merged)
    } else {
        base
    }
}

/// A value that conforms to the schema also decodes against it.
pub proof fn lemma_conforms_decodable(dflt: ValView, v: ValView)
    requires
        dflt.wf(),
        conforms_value(dflt, v),
    ensures
        decodable_value(dflt, Some(v)),
    decreases dflt,
{
    match dflt {
        ValView::Dict(se) => match v {
            ValView::Dict(ve) => {
                lemma_conforms_decodable_entries(se, ve);
            },
            _ => {},
        },
        _ => {},
    }
}

proof fn lemma_conforms_decodable_entries(
    se: Seq<(Seq<char>, ValView)>,
    ve: Seq<(Seq<char>, ValView)>,
)
    requires
        ValView::Dict(se).wf(),
        conforms_entries(se, ve),
    ensures
        decodable_entries(se, ve),
    decreases se,
{
    if se.len() > 0 {
        let se_rest = se.subrange(1, se.len() as int);
        let ve_rest = ve.subrange(1, ve.len() as int);
        assert(ve[0].0 == se[0].0);
        assert(dict_lookup(ve, se[0].0) == Some(ve[0].1));
        assert(se[0].1.wf());
        lemma_conforms_decodable(se[0].1, ve[0].1);
        crate::merge::lemma_wf_tail(se);
        lemma_conforms_decodable_entries(se_rest, ve_rest);
        // the remaining fields never mention the head key, so what each of
        // them finds in the whole data is what it finds in the tail
        assert forall|i: int|
            0 <= i < se_rest.len() implies decodable_value(
            (#[trigger] se_rest[i]).1,
            dict_lookup(ve, se_rest[i].0),
        ) by {
            lemma_decodable_entries_pointwise(se_rest, ve_rest);
            assert(se_rest[i] == se[i + 1]);
            assert(se[i + 1].0 != se[0].0);
            lemma_lookup_skip_head(ve, se_rest[i].0);
            assert(decodable_value(se_rest[i].1, dict_lookup(ve_rest, se_rest[i].0)));
        }
        lemma_decodable_entries_pointwise(se_rest, ve);
    }
}

/// `conforms_entries` described entry by entry.
pub proof fn lemma_conforms_entries_pointwise(
    se: Seq<(Seq<char>, ValView)>,
    ve: Seq<(Seq<char>, ValView)>,
)
    requires
        conforms_entries(se, ve),
    ensures
        ve.len() == se.len(),
        forall|i: int|
            0 <= i < se.len() ==> (#[trigger] ve[i]).0 == se[i].0 && conforms_value(
                se[i].1,
                ve[i].1,
            ),
    decreases se.len(),
{
    if se.len() > 0 {
        let se_rest = se.subrange(1, se.len() as int);
        let ve_rest = ve.subrange(1, ve.len() as int);
        lemma_conforms_entries_pointwise(se_rest, ve_rest);
        assert forall|i: int|
            0 <= i < se.len() implies (#[trigger] ve[i]).0 == se[i].0 && conforms_value(
            se[i].1,
            ve[i].1,
        ) by {
            if i > 0 {
                assert(se_rest[i - 1] == se[i]);
                assert(ve_rest[i - 1] == ve[i]);
            }
        }
    }
}

/// The deep merge of two fully-populated instances of a schema always
/// decodes against that schema: valid models never fall into the
/// unchanged-value fallback, so merging models always truly merges.
pub proof fn lemma_merge_conforming_decodable(dflt: ValView, a: ValView, b: ValView)
    requires
        dflt.wf(),
        conforms_value(dflt, a),
        conforms_value(dflt, b),
    ensures
        decodable_value(dflt, Some(spec_deep_update(a, b))),
    decreases dflt,
{
    match dflt {
        ValView::Null => {},
        ValView::Dict(se) => {
            let ae = a->Dict_0;
            let be = b->Dict_0;
            lemma_conforms_entries_pointwise(se, ae);
            lemma_conforms_entries_pointwise(se, be);
            assert forall|i: int, j: int| 0 <= i < j < ae.len() implies (#[trigger] ae[i]).0 != (
            #[trigger] ae[j]).0 by {
                assert(se[i].0 != se[j].0);
            }
            assert forall|i: int, j: int| 0 <= i < j < be.len() implies (#[trigger] be[i]).0 != (
            #[trigger] be[j]).0 by {
                assert(se[i].0 != se[j].0);
            }
            let me = crate::merge::merge_entries(ae, be);
            assert(spec_deep_update(a, b) == ValView::Dict(me));
            assert forall|i: int|
                0 <= i < se.len() implies decodable_value(
                (#[trigger] se[i]).1,
                dict_lookup(me, se[i].0),
            ) by {
                lemma_lookup_at_index(ae, i);
                lemma_lookup_at_index(be, i);
                crate::merge::lemma_merge_lookup(ae, be, se[i].0);
                let av = ae[i].1;
                let bv = be[i].1;
                assert(dict_lookup(ae, se[i].0) == Some(av));
                assert(dict_lookup(be, se[i].0) == Some(bv));
                assert(se[i].1.wf());
                if crate::merge::is_empty_text(bv) {
                    lemma_conforms_decodable(se[i].1, av);
                } else if av is Dict && bv is Dict {
                    lemma_merge_conforming_decodable(se[i].1, av, bv);
                } else {
                    lemma_conforms_decodable(se[i].1, bv);
                }
            }
            lemma_decodable_entries_pointwise(se, me);
        },
        _ => {
            lemma_conforms_decodable(dflt, b);
            assert(spec_deep_update(a, b) == b);
        },
    }
}

/// Merging one valid model's tree over another's is exactly the conformed
/// deep merge: the decode step of a model merge cannot fail.
pub proof fn lemma_merge_models_conform(schema: ValView, base: ValView, upd: ValView)
    requires
        schema.wf(),
        conforms_value(schema, base),
        conforms_value(schema, upd),
    ensures
        spec_merge_models(schema, base, upd) == spec_conform(schema, spec_deep_update(base, upd)),
{
    lemma_merge_conforming_decodable(schema, base, upd);
}

/// `conform_entries` described entry by entry.
pub proof fn lemma_conform_entries_pointwise(
    se: Seq<(Seq<char>, ValView)>,
    de: Seq<(Seq<char>, ValView)>,
)
    ensures
        conform_entries(se, de).len() == se.len(),
        forall|i: int|
            0 <= i < se.len() ==> #[trigger] conform_entries(se, de)[i] == (se[i].0, conform_value(
                se[i].1,
                dict_lookup(de, se[i].0),
            )),
    decreases se.len(),
{
    if se.len() > 0 {
        let rest = se.subrange(1, se.len() as int);
        lemma_conform_entries_pointwise(rest, de);
        assert forall|i: int|
            0 <= i < se.len() implies #[trigger] conform_entries(se, de)[i] == (se[i].0,
        conform_value(se[i].1, dict_lookup(de, se[i].0))) by {
            if i > 0 {
                assert(rest[i - 1] == se[i]);
                assert(conform_entries(se, de)[i] == conform_entries(rest, de)[i - 1]);
            }
        }
    }
}

/// What decoding produces always conforms to the schema.
pub proof fn lemma_conform_conforms(dflt: ValView, data: Option<ValView>)
    ensures
        conforms_value(dflt, conform_value(dflt, data)),
    decreases dflt,
{
    match data {
        None => {
            lemma_conforms_self(dflt);
        },
        Some(x) => match dflt {
            ValView::Dict(se) => match x {
                ValView::Dict(de) => {
                    lemma_conform_conforms_entries(se, de);
                },
                _ => {
                    lemma_conforms_self(dflt);
                },
            },
            _ => {
                if !conforms_value(dflt, conform_value(dflt, data)) {
                    lemma_conforms_self(dflt);
                }
            },
        },
    }
}

proof fn lemma_conform_conforms_entries(
    se: Seq<(Seq<char>, ValView)>,
    de: Seq<(Seq<char>, ValView)>,
)
    ensures
        conforms_entries(se, conform_entries(se, de)),
    decreases se,
{
    if se.len() > 0 {
        let rest = se.subrange(1, se.len() as int);
        let out = conform_entries(se, de);
        lemma_conform_conforms(se[0].1, dict_lookup(de, se[0].0));
        lemma_conform_conforms_entries(rest, de);
        assert(out.subrange(1, out.len() as int) =~= conform_entries(rest, de));
    }
}

/// A schema's tree of defaults conforms to the schema itself.
pub proof fn lemma_conforms_self(dflt: ValView)
    ensures
        conforms_value(dflt, dflt),
    decreases dflt,
{
    match dflt {
        ValView::Dict(se) => {
            lemma_conforms_self_entries(se);
        },
        _ => {},
    }
}

proof fn lemma_conforms_self_entries(se: Seq<(Seq<char>, ValView)>)
    ensures
        conforms_entries(se, se),
    decreases se,
{
    if se.len() > 0 {
        lemma_conforms_self(se[0].1);
        lemma_conforms_self_entries(se.subrange(1, se.len() as int));
    }
}

/// Decoding well-formed data against a well-formed schema yields a
/// well-formed tree.
pub proof fn lemma_conform_wf(dflt: ValView, data: Option<ValView>)
    requires
        dflt.wf(),
        data matches Some(x) ==> x.wf(),
    ensures
        conform_value(dflt, data).wf(),
    decreases dflt,
{
    match data {
        None => {},
        Some(x) => match dflt {
            ValView::Dict(se) => match x {
                ValView::Dict(de) => {
                    lemma_conform_wf_entries(se, de);
                },
                _ => {},
            },
            _ => {},
        },
    }
}

proof fn lemma_conform_wf_entries(se: Seq<(Seq<char>, ValView)>, de: Seq<(Seq<char>, ValView)>)
    requires
        ValView::Dict(se).wf(),
        ValView::Dict(de).wf(),
    ensures
        ValView::Dict(conform_entries(se, de)).wf(),
    decreases se,
{
    let out = conform_entries(se, de);
    lemma_conform_entries_pointwise(se, de);
    assert forall|i: int| 0 <= i < out.len() implies (#[trigger] out[i]).1.wf() by {
        assert(out[i] == (se[i].0, conform_value(se[i].1, dict_lookup(de, se[i].0))));
        assert(se[i].1.wf());
        lemma_key_index(de, se[i].0);
        if has_key(de, se[i].0) {
            lemma_lookup_wf(de, se[i].0);
        }
        lemma_conform_wf(se[i].1, dict_lookup(de, se[i].0));
    }
    assert forall|i: int, j: int| 0 <= i < j < out.len() implies (#[trigger] out[i]).0 != (
    #[trigger] out[j]).0 by {
        assert(out[i].0 == se[i].0);
        assert(out[j].0 == se[j].0);
        assert(se[i].0 != se[j].0);
    }
}

/// Conforming against data whose first entry's key the schema does not
/// mention reads only the data's remaining entries.
proof fn lemma_conform_entries_drop_head(
    se: Seq<(Seq<char>, ValView)>,
    de: Seq<(Seq<char>, ValView)>,
)
    requires
        de.len() > 0,
        forall|i: int| 0 <= i < se.len() ==> (#[trigger] se[i]).0 != de[0].0,
    ensures
        conform_entries(se, de) == conform_entries(se, de.subrange(1, de.len() as int)),
    decreases se,
{
    if se.len() > 0 {
        let rest = se.subrange(1, se.len() as int);
        assert(se[0].0 != de[0].0);
        lemma_lookup_skip_head(de, se[0].0);
        assert forall|i: int| 0 <= i < rest.len() implies (#[trigger] rest[i]).0 != de[0].0 by {
            assert(rest[i] == se[i + 1]);
        }
        lemma_conform_entries_drop_head(rest, de);
    }
}

/// Round trip: a value that conforms to the schema decodes back to itself.
/// Since encoding a model is handing its tree out unchanged, decoding an
/// encoded valid value returns that value.
pub proof fn lemma_conform_roundtrip(schema: ValView, v: ValView)
    requires
        schema.wf(),
        conforms_value(schema, v),
    ensures
        spec_conform(schema, v) == v,
    decreases schema,
{
    match schema {
        ValView::Dict(se) => match v {
            ValView::Dict(ve) => {
                lemma_conform_roundtrip_entries(se, ve);
            },
            _ => {},
        },
        _ => {},
    }
}

proof fn lemma_conform_roundtrip_entries(
    se: Seq<(Seq<char>, ValView)>,
    ve: Seq<(Seq<char>, ValView)>,
)
    requires
        ValView::Dict(se).wf(),
        conforms_entries(se, ve),
    ensures
        conform_entries(se, ve) == ve,
    decreases se,
{
    if se.len() == 0 {
        assert(conform_entries(se, ve) =~= ve);
    } else {
        let se_rest = se.subrange(1, se.len() as int);
        let ve_rest = ve.subrange(1, ve.len() as int);
        // the head field reads its own entry back
        assert(ve[0].0 == se[0].0);
        assert(dict_lookup(ve, se[0].0) == Some(ve[0].1));
        assert(se[0].1.wf());
        lemma_conform_roundtrip(se[0].1, ve[0].1);
        // the remaining fields never mention the head key, so they read the
        // same values from the tail of the data
        assert forall|i: int| 0 <= i < se_rest.len() implies (#[trigger] se_rest[i]).0
            != ve[0].0 by {
            assert(se_rest[i] == se[i + 1]);
            assert(se[i + 1].0 != se[0].0);
        }
        lemma_conform_entries_drop_head(se_rest, ve);
        crate::merge::lemma_wf_tail(se);
        lemma_conform_roundtrip_entries(se_rest, ve_rest);
        assert(conform_entries(se, ve) =~= ve);
    }
}

/// Decode `data` against the schema `dflt`, field by field.
fn conform_exec(dflt: &Value, data: Option<&Value>) -> (r: Value)
    ensures
        r@ == conform_value(
            dflt@,
            match data {
                Some(d) => Some(d@),
                None => None,
            },
        ),
    decreases *dflt,
{
    let d: &Value = match data {
        Some(d) => d,
        None => {
            return dflt.deep_copy();
        },
    };
    match dflt {
        Value::Null => d.deep_copy(),
        Value::Bool(_) => match d {
            Value::Bool(x) => Value::Bool(*x),
            _ => dflt.deep_copy(),
        },
        Value::Int(_) => match d {
            Value::Int(x) => Value::Int(*x),
            _ => dflt.deep_copy(),
        },
        Value::Text(_) => match d {
            Value::Text(x) => Value::Text(x.clone()),
            _ => dflt.deep_copy(),
        },
        Value::List(_) => match d {
            Value::List(_) => d.deep_copy(),
            _ => dflt.deep_copy(),
        },
        Value::Dict(sentries) => match d {
            Value::Dict(dentries) => {
                let ghost sev = entries_vw(sentries@);
                let ghost dev = entries_vw(dentries@);
                let n: usize = sentries.len();
                let mut out: Vec<(String, Value)> = Vec::new();
                let mut idx: usize = 0;
                proof {
                    lemma_entries_vw(sentries@);
                }
                while idx < n
                    invariant
                        *dflt == Value::Dict(*sentries),
                        *d == Value::Dict(*dentries),
                        sev == entries_vw(sentries@),
                        dev == entries_vw(dentries@),
                        n == sentries@.len(),
                        sev.len() == n,
                        idx <= n,
                        out@.len() == idx,
                        forall|i: int|
                            0 <= i < idx ==> #[trigger] entries_vw(out@)[i] == (sev[i].0,
                            conform_value(sev[i].1, dict_lookup(dev, sev[i].0))),
                    decreases n - idx,
                {
                    proof {
                        lemma_entries_vw(sentries@);
                        assert(sev[idx as int] == (sentries@[idx as int].0@, sentries@[
                            idx as int].1@));
                    }
                    let k: &String = &sentries[idx].0;
                    let dv: &Value = &sentries[idx].1;
                    let pos = find_key(dentries, k);
                    proof {
                        assert(decreases_to!(*dflt => dflt->Dict_0));
                        assert(decreases_to!(*sentries => sentries@[idx as int])) by {
                            broadcast use vstd::std_specs::vec::axiom_vec_index_decreases;

                        }
                        assert(decreases_to!(sentries@[idx as int] => sentries@[idx as int].1));
                        lemma_entries_vw(dentries@);
                        if pos is Some {
                            let j = pos->Some_0 as int;
                            assert(dev[j] == (dentries@[j].0@, dentries@[j].1@));
                            assert(dict_lookup(dev, k@) == Some(dentries@[j].1@));
                        }
                    }
                    let c = match pos {
                        Some(j) => conform_exec(dv, Some(&dentries[j].1)),
                        None => conform_exec(dv, None),
                    };
                    let ghost old_out = out@;
                    out.push((k.clone(), c));
                    proof {
                        lemma_entries_vw(out@);
                        lemma_entries_vw(old_out);
                        assert forall|i: int|
                            0 <= i < idx + 1 implies #[trigger] entries_vw(out@)[i] == (sev[i].0,
                        conform_value(sev[i].1, dict_lookup(dev, sev[i].0))) by {
                            if i < idx {
                                assert(out@[i] == old_out[i]);
                                assert(entries_vw(out@)[i] == (old_out[i].0@, old_out[i].1@));
                                assert(entries_vw(old_out)[i] == (old_out[i].0@, old_out[i].1@));
                            }
                        }
                    }
                    idx += 1;
                }
                proof {
                    lemma_entries_vw(out@);
                    lemma_conform_entries_pointwise(sev, dev);
                    assert(entries_vw(out@) =~= conform_entries(sev, dev));
                }
                Value::Dict(out)
            },
            _ => dflt.deep_copy(),
        },
    }
}

/// Whether `data` decodes against the schema `dflt`.
fn is_decodable(dflt: &Value, data: Option<&Value>) -> (r: bool)
    ensures
        r == decodable_value(
            dflt@,
            match data {
                Some(d) => Some(d@),
                None => None,
            },
        ),
    decreases *dflt,
{
    let d: &Value = match data {
        Some(d) => d,
        None => {
            return true;
        },
    };
    match dflt {
        Value::Null => true,
        Value::Bool(_) => match d {
            Value::Bool(_) => true,
            _ => false,
        },
        Value::Int(_) => match d {
            Value::Int(_) => true,
            _ => false,
        },
        Value::Text(_) => match d {
            Value::Text(_) => true,
            _ => false,
        },
        Value::List(_) => match d {
            Value::List(_) => true,
            _ => false,
        },
        Value::Dict(sentries) => match d {
            Value::Dict(dentries) => {
                let ghost sev = entries_vw(sentries@);
                let ghost dev = entries_vw(dentries@);
                let n: usize = sentries.len();
                let mut idx: usize = 0;
                proof {
                    lemma_entries_vw(sentries@);
                    lemma_decodable_entries_pointwise(sev, dev);
                }
                while idx < n
                    invariant
                        data == Some(d),
                        *dflt == Value::Dict(*sentries),
                        *d == Value::Dict(*dentries),
                        sev == entries_vw(sentries@),
                        dev == entries_vw(dentries@),
                        n == sentries@.len(),
                        sev.len() == n,
                        idx <= n,
                        forall|i: int|
                            0 <= i < idx ==> decodable_value(
                                (#[trigger] sev[i]).1,
                                dict_lookup(dev, sev[i].0),
                            ),
                    decreases n - idx,
                {
                    proof {
                        lemma_entries_vw(sentries@);
                        assert(sev[idx as int] == (sentries@[idx as int].0@, sentries@[
                            idx as int].1@));
                        assert(decreases_to!(*dflt => dflt->Dict_0));
                        assert(decreases_to!(*sentries => sentries@[idx as int])) by {
                            broadcast use vstd::std_specs::vec::axiom_vec_index_decreases;

                        }
                        assert(decreases_to!(sentries@[idx as int] => sentries@[idx as int].1));
                    }
                    let k: &String = &sentries[idx].0;
                    let dv: &Value = &sentries[idx].1;
                    let pos = find_key(dentries, k);
                    proof {
                        lemma_entries_vw(dentries@);
                        if pos is Some {
                            let j = pos->Some_0 as int;
                            assert(dev[j] == (dentries@[j].0@, dentries@[j].1@));
                            assert(dict_lookup(dev, k@) == Some(dentries@[j].1@));
                        }
                    }
                    let field_ok = match pos {
                        Some(j) => is_decodable(dv, Some(&dentries[j].1)),
                        None => is_decodable(dv, None),
                    };
                    if !field_ok {
                        proof {
                            assert(sev[idx as int].0 == k@);
                            assert(sev[idx as int].1 == dv@);
                            assert(!decodable_value(
                                sev[idx as int].1,
                                dict_lookup(dev, sev[idx as int].0),
                            ));
                            lemma_decodable_entries_pointwise(sev, dev);
                            assert(!decodable_entries(sev, dev));
                        }
                        return false;
                    }
                    idx += 1;
                }
                proof {
                    lemma_decodable_entries_pointwise(sev, dev);
                }
                true
            },
            _ => false,
        },
    }
}

/// A typed configuration value.  `schema` is the tree of defaults that
/// gives every field its name, kind and default; `model` is the current
/// value, always a fully-populated instance of the schema — fields absent
/// from input data take their defaults, never stay unset.
#[derive(Debug, PartialEq)]
pub struct ConfigModel {
    pub schema_type: SchemaType,
    pub schema: Value,
    pub model: Value,
}

impl ConfigModel {
    /// The model's invariant: the schema is a well-formed dictionary and
    /// the value is a well-formed, fully-populated instance of it.
    pub open spec fn inv(&self) -> bool {
        &&& self.schema@.wf()
        &&& self.schema@ is Dict
        &&& self.model@.wf()
        &&& conforms_value(self.schema@, self.model@)
    }

    /// Build a model from a schema and optional data: absent data means the
    /// defaults themselves.  Present data that decodes is taken field by
    /// field, absent fields falling back to their defaults; data that does
    /// not decode degrades to the bare defaults rather than failing, so a
    /// corrupt or partial file never stops the manager.
    pub fn from_schema(schema: Value, data: Option<Value>) -> (r: ConfigModel)
        requires
            schema@.wf(),
            schema@ is Dict,
            data matches Some(d) ==> d@.wf(),
        ensures
            r.inv(),
            r.schema_type == SchemaType::Struct,
            r.schema@ == schema@,
            r.model@ == match data {
                None => schema@,
                Some(d) => spec_decode(schema@, d@),
            },
    {
        let model = match &data {
            Some(d) => {
                if is_decodable(&schema, Some(d)) {
                    conform_exec(&schema, Some(d))
                } else {
                    schema.deep_copy()
                }
            },
            None => schema.deep_copy(),
        };
        proof {
            lemma_conforms_self(schema@);
            match data {
                Some(d) => {
                    lemma_conform_wf(schema@, Some(d@));
                    lemma_conform_conforms(schema@, Some(d@));
                },
                None => {},
            }
        }
        ConfigModel { schema_type: SchemaType::Struct, schema, model }
    }

    /// The current typed value.
    pub fn model(&self) -> (r: &Value)
        ensures
            r@ == self.model@,
    {
        &self.model
    }

    /// Encode the value back to a plain tree.  Encoding never fails: the
    /// value already is a tree, handed out as a copy.
    pub fn to_dict(&self) -> (r: Value)
        ensures
            r@ == self.model@,
    {
        self.model.deep_copy()
    }

    /// Apply a partial update: deep-merge `data` over the current tree and
    /// decode the merged tree back against the schema.  Where the merged
    /// tree does not decode the value is left unchanged — the update is
    /// then a silent no-op.
    pub fn update(&mut self, data: Value)
        requires
            old(self).inv(),
            data@.wf(),
            data@ is Dict,
        ensures
            final(self).inv(),
            final(self).schema@ == old(self).schema@,
            final(self).schema_type == old(self).schema_type,
            final(self).model@ == spec_merge_models(old(self).schema@, old(self).model@, data@),
    {
        let current = self.to_dict();
        let updated = deep_update(current, data);
        if is_decodable(&self.schema, Some(&updated)) {
            let new_model = conform_exec(&self.schema, Some(&updated));
            proof {
                lemma_conform_wf(self.schema@, Some(updated@));
                lemma_conform_conforms(self.schema@, Some(updated@));
            }
            self.model = new_model;
        }
    }

    /// A new model whose tree is the other's deep-merged over this one's,
    /// decoded against the shared schema.  Non-destructive: both inputs are
    /// left as they are; where the merged tree does not decode the new
    /// model keeps this one's value.
    pub fn merge(&self, other: &Self) -> (r: Self)
        requires
            self.inv(),
            other.inv(),
            other.schema@ == self.schema@,
        ensures
            r.inv(),
            r.schema@ == self.schema@,
            r.schema_type == self.schema_type,
            r.model@ == spec_merge_models(self.schema@, self.model@, other.model@),
    {
        let base_dict = self.to_dict();
        let other_dict = other.to_dict();
        let merged_dict = deep_update(base_dict, other_dict);
        let model = if is_decodable(&self.schema, Some(&merged_dict)) {
            let m = conform_exec(&self.schema, Some(&merged_dict));
            proof {
                lemma_conform_wf(self.schema@, Some(merged_dict@));
                lemma_conform_conforms(self.schema@, Some(merged_dict@));
            }
            m
        } else {
            self.model.deep_copy()
        };
        ConfigModel { schema_type: self.schema_type, schema: self.schema.deep_copy(), model }
    }
}

impl Clone for ConfigModel {
    /// A clone carries the same schema and the same value.
    fn clone(&self) -> (r: Self)
        ensures
            r.schema_type == self.schema_type,
            r.schema@ == self.schema@,
            r.model@ == self.model@,
    {
        ConfigModel {
            schema_type: self.schema_type,
            schema: self.schema.deep_copy(),
            model: self.model.deep_copy(),
        }
    }
}

/// Round trip at the model level: a model's own encoded tree, decoded back
/// against its schema, is the model's value again.
pub proof fn lemma_model_roundtrip(m: &ConfigModel)
    requires
        m.inv(),
    ensures
        spec_decode(m.schema@, m.model@) == m.model@,
        spec_conform(m.schema@, m.model@) == m.model@,
{
    lemma_conforms_decodable(m.schema@, m.model@);
    lemma_conform_roundtrip(m.schema@, m.model@);
}

} // verus!

use vstd::prelude::*;

use crate::value::{
    dict_lookup, entries_vw, find_key, has_key, key_index, keys_unique, lemma_entries_vw,
    lemma_key_index, lemma_lookup_skip_head, lemma_lookup_wf, ValView, Value,
};

verus! {

/// An entry value equal to the empty string: in an update it means
/// "no override" and is skipped, keeping whatever the base holds.
pub open spec fn is_empty_text(v: ValView) -> bool {
    v == ValView::Text(Seq::<char>::empty())
}

/// Store `v` under `key`: replace the first entry carrying `key` in place,
/// or append a new entry if no entry carries it.
pub open spec fn set_key(
    entries: Seq<(Seq<char>, ValView)>,
    key: Seq<char>,
    v: ValView,
) -> Seq<(Seq<char>, ValView)> {
    if has_key(entries, key) {
        entries.update(key_index(entries, key), (key, v))
    } else {
        entries.push((key, v))
    }
}

/// Merge one update entry into the base entries, following the merge rules:
/// an empty-string value is skipped; two dictionaries merge recursively;
/// anything else replaces or is added outright.
pub open spec fn merge_step(
    b: Seq<(Seq<char>, ValView)>,
    key: Seq<char>,
    v: ValView,
) -> Seq<(Seq<char>, ValView)>
    decreases v,
{
    if is_empty_text(v) {
        b
    } else {
        match (dict_lookup(b, key), v) {
            (Some(ValView::Dict(be)), ValView::Dict(ue)) => set_key(
                b,
                key,
                ValView::Dict(merge_entries(be, ue)),
            ),
            _ => set_key(b, key, v),
        }
    }
}

/// Merge the update entries into the base entries, first to last.
pub open spec fn merge_entries(
    b: Seq<(Seq<char>, ValView)>,
    u: Seq<(Seq<char>, ValView)>,
) -> Seq<(Seq<char>, ValView)>
    decreases u,
{
    if u.len() == 0 {
        b
    } else {
        merge_entries(merge_step(b, u[0].0, u[0].1), u.subrange(1, u.len() as int))
    }
}

/// The recursive merge of two dictionary trees: for each key the update
/// sets, an empty-string value is skipped, two dictionaries merge
/// recursively, and any other value replaces the base's outright; keys the
/// update does not set keep the base's value.
pub open spec fn spec_deep_update(b: ValView, u: ValView) -> ValView {
    match (b, u) {
        (ValView::Dict(be), ValView::Dict(ue)) => ValView::Dict(merge_entries(be, ue)),
        _ => u,
    }
}

/// What lookup finds in a merged dictionary, given what it finds in the two
/// inputs.
pub open spec fn merged_lookup(bo: Option<ValView>, uo: Option<ValView>) -> Option<ValView> {
    match uo {
        None => bo,
        Some(uv) => {
            if is_empty_text(uv) {
                bo
            } else {
                match bo {
                    Some(bv) => {
                        if bv is Dict && uv is Dict {
                            Some(spec_deep_update(bv, uv))
                        } else {
                            Some(uv)
                        }
                    },
                    None => Some(uv),
                }
            }
        },
    }
}

/// After `set_key`, looking up `key` finds `v` and every other key finds
/// what it found before; the entry count grows only for a new key.
pub proof fn lemma_set_key_lookup(
    entries: Seq<(Seq<char>, ValView)>,
    key: Seq<char>,
    v: ValView,
    key2: Seq<char>,
)
    ensures
        dict_lookup(set_key(entries, key, v), key2) == if key2 == key {
            Some(v)
        } else {
            dict_lookup(entries, key2)
        },
    decreases entries.len(),
{
    let out = set_key(entries, key, v);
    lemma_key_index(entries, key);
    lemma_key_index(entries, key2);
    lemma_key_index(out, key2);
    if entries.len() == 0 {
        assert(out =~= seq![(key, v)]);
        assert(out.subrange(1, 1) =~= Seq::<(Seq<char>, ValView)>::empty());
    } else {
        let tail = entries.subrange(1, entries.len() as int);
        if entries[0].0 == key {
            // the head entry itself is replaced
            assert(out =~= entries.update(0, (key, v)));
            assert(out[0].0 == key);
            if key2 == key {
                assert(dict_lookup(out, key2) == Some(v));
            } else {
                assert(out.subrange(1, out.len() as int) =~= tail);
                lemma_lookup_skip_head(out, key2);
                lemma_lookup_skip_head(entries, key2);
            }
        } else {
            lemma_set_key_lookup(tail, key, v, key2);
            if has_key(entries, key) {
                lemma_lookup_skip_head(entries, key);
                let ki = key_index(entries, key);
                assert(ki >= 1);
                assert(out == entries.update(ki, (key, v)));
                assert(has_key(tail, key) && key_index(tail, key) == ki - 1);
                assert(out.subrange(1, out.len() as int) =~= tail.update(ki - 1, (key, v)));
                assert(out.subrange(1, out.len() as int) =~= set_key(tail, key, v));
            } else {
                lemma_key_index(tail, key);
                assert(out == entries.push((key, v)));
                assert(out.subrange(1, out.len() as int) =~= tail.push((key, v)));
                assert(out.subrange(1, out.len() as int) =~= set_key(tail, key, v));
            }
            assert(out.len() == entries.len() + if has_key(entries, key) {
                0int
            } else {
                1int
            });
            assert(out[0] == entries[0]);
            if key2 == entries[0].0 {
                assert(dict_lookup(out, key2) == Some(out[0].1));
                assert(dict_lookup(entries, key2) == Some(entries[0].1));
                assert(key2 != key);
            } else {
                lemma_lookup_skip_head(out, key2);
                lemma_lookup_skip_head(entries, key2);
            }
        }
    }
}

/// `set_key` keeps a well-formed dictionary well-formed when the stored
/// value is itself well-formed.
pub proof fn lemma_set_key_wf(entries: Seq<(Seq<char>, ValView)>, key: Seq<char>, v: ValView)
    requires
        ValView::Dict(entries).wf(),
        v.wf(),
    ensures
        ValView::Dict(set_key(entries, key, v)).wf(),
{
    let out = set_key(entries, key, v);
    lemma_key_index(entries, key);
    if has_key(entries, key) {
        let ki = key_index(entries, key);
        assert(entries[ki].0 == key);
        assert forall|i: int, j: int| 0 <= i < j < out.len() implies (#[trigger] out[i]).0 != (
        #[trigger] out[j]).0 by {
            assert(entries[i].0 != entries[j].0);
        }
        assert forall|i: int| 0 <= i < out.len() implies (#[trigger] out[i]).1.wf() by {
            if i != ki {
                assert(out[i] == entries[i]);
            }
        }
    } else {
        assert forall|i: int, j: int| 0 <= i < j < out.len() implies (#[trigger] out[i]).0 != (
        #[trigger] out[j]).0 by {
            if j < entries.len() {
                assert(entries[i].0 != entries[j].0);
            } else {
                assert(out[j].0 == key);
                assert(entries[i].0 != key);
            }
        }
        assert forall|i: int| 0 <= i < out.len() implies (#[trigger] out[i]).1.wf() by {
            if i < entries.len() {
                assert(out[i] == entries[i]);
            }
        }
    }
}

/// `set_key` never introduces a repeated key.
pub proof fn lemma_set_key_unique(entries: Seq<(Seq<char>, ValView)>, key: Seq<char>, v: ValView)
    requires
        keys_unique(entries),
    ensures
        keys_unique(set_key(entries, key, v)),
{
    let out = set_key(entries, key, v);
    lemma_key_index(entries, key);
    if has_key(entries, key) {
        let ki = key_index(entries, key);
        assert(entries[ki].0 == key);
        assert forall|i: int, j: int| 0 <= i < j < out.len() implies (#[trigger] out[i]).0 != (
        #[trigger] out[j]).0 by {
            assert(entries[i].0 != entries[j].0);
        }
    } else {
        assert forall|i: int, j: int| 0 <= i < j < out.len() implies (#[trigger] out[i]).0 != (
        #[trigger] out[j]).0 by {
            if j < entries.len() {
                assert(entries[i].0 != entries[j].0);
            } else {
                assert(out[j].0 == key);
                assert(entries[i].0 != key);
            }
        }
    }
}

/// One merge step never introduces a repeated key.
pub proof fn lemma_merge_step_unique(b: Seq<(Seq<char>, ValView)>, key: Seq<char>, v: ValView)
    requires
        keys_unique(b),
    ensures
        keys_unique(merge_step(b, key, v)),
    decreases v,
{
    if !is_empty_text(v) {
        match (dict_lookup(b, key), v) {
            (Some(ValView::Dict(be)), ValView::Dict(ue)) => {
                lemma_set_key_unique(b, key, ValView::Dict(merge_entries(be, ue)));
            },
            _ => {
                lemma_set_key_unique(b, key, v);
            },
        }
    }
}

/// Dropping the first entry of a well-formed dictionary keeps it
/// well-formed.
pub proof fn lemma_wf_tail(u: Seq<(Seq<char>, ValView)>)
    requires
        ValView::Dict(u).wf(),
        u.len() > 0,
    ensures
        ValView::Dict(u.subrange(1, u.len() as int)).wf(),
{
    let rest = u.subrange(1, u.len() as int);
    assert forall|i: int| 0 <= i < rest.len() implies (#[trigger] rest[i]).1.wf() by {
        assert(rest[i] == u[i + 1]);
        assert(u[i + 1].1.wf());
    }
    assert forall|i: int, j: int| 0 <= i < j < rest.len() implies (#[trigger] rest[i]).0 != (
    #[trigger] rest[j]).0 by {
        assert(rest[i] == u[i + 1]);
        assert(rest[j] == u[j + 1]);
        assert(u[i + 1].0 != u[j + 1].0);
    }
}

/// One merge step keeps the base well-formed when the merged-in value is
/// well-formed.
pub proof fn lemma_merge_step_wf(b: Seq<(Seq<char>, ValView)>, key: Seq<char>, v: ValView)
    requires
        ValView::Dict(b).wf(),
        v.wf(),
    ensures
        ValView::Dict(merge_step(b, key, v)).wf(),
    decreases v,
{
    if !is_empty_text(v) {
        match (dict_lookup(b, key), v) {
            (Some(ValView::Dict(be)), ValView::Dict(ue)) => {
                lemma_lookup_wf(b, key);
                lemma_merge_entries_wf(be, ue);
                lemma_set_key_wf(b, key, ValView::Dict(merge_entries(be, ue)));
            },
            _ => {
                lemma_set_key_wf(b, key, v);
            },
        }
    }
}

/// Merging one well-formed dictionary into another yields a well-formed
/// dictionary.
pub proof fn lemma_merge_entries_wf(b: Seq<(Seq<char>, ValView)>, u: Seq<(Seq<char>, ValView)>)
    requires
        ValView::Dict(b).wf(),
        ValView::Dict(u).wf(),
    ensures
        ValView::Dict(merge_entries(b, u)).wf(),
    decreases u,
{
    if u.len() > 0 {
        assert(u[0].1.wf());
        lemma_merge_step_wf(b, u[0].0, u[0].1);
        lemma_wf_tail(u);
        lemma_merge_entries_wf(merge_step(b, u[0].0, u[0].1), u.subrange(1, u.len() as int));
    }
}

/// What a merged dictionary holds at each key: the update's value where the
/// update sets one (recursively merged where both sides hold dictionaries,
/// skipped where it is the empty string), and the base's value everywhere
/// else.
pub proof fn lemma_merge_lookup(
    b: Seq<(Seq<char>, ValView)>,
    u: Seq<(Seq<char>, ValView)>,
    key: Seq<char>,
)
    requires
        keys_unique(b),
        keys_unique(u),
    ensures
        dict_lookup(merge_entries(b, u), key) == merged_lookup(
            dict_lookup(b, key),
            dict_lookup(u, key),
        ),
    decreases u,
{
    if u.len() > 0 {
        let k0 = u[0].0;
        let v0 = u[0].1;
        let b1 = merge_step(b, k0, v0);
        let rest = u.subrange(1, u.len() as int);
        lemma_merge_step_unique(b, k0, v0);
        assert forall|i: int, j: int| 0 <= i < j < rest.len() implies (#[trigger] rest[i]).0 != (
        #[trigger] rest[j]).0 by {
            assert(rest[i] == u[i + 1]);
            assert(rest[j] == u[j + 1]);
            assert(u[i + 1].0 != u[j + 1].0);
        }
        lemma_merge_lookup(b1, rest, key);
        if key == k0 {
            assert(dict_lookup(u, key) == Some(v0));
            lemma_key_index(rest, key);
            if has_key(rest, key) {
                let ri = key_index(rest, key);
                assert(rest[ri] == u[ri + 1]);
                assert(u[0].0 != u[ri + 1].0);
            }
            assert(dict_lookup(rest, key) == None::<ValView>);
            if is_empty_text(v0) {
                assert(b1 == b);
            } else {
                match (dict_lookup(b, key), v0) {
                    (Some(ValView::Dict(be)), ValView::Dict(ue)) => {
                        lemma_set_key_lookup(b, key, ValView::Dict(merge_entries(be, ue)), key);
                    },
                    _ => {
                        lemma_set_key_lookup(b, key, v0, key);
                    },
                }
            }
        } else {
            lemma_lookup_skip_head(u, key);
            assert(dict_lookup(rest, key) == dict_lookup(u, key));
            if !is_empty_text(v0) {
                match (dict_lookup(b, k0), v0) {
                    (Some(ValView::Dict(be)), ValView::Dict(ue)) => {
                        lemma_set_key_lookup(b, k0, ValView::Dict(merge_entries(be, ue)), key);
                    },
                    _ => {
                        lemma_set_key_lookup(b, k0, v0, key);
                    },
                }
            }
            assert(dict_lookup(b1, key) == dict_lookup(b, key));
        }
    }
}

/// Merging the update entries one past the last is one more merge step.
pub proof fn lemma_merge_entries_snoc(
    b: Seq<(Seq<char>, ValView)>,
    u: Seq<(Seq<char>, ValView)>,
    e: (Seq<char>, ValView),
)
    ensures
        merge_entries(b, u.push(e)) == merge_step(merge_entries(b, u), e.0, e.1),
    decreases u,
{
    let w = u.push(e);
    if u.len() == 0 {
        let step = merge_step(b, e.0, e.1);
        assert(w[0] == e);
        assert(w.subrange(1, w.len() as int) =~= Seq::<(Seq<char>, ValView)>::empty());
        assert(merge_entries(step, w.subrange(1, w.len() as int)) == step);
        assert(merge_entries(b, w) == merge_entries(step, w.subrange(1, w.len() as int)));
        assert(merge_entries(b, u) == b);
    } else {
        let step = merge_step(b, u[0].0, u[0].1);
        let rest = u.subrange(1, u.len() as int);
        assert(w[0] == u[0]);
        assert(w.subrange(1, w.len() as int) =~= rest.push(e));
        lemma_merge_entries_snoc(step, rest, e);
        assert(merge_entries(b, w) == merge_entries(step, rest.push(e)));
        assert(merge_entries(b, u) == merge_entries(step, rest));
    }
}

/// A prefix of a well-formed dictionary is well-formed.
pub proof fn lemma_wf_prefix(u: Seq<(Seq<char>, ValView)>, i: int)
    requires
        ValView::Dict(u).wf(),
        0 <= i <= u.len(),
    ensures
        ValView::Dict(u.subrange(0, i)).wf(),
{
    let pre = u.subrange(0, i);
    assert forall|j: int| 0 <= j < pre.len() implies (#[trigger] pre[j]).1.wf() by {
        assert(pre[j] == u[j]);
        assert(u[j].1.wf());
    }
    assert forall|j: int, l: int| 0 <= j < l < pre.len() implies (#[trigger] pre[j]).0 != (
    #[trigger] pre[l]).0 by {
        assert(pre[j] == u[j]);
        assert(pre[l] == u[l]);
        assert(u[j].0 != u[l].0);
    }
}

fn deep_update_ref(base: &Value, update: &Value) -> (r: Value)
    requires
        base@.wf(),
        update@.wf(),
        base@ is Dict,
        update@ is Dict,
    ensures
        r@ == spec_deep_update(base@, update@),
        r@.wf(),
        r@ is Dict,
    decreases *update,
{
    let ghost bev = base@->Dict_0;
    let ghost uev = update@->Dict_0;
    let mut out: Vec<(String, Value)> = match base.deep_copy() {
        Value::Dict(e) => e,
        _ => {
            proof {
                assert(false);
            }
            Vec::new()
        },
    };
    proof {
        assert(entries_vw(out@) == bev);
        assert(uev.subrange(0, 0) =~= Seq::<(Seq<char>, ValView)>::empty());
    }
    match update {
        Value::Dict(uentries) => {
            let n: usize = uentries.len();
            let mut idx: usize = 0;
            proof {
                lemma_entries_vw(uentries@);
            }
            while idx < n
                invariant
                    *update == Value::Dict(*uentries),
                    update@ == ValView::Dict(uev),
                    uev == entries_vw(uentries@),
                    n == uentries@.len(),
                    uev.len() == n,
                    idx <= n,
                    ValView::Dict(bev).wf(),
                    ValView::Dict(uev).wf(),
                    entries_vw(out@) == merge_entries(bev, uev.subrange(0, idx as int)),
                decreases n - idx,
            {
                let ghost cur = entries_vw(out@);
                proof {
                    lemma_entries_vw(uentries@);
                    lemma_entries_vw(out@);
                    lemma_wf_prefix(uev, idx as int);
                    lemma_merge_entries_wf(bev, uev.subrange(0, idx as int));
                    assert(uev[idx as int] == (uentries@[idx as int].0@, uentries@[
                        idx as int].1.vw()));
                    assert(uev[idx as int].1.wf());
                }
                let k: &String = &uentries[idx].0;
                let v: &Value = &uentries[idx].1;
                let skip: bool = match v {
                    Value::Text(s) => s.as_str().is_empty(),
                    _ => false,
                };
                proof {
                    if skip {
                        assert(v@->Text_0 =~= Seq::<char>::empty());
                    }
                    assert(skip == is_empty_text(v@));
                }
                if !skip {
                    let pos = find_key(&out, k);
                    proof {
                        lemma_key_index(cur, k@);
                    }
                    match pos {
                        Some(j) => {
                            proof {
                                assert(cur[j as int] == (out@[j as int].0@, out@[j as int].1@));
                                assert(dict_lookup(cur, k@) == Some(out@[j as int].1@));
                            }
                            let both_dicts: bool = match (&out[j].1, v) {
                                (Value::Dict(_), Value::Dict(_)) => true,
                                _ => false,
                            };
                            if both_dicts {
                                proof {
                                    assert(decreases_to!(*update => update->Dict_0));
                                    assert(decreases_to!(*uentries => uentries@[idx as int])) by {
                                        broadcast use vstd::std_specs::vec::axiom_vec_index_decreases;

                                    }
                                    assert(decreases_to!(uentries@[idx as int] => uentries@[
                                        idx as int].1));
                                    assert(ValView::Dict(cur).wf());
                                    assert(cur[j as int].1.wf());
                                }
                                let merged = deep_update_ref(&out[j].1, v);
                                out.set(j, (k.clone(), merged));
                            } else {
                                out.set(j, (k.clone(), v.deep_copy()));
                            }
                            proof {
                                lemma_entries_vw(out@);
                                assert(entries_vw(out@) =~= cur.update(
                                    j as int,
                                    (k@, out@[j as int].1@),
                                ));
                                assert(entries_vw(out@) == set_key(
                                    cur,
                                    k@,
                                    out@[j as int].1@,
                                ));
                            }
                        },
                        None => {
                            out.push((k.clone(), v.deep_copy()));
                            proof {
                                lemma_entries_vw(out@);
                                assert(entries_vw(out@) =~= cur.push((k@, v@)));
                                assert(entries_vw(out@) == set_key(cur, k@, v@));
                            }
                        },
                    }
                }
                proof {
                    lemma_merge_entries_snoc(bev, uev.subrange(0, idx as int), uev[idx as int]);
                    assert(uev.subrange(0, idx as int + 1) =~= uev.subrange(0, idx as int).push(
                        uev[idx as int],
                    ));
                    assert(entries_vw(out@) == merge_step(cur, uev[idx as int].0, uev[
                        idx as int].1));
                }
                idx += 1;
            }
            proof {
                assert(uev.subrange(0, n as int) =~= uev);
                lemma_merge_entries_wf(bev, uev);
            }
            Value::Dict(out)
        },
        _ => {
            proof {
                assert(false);
            }
            Value::Null
        },
    }
}

/// The recursive merge of an update dictionary into a base dictionary.
/// Keys only the base holds are kept; keys the update sets are replaced,
/// merged entry by entry where both sides hold dictionaries, and skipped
/// where the update holds an empty string.
pub fn deep_update(base_dict: Value, update_dict: Value) -> (r: Value)
    requires
        base_dict@.wf(),
        update_dict@.wf(),
        base_dict@ is Dict,
        update_dict@ is Dict,
    ensures
        r@ == spec_deep_update(base_dict@, update_dict@),
        r@.wf(),
        r@ is Dict,
{
    deep_update_ref(&base_dict, &update_dict)
}

/// The three configuration tiers merged in precedence order: the default
/// first, the user tier over it, the project tier last and strongest.
pub open spec fn spec_merge_configs(
    d: ValView,
    u: Option<ValView>,
    p: Option<ValView>,
) -> ValView {
    let after_user = match u {
        Some(uv) => spec_deep_update(d, uv),
        None => d,
    };
    match p {
        Some(pv) => spec_deep_update(after_user, pv),
        None => after_user,
    }
}

/// Merge the configuration tiers: user over default, then project over the
/// result, so the project tier takes precedence, then the user tier, then
/// the default.
pub fn merge_configs_dict(
    default_config: Value,
    user_config: Option<Value>,
    project_config: Option<Value>,
) -> (r: Value)
    requires
        default_config@.wf(),
        default_config@ is Dict,
        user_config matches Some(u) ==> u@.wf() && u@ is Dict,
        project_config matches Some(p) ==> p@.wf() && p@ is Dict,
    ensures
        r@ == spec_merge_configs(
            default_config@,
            match user_config {
                Some(u) => Some(u@),
                None => None,
            },
            match project_config {
                Some(p) => Some(p@),
                None => None,
            },
        ),
        r@.wf(),
        r@ is Dict,
{
    let mut result = default_config;
    if let Some(user_cfg) = user_config {
        result = deep_update(result, user_cfg);
    }
    if let Some(project_cfg) = project_config {
        result = deep_update(result, project_cfg);
    }
    result
}

/// Merging an empty update changes nothing: `deep_update(base, {})` is
/// `base` itself.
pub proof fn lemma_deep_update_empty(b: ValView)
    requires
        b is Dict,
    ensures
        spec_deep_update(b, ValView::Dict(Seq::<(Seq<char>, ValView)>::empty())) == b,
{
    assert(merge_entries(b->Dict_0, Seq::<(Seq<char>, ValView)>::empty()) == b->Dict_0);
}

/// An empty-string value in the update suppresses the override: at such a
/// key the merge holds exactly what the base holds.
pub proof fn lemma_empty_string_suppression(b: ValView, u: ValView, key: Seq<char>)
    requires
        b is Dict,
        u is Dict,
        b.wf(),
        u.wf(),
        dict_lookup(u->Dict_0, key) == Some(ValView::Text(Seq::<char>::empty())),
    ensures
        dict_lookup(spec_deep_update(b, u)->Dict_0, key) == dict_lookup(b->Dict_0, key),
{
    lemma_merge_lookup(b->Dict_0, u->Dict_0, key);
}

/// Whether a tier sets a key: its dictionary holds the key with a value
/// other than the empty string.
pub open spec fn sets_key(o: Option<ValView>) -> bool {
    o matches Some(v) && !is_empty_text(v)
}

/// Tier precedence at any key, for values that are not dictionaries: the
/// merged result prefers the project tier's value where the project sets
/// the key, else the user tier's, else the default's.  (Where both sides of
/// a step hold dictionaries the merge instead descends key by key, which is
/// what makes partial overrides possible.)
pub proof fn lemma_merge_precedence(d: ValView, u: ValView, p: ValView, key: Seq<char>)
    requires
        d is Dict,
        u is Dict,
        p is Dict,
        d.wf(),
        u.wf(),
        p.wf(),
    ensures
        ({
            let r = spec_deep_update(spec_deep_update(d, u), p);
            let rl = dict_lookup(r->Dict_0, key);
            let dl = dict_lookup(d->Dict_0, key);
            let ul = dict_lookup(u->Dict_0, key);
            let pl = dict_lookup(p->Dict_0, key);
            &&& rl == merged_lookup(merged_lookup(dl, ul), pl)
            &&& (sets_key(pl) && !(pl->Some_0 is Dict) ==> rl == pl)
            &&& (!sets_key(pl) && sets_key(ul) && !(ul->Some_0 is Dict) ==> rl == ul)
            &&& (!sets_key(pl) && !sets_key(ul) ==> rl == dl)
        }),
{
    let de = d->Dict_0;
    let ue = u->Dict_0;
    let pe = p->Dict_0;
    lemma_merge_lookup(de, ue, key);
    lemma_merge_entries_wf(de, ue);
    lemma_merge_lookup(merge_entries(de, ue), pe, key);
}

} // verus!


use vstd::prelude::*;

verus! {

/// A configuration tree: the interchange form between the typed model, the
/// on-disk document codec, and partial-update call sites.  A tree is a scalar
/// (null, boolean, integer, text), a list, or a dictionary of string keys to
/// nested trees.
#[derive(Debug, PartialEq)]
pub enum Value {
    Null,
    Bool(bool),
    Int(i64),
    Text(String),
    List(Vec<Value>),
    Dict(Vec<(String, Value)>),
}

/// The mathematical model of a configuration tree: strings become character
/// sequences, integers become unbounded, and the containers become sequences.
pub enum ValView {
    Null,
    Bool(bool),
    Int(int),
    Text(Seq<char>),
    List(Seq<ValView>),
    Dict(Seq<(Seq<char>, ValView)>),
}

impl Value {
    pub open spec fn vw(self) -> ValView
        decreases self,
    {
        match self {
            Value::Null => ValView::Null,
            Value::Bool(b) => ValView::Bool(b),
            Value::Int(i) => ValView::Int(i as int),
            Value::Text(s) => ValView::Text(s@),
            Value::List(items) => ValView::List(items_vw(items@)),
            Value::Dict(entries) => ValView::Dict(entries_vw(entries@)),
        }
    }
}

/// The views of the elements of a list, in order.
pub open spec fn items_vw(items: Seq<Value>) -> Seq<ValView>
    decreases items,
{
    if items.len() == 0 {
        Seq::empty()
    } else {
        seq![items[0].vw()] + items_vw(items.subrange(1, items.len() as int))
    }
}

/// The views of the entries of a dictionary, in order.
pub open spec fn entries_vw(entries: Seq<(String, Value)>) -> Seq<(Seq<char>, ValView)>
    decreases entries,
{
    if entries.len() == 0 {
        Seq::empty()
    } else {
        seq![(entries[0].0@, entries[0].1.vw())] + entries_vw(
            entries.subrange(1, entries.len() as int),
        )
    }
}

/// `items_vw` maps the view over the elements, position by position.
pub proof fn lemma_items_vw(items: Seq<Value>)
    ensures
        items_vw(items).len() == items.len(),
        forall|i: int| 0 <= i < items.len() ==> #[trigger] items_vw(items)[i] == items[i].vw(),
    decreases items.len(),
{
    if items.len() > 0 {
        let rest = items.subrange(1, items.len() as int);
        lemma_items_vw(rest);
        assert forall|i: int|
            0 <= i < items.len() implies #[trigger] items_vw(items)[i] == items[i].vw() by {
            if i > 0 {
                assert(rest[i - 1] == items[i]);
                assert(items_vw(items)[i] == items_vw(rest)[i - 1]);
            }
        }
    }
}

/// `entries_vw` maps the views over the entries, position by position.
pub proof fn lemma_entries_vw(entries: Seq<(String, Value)>)
    ensures
        entries_vw(entries).len() == entries.len(),
        forall|i: int|
            0 <= i < entries.len() ==> #[trigger] entries_vw(entries)[i] == (entries[i].0@,
            entries[i].1.vw()),
    decreases entries.len(),
{
    if entries.len() > 0 {
        let rest = entries.subrange(1, entries.len() as int);
        lemma_entries_vw(rest);
        assert forall|i: int|
            0 <= i < entries.len() implies #[trigger] entries_vw(entries)[i] == (entries[i].0@,
        entries[i].1.vw()) by {
            if i > 0 {
                assert(rest[i - 1] == entries[i]);
                assert(entries_vw(entries)[i] == entries_vw(rest)[i - 1]);
            }
        }
    }
}

impl View for Value {
    type V = ValView;

    open spec fn view(&self) -> ValView {
        self.vw()
    }
}

impl ValView {
    /// A well-formed tree has no repeated key in any dictionary, at any depth.
    pub open spec fn wf(self) -> bool
        decreases self,
    {
        match self {
            ValView::Null => true,
            ValView::Bool(_) => true,
            ValView::Int(_) => true,
            ValView::Text(_) => true,
            ValView::List(items) => forall|i: int| 0 <= i < items.len() ==> #[trigger] items[i].wf(),
            ValView::Dict(entries) => {
                &&& forall|i: int| 0 <= i < entries.len() ==> (#[trigger] entries[i].1).wf()
                &&& keys_unique(entries)
            }
        }
    }
}

/// No key occurs twice among the entries of a dictionary.
pub open spec fn keys_unique(entries: Seq<(Seq<char>, ValView)>) -> bool {
    forall|i: int, j: int|
        0 <= i < j < entries.len() ==> (#[trigger] entries[i]).0 != (#[trigger] entries[j]).0
}

/// The index of the first entry carrying `key`, or -1 if no entry does.
pub open spec fn key_index(entries: Seq<(Seq<char>, ValView)>, key: Seq<char>) -> int
    decreases entries.len(),
{
    if entries.len() == 0 {
        -1
    } else if entries[0].0 == key {
        0
    } else {
        let r = key_index(entries.subrange(1, entries.len() as int), key);
        if r < 0 {
            -1
        } else {
            r + 1
        }
    }
}

pub open spec fn has_key(entries: Seq<(Seq<char>, ValView)>, key: Seq<char>) -> bool {
    key_index(entries, key) >= 0
}

/// The value stored under `key`, going by the first entry that carries it.
pub open spec fn dict_lookup(entries: Seq<(Seq<char>, ValView)>, key: Seq<char>) -> Option<
    ValView,
> {
    if has_key(entries, key) {
        Some(entries[key_index(entries, key)].1)
    } else {
        None
    }
}

impl Value {
    /// An exact structural copy of the tree.
    pub fn deep_copy(&self) -> (r: Value)
        ensures
            r@ == self@,
        decreases *self,
    {
        match self {
            Value::Null => Value::Null,
            Value::Bool(b) => Value::Bool(*b),
            Value::Int(i) => Value::Int(*i),
            Value::Text(s) => Value::Text(s.clone()),
            Value::List(items) => {
                let n: usize = items.len();
                let mut out: Vec<Value> = Vec::new();
                let mut idx: usize = 0;
                while idx < n
                    invariant
                        *self == Value::List(*items),
                        n == items@.len(),
                        idx <= n,
                        out@.len() == idx,
                        forall|k: int| 0 <= k < idx ==> (#[trigger] out@[k])@ == items@[k]@,
                    decreases n - idx,
                {
                    proof {
                        assert(decreases_to!(*self => self->List_0));
                        assert(decreases_to!(*items => items@[idx as int])) by {
                            broadcast use vstd::std_specs::vec::axiom_vec_index_decreases;

                        }
                    }
                    let c = (&items[idx]).deep_copy();
                    out.push(c);
                    idx += 1;
                }
                proof {
                    lemma_items_vw(items@);
                    lemma_items_vw(out@);
                    assert(items_vw(out@) =~= items_vw(items@));
                }
                Value::List(out)
            }
            Value::Dict(entries) => {
                let n: usize = entries.len();
                let mut out: Vec<(String, Value)> = Vec::new();
                let mut idx: usize = 0;
                while idx < n
                    invariant
                        *self == Value::Dict(*entries),
                        n == entries@.len(),
                        idx <= n,
                        out@.len() == idx,
                        forall|k: int|
                            0 <= k < idx ==> (#[trigger] out@[k]).0@ == entries@[k].0@ && out@[k].1@
                                == entries@[k].1@,
                    decreases n - idx,
                {
                    proof {
                        assert(decreases_to!(*self => self->Dict_0));
                        assert(decreases_to!(*entries => entries@[idx as int])) by {
                            broadcast use vstd::std_specs::vec::axiom_vec_index_decreases;

                        }
                        assert(decreases_to!(entries@[idx as int] => entries@[idx as int].1));
                    }
                    let key = entries[idx].0.clone();
                    let val = (&entries[idx].1).deep_copy();
                    out.push((key, val));
                    idx += 1;
                }
                proof {
                    lemma_entries_vw(entries@);
                    lemma_entries_vw(out@);
                    assert(entries_vw(out@) =~= entries_vw(entries@));
                }
                Value::Dict(out)
            }
        }
    }
}

impl Clone for Value {
    /// A clone of a tree is an exact structural copy.
    fn clone(&self) -> (r: Self)
        ensures
            r@ == self@,
    {
        self.deep_copy()
    }
}

/// The position of the first entry carrying `key`, if any entry does.
pub fn find_key(entries: &Vec<(String, Value)>, key: &String) -> (r: Option<usize>)
    ensures
        match r {
            Some(j) => j < entries@.len() && key_index(entries_vw(entries@), key@) == j,
            None => !has_key(entries_vw(entries@), key@),
        },
{
    let n: usize = entries.len();
    let mut idx: usize = 0;
    while idx < n
        invariant
            n == entries@.len(),
            idx <= n,
            forall|i: int| 0 <= i < idx ==> #[trigger] entries_vw(entries@)[i].0 != key@,
        decreases n - idx,
    {
        proof {
            lemma_entries_vw(entries@);
        }
        if entries[idx].0 == *key {
            proof {
                let evw = entries_vw(entries@);
                lemma_key_index(evw, key@);
                let ki = key_index(evw, key@);
                assert(evw[idx as int].0 == key@);
                if !has_key(evw, key@) {
                    assert(evw[idx as int].0 != key@);
                }
                if ki > idx {
                    assert(evw[idx as int].0 != key@);
                }
                if ki < idx {
                    assert(evw[ki].0 != key@);
                }
            }
            return Some(idx);
        }
        idx += 1;
    }
    proof {
        lemma_entries_vw(entries@);
        let evw = entries_vw(entries@);
        lemma_key_index(evw, key@);
        if has_key(evw, key@) {
            let ki = key_index(evw, key@);
            assert(evw[ki].0 != key@);
        }
    }
    None
}

/// `key_index` points at the first entry with the given key, and is -1
/// exactly when no entry has it.
pub proof fn lemma_key_index(entries: Seq<(Seq<char>, ValView)>, key: Seq<char>)
    ensures
        has_key(entries, key) ==> {
            &&& 0 <= key_index(entries, key) < entries.len()
            &&& entries[key_index(entries, key)].0 == key
            &&& forall|i: int| 0 <= i < key_index(entries, key) ==> (#[trigger] entries[i]).0 != key
        },
        !has_key(entries, key) ==> forall|i: int|
            0 <= i < entries.len() ==> (#[trigger] entries[i]).0 != key,
    decreases entries.len(),
{
    if entries.len() > 0 && entries[0].0 != key {
        let rest = entries.subrange(1, entries.len() as int);
        lemma_key_index(rest, key);
        assert forall|i: int| 1 <= i < entries.len() implies entries[i] == rest[i - 1] by {}
    }
}

/// Looking a key up skips a first entry that carries a different key.
pub proof fn lemma_lookup_skip_head(entries: Seq<(Seq<char>, ValView)>, key: Seq<char>)
    requires
        entries.len() > 0,
        entries[0].0 != key,
    ensures
        dict_lookup(entries, key) == dict_lookup(entries.subrange(1, entries.len() as int), key),
        key_index(entries, key) >= 0 ==> key_index(entries, key) == key_index(
            entries.subrange(1, entries.len() as int),
            key,
        ) + 1,
{
    let rest = entries.subrange(1, entries.len() as int);
    lemma_key_index(entries, key);
    lemma_key_index(rest, key);
}

/// With no repeated keys, looking up the key of the entry at a position
/// finds that entry's value.
pub proof fn lemma_lookup_at_index(entries: Seq<(Seq<char>, ValView)>, i: int)
    requires
        keys_unique(entries),
        0 <= i < entries.len(),
    ensures
        key_index(entries, entries[i].0) == i,
        dict_lookup(entries, entries[i].0) == Some(entries[i].1),
{
    lemma_key_index(entries, entries[i].0);
    let ki = key_index(entries, entries[i].0);
    if ki < 0 {
        assert(entries[i].0 != entries[i].0);
    }
    if ki < i {
        assert(entries[ki].0 != entries[i].0);
    }
    if ki > i {
        assert(entries[i].0 != entries[i].0);
    }
}

/// In a well-formed dictionary every value reached by lookup is well-formed.
pub proof fn lemma_lookup_wf(entries: Seq<(Seq<char>, ValView)>, key: Seq<char>)
    requires
        ValView::Dict(entries).wf(),
        has_key(entries, key),
    ensures
        dict_lookup(entries, key) matches Some(v) && v.wf(),
{
    lemma_key_index(entries, key);
}

} // verus!

use vstd::prelude::*;

use crate::merge::set_key;
use crate::value::{
    dict_lookup, entries_vw, find_key, lemma_entries_vw, lemma_key_index, ValView, Value,
};

verus! {

/// The views of a list of path segments.
pub open spec fn parts_vw(parts: Seq<String>) -> Seq<Seq<char>> {
    Seq::new(parts.len(), |i: int| parts[i]@)
}

/// A dotted-path store into a dictionary tree, from segment `i` on: the
/// last segment stores the value under its key; every earlier segment
/// descends into the dictionary under its key, creating one (and replacing
/// any non-dictionary value) where none exists.  No segments at all store
/// nothing.
pub open spec fn spec_set_path(d: ValView, parts: Seq<Seq<char>>, i: int, v: ValView) -> ValView
    recommends
        d is Dict,
    decreases parts.len() - i,
{
    if i < 0 || i >= parts.len() {
        d
    } else if i == parts.len() - 1 {
        ValView::Dict(set_key(d->Dict_0, parts[i], v))
    } else {
        let inner = match dict_lookup(d->Dict_0, parts[i]) {
            Some(ValView::Dict(e)) => ValView::Dict(e),
            _ => ValView::Dict(Seq::empty()),
        };
        ValView::Dict(set_key(d->Dict_0, parts[i], spec_set_path(inner, parts, i + 1, v)))
    }
}

/// A copy of the dictionary with `value` stored under `key`.
fn dict_insert_copy(config: &Value, key: &String, value: Value) -> (r: Value)
    requires
        config@.wf(),
        config@ is Dict,
        value@.wf(),
    ensures
        r@ == ValView::Dict(set_key(config@->Dict_0, key@, value@)),
        r@.wf(),
        r@ is Dict,
{
    let ghost cev = config@->Dict_0;
    let mut entries: Vec<(String, Value)> = match config.deep_copy() {
        Value::Dict(e) => e,
        _ => {
            proof {
                assert(false);
            }
            Vec::new()
        },
    };
    proof {
        assert(entries_vw(entries@) == cev);
        lemma_key_index(cev, key@);
    }
    let pos = find_key(&entries, key);
    let ghost old_entries = entries@;
    match pos {
        Some(j) => {
            entries.set(j, (key.clone(), value));
            proof {
                lemma_entries_vw(old_entries);
                lemma_entries_vw(entries@);
                assert(entries_vw(entries@) =~= cev.update(j as int, (key@, entries@[j as int].1@)));
            }
        },
        None => {
            entries.push((key.clone(), value));
            proof {
                lemma_entries_vw(old_entries);
                lemma_entries_vw(entries@);
                assert(entries_vw(entries@) =~= cev.push((key@, entries@[entries@.len() - 1].1@)));
            }
        },
    }
    proof {
        crate::merge::lemma_set_key_wf(cev, key@, value@);
    }
    Value::Dict(entries)
}

/// The dictionary stored under `key`, or an empty one where the key is
/// absent or holds something other than a dictionary.
fn dict_nested_or_empty(config: &Value, key: &String) -> (r: Value)
    requires
        config@.wf(),
        config@ is Dict,
    ensures
        r@ == match dict_lookup(config@->Dict_0, key@) {
            Some(v) => if v is Dict {
                v
            } else {
                ValView::Dict(Seq::empty())
            },
            None => ValView::Dict(Seq::empty()),
        },
        r@.wf(),
        r@ is Dict,
{
    let ghost cev = config@->Dict_0;
    match config {
        Value::Dict(entries) => {
            proof {
                lemma_entries_vw(entries@);
                lemma_key_index(cev, key@);
                assert(entries_vw(Seq::<(String, Value)>::empty())
                    =~= Seq::<(Seq<char>, ValView)>::empty());
            }
            let pos = find_key(entries, key);
            match pos {
                Some(j) => {
                    proof {
                        assert(cev[j as int] == (entries@[j as int].0@, entries@[j as int].1@));
                        assert(dict_lookup(cev, key@) == Some(entries@[j as int].1@));
                    }
                    match &entries[j].1 {
                        Value::Dict(_) => (&entries[j].1).deep_copy(),
                        _ => Value::Dict(Vec::new()),
                    }
                },
                None => Value::Dict(Vec::new()),
            }
        },
        _ => {
            proof {
                assert(false);
            }
            Value::Null
        },
    }
}

/// The tree with `value` stored along the path segments from `i` on.
fn set_path_from(config: &Value, parts: &Vec<String>, i: usize, value: Value) -> (r: Value)
    requires
        config@.wf(),
        config@ is Dict,
        value@.wf(),
        i <= parts@.len(),
    ensures
        r@ == spec_set_path(config@, parts_vw(parts@), i as int, value@),
        r@.wf(),
        r@ is Dict,
    decreases parts@.len() - i,
{
    if i >= parts.len() {
        return config.deep_copy();
    }
    let key: &String = &parts[i];
    proof {
        assert(parts_vw(parts@)[i as int] == key@);
    }
    if i == parts.len() - 1 {
        return dict_insert_copy(config, key, value);
    }
    let nested0 = dict_nested_or_empty(config, key);
    let nested = set_path_from(&nested0, parts, i + 1, value);
    dict_insert_copy(config, key, nested)
}

/// Store `value` in the configuration tree under a nested key given as its
/// path segments: `["database", "pool_size"]` stores under `pool_size`
/// inside the dictionary `database`, creating nested dictionaries along
/// the path as needed.  With no segments the tree is left unchanged.
pub fn update_nested_value(config: &mut Value, key_parts: &Vec<String>, value: Value)
    requires
        old(config)@.wf(),
        old(config)@ is Dict,
        value@.wf(),
    ensures
        final(config)@ == spec_set_path(old(config)@, parts_vw(key_parts@), 0, value@),
        final(config)@.wf(),
        final(config)@ is Dict,
{
    let updated = set_path_from(config, key_parts, 0, value);
    *config = updated;
}

/// The four characters of `true`, each in either letter case.
pub open spec fn is_true_lit(s: Seq<char>) -> bool {
    &&& s.len() == 4
    &&& (s[0] == 't' || s[0] == 'T')
    &&& (s[1] == 'r' || s[1] == 'R')
    &&& (s[2] == 'u' || s[2] == 'U')
    &&& (s[3] == 'e' || s[3] == 'E')
}

/// The five characters of `false`, each in either letter case.
pub open spec fn is_false_lit(s: Seq<char>) -> bool {
    &&& s.len() == 5
    &&& (s[0] == 'f' || s[0] == 'F')
    &&& (s[1] == 'a' || s[1] == 'A')
    &&& (s[2] == 'l' || s[2] == 'L')
    &&& (s[3] == 's' || s[3] == 'S')
    &&& (s[4] == 'e' || s[4] == 'E')
}

pub open spec fn is_digit(c: char) -> bool {
    48 <= c as int <= 57
}

/// The number a sequence of decimal digits denotes.
pub open spec fn digits_val(s: Seq<char>) -> int
    decreases s.len(),
{
    if s.len() == 0 {
        0
    } else {
        digits_val(s.drop_last()) * 10 + (s.last() as int - 48)
    }
}

/// An optionally signed, non-empty run of decimal digits.
pub open spec fn is_int_literal(s: Seq<char>) -> bool {
    let body = if s.len() > 0 && (s[0] == '+' || s[0] == '-') {
        s.subrange(1, s.len() as int)
    } else {
        s
    };
    body.len() > 0 && forall|i: int| 0 <= i < body.len() ==> is_digit(#[trigger] body[i])
}

/// The integer an optionally signed decimal numeral denotes.
pub open spec fn int_literal_val(s: Seq<char>) -> int
    recommends
        is_int_literal(s),
{
    if s.len() > 0 && s[0] == '-' {
        -digits_val(s.subrange(1, s.len() as int))
    } else if s.len() > 0 && s[0] == '+' {
        digits_val(s.subrange(1, s.len() as int))
    } else {
        digits_val(s)
    }
}

/// Relies on str::parse::<i64> (the FromStr impl of i64): it returns Ok
/// exactly for an optionally signed decimal numeral whose value fits in
/// i64, and then returns that value.
#[verifier::external_body]
fn parse_i64(s: &str) -> (r: Option<i64>)
    ensures
        r matches Some(n) ==> is_int_literal(s@) && n as int == int_literal_val(s@),
        r is None ==> !(is_int_literal(s@) && i64::MIN <= int_literal_val(s@) <= i64::MAX),
{
    s.parse::<i64>().ok()
}

fn is_true_literal(s: &str) -> (r: bool)
    ensures
        r == is_true_lit(s@),
{
    if s.unicode_len() != 4 {
        return false;
    }
    let c0 = s.get_char(0);
    let c1 = s.get_char(1);
    let c2 = s.get_char(2);
    let c3 = s.get_char(3);
    (c0 == 't' || c0 == 'T') && (c1 == 'r' || c1 == 'R') && (c2 == 'u' || c2 == 'U') && (c3 == 'e'
        || c3 == 'E')
}

fn is_false_literal(s: &str) -> (r: bool)
    ensures
        r == is_false_lit(s@),
{
    if s.unicode_len() != 5 {
        return false;
    }
    let c0 = s.get_char(0);
    let c1 = s.get_char(1);
    let c2 = s.get_char(2);
    let c3 = s.get_char(3);
    let c4 = s.get_char(4);
    (c0 == 'f' || c0 == 'F') && (c1 == 'a' || c1 == 'A') && (c2 == 'l' || c2 == 'L') && (c3 == 's'
        || c3 == 'S') && (c4 == 'e' || c4 == 'E')
}

/// What a textual value denotes, in the order the rules are tried: a
/// boolean literal, else a decimal integer that fits in i64, else the text
/// itself.
pub open spec fn spec_parse_scalar(s: Seq<char>) -> ValView {
    if is_true_lit(s) {
        ValView::Bool(true)
    } else if is_false_lit(s) {
        ValView::Bool(false)
    } else if is_int_literal(s) && i64::MIN <= int_literal_val(s) <= i64::MAX {
        ValView::Int(int_literal_val(s))
    } else {
        ValView::Text(s)
    }
}

/// Parse a textual value into a typed scalar: a boolean literal in either
/// letter case, else a decimal integer, else the text unchanged.
/// Fractional numerals are not parsed here; a caller that wants them can
/// test the text form it gets back.
pub fn parse_scalar(value: &str) -> (r: Value)
    ensures
        r@ == spec_parse_scalar(value@),
{
    if is_true_literal(value) {
        return Value::Bool(true);
    }
    if is_false_literal(value) {
        return Value::Bool(false);
    }
    match parse_i64(value) {
        Some(n) => Value::Int(n),
        None => Value::Text(value.to_owned()),
    }
}

} // verus!

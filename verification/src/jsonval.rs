//! A model of configuration JSON values, and the deep merge that
//! overlays one configuration on another.
//!
//! Objects carry their entries as an ordered list with unique keys.
//! Merging keeps the base's key order and appends the overlay's new
//! keys in overlay order; a null in the overlay preserves the base's
//! value, so sparse overlays never erase settings.

use vstd::prelude::*;

use crate::text::str_eq;

verus! {

broadcast use {vstd::std_specs::vec::axiom_vec_index_decreases,
    vstd::std_specs::vec::axiom_vec_decreases_to_view};

/// One configuration value.
#[derive(Debug)]
pub enum JsonValue {
    /// Null.
    Null,
    /// A boolean.
    Bool(bool),
    /// An integer.
    Int(i64),
    /// A string.
    Str(String),
    /// An array.
    Arr(Vec<JsonValue>),
    /// An object: ordered entries with unique keys.
    Obj(Vec<(String, JsonValue)>),
}

/// Deep equality of two values: same shape, same text, and equal
/// children position by position.
pub open spec fn spec_json_eq(a: JsonValue, b: JsonValue) -> bool
    decreases a,
{
    match (a, b) {
        (JsonValue::Null, JsonValue::Null) => true,
        (JsonValue::Bool(x), JsonValue::Bool(y)) => x == y,
        (JsonValue::Int(x), JsonValue::Int(y)) => x == y,
        (JsonValue::Str(x), JsonValue::Str(y)) => x@ == y@,
        (JsonValue::Arr(x), JsonValue::Arr(y)) => x@.len() == y@.len() && (forall|i: int|
            0 <= i < x@.len() ==> spec_json_eq(#[trigger] x@[i], y@[i])),
        (JsonValue::Obj(x), JsonValue::Obj(y)) => x@.len() == y@.len() && (forall|i: int|
            0 <= i < x@.len() ==> (#[trigger] x@[i]).0@ == y@[i].0@ && spec_json_eq(x@[i].1,
                y@[i].1)),
        _ => false,
    }
}

/// First value stored under a key.
pub open spec fn spec_obj_get(entries: Seq<(String, JsonValue)>, key: Seq<char>) -> Option<
    JsonValue,
>
    decreases entries.len(),
{
    if entries.len() == 0 {
        Option::None
    } else if entries[0].0@ == key {
        Option::Some(entries[0].1)
    } else {
        spec_obj_get(entries.drop_first(), key)
    }
}

/// A key is stored iff some entry carries it.
proof fn lemma_obj_get_exists(entries: Seq<(String, JsonValue)>, key: Seq<char>)
    ensures
        (spec_obj_get(entries, key) is Some) <==> exists|k: int|
            0 <= k < entries.len() && (#[trigger] entries[k]).0@ == key,
    decreases entries.len(),
{
    if entries.len() > 0 {
        lemma_obj_get_exists(entries.drop_first(), key);
        if entries[0].0@ == key {
        } else {
            assert(forall|k: int|
                0 <= k < entries.drop_first().len() ==> #[trigger] entries.drop_first()[k]
                    == entries[k + 1]);
            if spec_obj_get(entries, key) is Some {
                let k = choose|k: int|
                    0 <= k < entries.drop_first().len() && (#[trigger] entries.drop_first()[
                    k]).0@ == key;
                assert(entries[k + 1].0@ == key);
            }
            if exists|k: int| 0 <= k < entries.len() && (#[trigger] entries[k]).0@ == key {
                let k = choose|k: int| 0 <= k < entries.len() && (#[trigger] entries[k]).0@ == key;
                assert(k != 0);
                assert(entries.drop_first()[k - 1].0@ == key);
            }
        }
    }
}

/// Index of the first entry with a key among the first `n`.
pub open spec fn spec_obj_index(o: Seq<(String, JsonValue)>, key: Seq<char>, n: int) -> Option<int>
    decreases n,
{
    if n <= 0 {
        Option::None
    } else {
        match spec_obj_index(o, key, n - 1) {
            Option::Some(i) => Option::Some(i),
            Option::None => if o[n - 1].0@ == key {
                Option::Some(n - 1)
            } else {
                Option::None
            },
        }
    }
}

/// What a merge yields: a null overlay keeps the base; when both are
/// objects, the result keeps the base's keys in order with the
/// overlay's values merged in, then the overlay's new keys (nulls
/// included) in overlay order; any other overlay replaces the base
/// outright.
pub open spec fn spec_merged(base: JsonValue, overlay: JsonValue, r: JsonValue) -> bool
    decreases overlay, 1int,
{
    match overlay {
        JsonValue::Null => r == base,
        JsonValue::Obj(o) => match base {
            JsonValue::Obj(b) => r matches JsonValue::Obj(re) && re@.len() == b@.len()
                + spec_merge_new(b@, o@, o@.len() as int).len() && (forall|k: int|
                0 <= k < spec_merge_new(b@, o@, o@.len() as int).len()
                    ==> ((#[trigger] re@[b@.len() + k]).0@ == spec_merge_new(b@, o@,
                    o@.len() as int)[k].0@ && spec_json_eq(re@[b@.len() + k].1,
                    spec_merge_new(b@, o@, o@.len() as int)[k].1))) && (forall|k: int|
                0 <= k < b@.len() ==> (#[trigger] re@[k]).0 == b@[k].0 && (match spec_obj_index(
                    o@,
                    b@[k].0@,
                    o@.len() as int,
                ) {
                    Option::Some(j) => if 0 <= j < o@.len() {
                        spec_merged(b@[k].1, o@[j].1, re@[k].1)
                    } else {
                        re@[k].1 == b@[k].1
                    },
                    Option::None => re@[k].1 == b@[k].1,
                })),
            _ => spec_json_eq(r, JsonValue::Obj(o)),
        },
        _ => spec_json_eq(r, overlay),
    }
}

/// The overlay entries whose keys are new to the base, in overlay
/// order, taken from the first `n` overlay entries.
pub open spec fn spec_merge_new(
    b: Seq<(String, JsonValue)>,
    o: Seq<(String, JsonValue)>,
    n: int,
) -> Seq<(String, JsonValue)>
    decreases n,
{
    if n <= 0 {
        Seq::empty()
    } else {
        spec_merge_new(b, o, n - 1) + (if spec_obj_get(b, o[n - 1].0@) is None {
            seq![o[n - 1]]
        } else {
            Seq::empty()
        })
    }
}

impl Clone for JsonValue {
    /// Clone a value; the clone is deeply equal to the original.
    fn clone(&self) -> (r: Self)
        ensures
            spec_json_eq(r, *self),
        decreases self,
    {
        match self {
            JsonValue::Null => JsonValue::Null,
            JsonValue::Bool(b) => JsonValue::Bool(*b),
            JsonValue::Int(n) => JsonValue::Int(*n),
            JsonValue::Str(s) => JsonValue::Str(s.clone()),
            JsonValue::Arr(items) => {
                let n = items.len();
                let mut out: Vec<JsonValue> = Vec::new();
                let mut i: usize = 0;
                while i < n
                    invariant
                        0 <= i <= n,
                        n == items@.len(),
                        out@.len() == i,
                        forall|k: int|
                            0 <= k < i ==> spec_json_eq(#[trigger] out@[k], items@[k]),
                    decreases n - i,
                {
                    out.push(items[i].clone());
                    i = i + 1;
                }
                JsonValue::Arr(out)
            },
            JsonValue::Obj(entries) => {
                let n = entries.len();
                let mut out: Vec<(String, JsonValue)> = Vec::new();
                let mut i: usize = 0;
                while i < n
                    invariant
                        0 <= i <= n,
                        n == entries@.len(),
                        out@.len() == i,
                        forall|k: int|
                            0 <= k < i ==> (#[trigger] out@[k]).0@ == entries@[k].0@
                                && spec_json_eq(out@[k].1, entries@[k].1),
                    decreases n - i,
                {
                    let pair = &entries[i];
                    out.push((pair.0.clone(), pair.1.clone()));
                    i = i + 1;
                }
                JsonValue::Obj(out)
            },
        }
    }
}

impl JsonValue {
    /// The first value stored under a key of an object; `None` on any
    /// other kind of value.
    pub fn get(&self, key: &str) -> (r: Option<&JsonValue>)
        ensures
            match *self {
                JsonValue::Obj(entries) => (match spec_obj_get(entries@, key@) {
                    Option::Some(v) => r matches Some(rv) && *rv == v,
                    Option::None => r is None,
                }),
                _ => r is None,
            },
    {
        match self {
            JsonValue::Obj(entries) => {
                let n = entries.len();
                let mut i: usize = 0;
                proof {
                    assert(entries@.skip(0) =~= entries@);
                }
                while i < n
                    invariant
                        0 <= i <= n,
                        n == entries@.len(),
                        spec_obj_get(entries@.skip(i as int), key@) == spec_obj_get(entries@, key@),
                    decreases n - i,
                {
                    proof {
                        assert(entries@.skip(i as int)[0] == entries@[i as int]);
                        assert(entries@.skip(i as int).drop_first() =~= entries@.skip(i + 1));
                    }
                    if str_eq(entries[i].0.as_str(), key) {
                        return Option::Some(&entries[i].1);
                    }
                    i = i + 1;
                }
                proof {
                    assert(entries@.skip(n as int) =~= Seq::<(String, JsonValue)>::empty());
                }
                Option::None
            },
            _ => Option::None,
        }
    }
}

/// Index of the first overlay entry carrying a key.
fn find_obj_index(o: &Vec<(String, JsonValue)>, key: &str) -> (r: Option<usize>)
    ensures
        match r {
            Option::Some(j) => j < o@.len() && spec_obj_index(o@, key@, o@.len() as int)
                == Option::Some(j as int),
            Option::None => spec_obj_index(o@, key@, o@.len() as int) is None,
        },
{
    let n = o.len();
    let mut i: usize = 0;
    while i < n
        invariant
            0 <= i <= n,
            n == o@.len(),
            spec_obj_index(o@, key@, i as int) is None,
        decreases n - i,
    {
        if str_eq(o[i].0.as_str(), key) {
            proof {
                lemma_obj_index_extends(o@, key@, i as int, n as int);
            }
            return Option::Some(i);
        }
        i = i + 1;
    }
    Option::None
}

/// Once a key is found, it stays the first occurrence for any longer
/// prefix.
proof fn lemma_obj_index_extends(o: Seq<(String, JsonValue)>, key: Seq<char>, i: int, n: int)
    requires
        0 <= i < n <= o.len(),
        o[i].0@ == key,
        spec_obj_index(o, key, i) is None,
    ensures
        spec_obj_index(o, key, n) == Option::Some(i),
    decreases n - i,
{
    if n > i + 1 {
        lemma_obj_index_extends(o, key, i, n - 1);
    }
}

/// Merge the overlay's values into the base's entries, in base order.
fn merge_base_entries(b: Vec<(String, JsonValue)>, o: &Vec<(String, JsonValue)>) -> (r: Vec<
    (String, JsonValue),
>)
    ensures
        r@.len() == b@.len(),
        forall|k: int|
            0 <= k < b@.len() ==> (#[trigger] r@[k]).0 == b@[k].0 && (match spec_obj_index(o@,
                b@[k].0@, o@.len() as int) {
                Option::Some(j) => if 0 <= j < o@.len() {
                    spec_merged(b@[k].1, o@[j].1, r@[k].1)
                } else {
                    r@[k].1 == b@[k].1
                },
                Option::None => r@[k].1 == b@[k].1,
            }),
    decreases *o, 0int,
{
    let ghost bview = b@;
    let total = b.len();
    let mut rest = b;
    let mut out: Vec<(String, JsonValue)> = Vec::new();
    let mut i: usize = 0;
    proof {
        assert(rest@ =~= bview.skip(0));
    }
    while rest.len() > 0
        invariant
            0 <= i <= total,
            total == bview.len(),
            rest@ == bview.skip(i as int),
            out@.len() == i,
            forall|k: int|
                0 <= k < i ==> (#[trigger] out@[k]).0 == bview[k].0 && (match spec_obj_index(o@,
                    bview[k].0@, o@.len() as int) {
                    Option::Some(j) => if 0 <= j < o@.len() {
                        spec_merged(bview[k].1, o@[j].1, out@[k].1)
                    } else {
                        out@[k].1 == bview[k].1
                    },
                    Option::None => out@[k].1 == bview[k].1,
                }),
        decreases rest@.len(),
    {
        let entry = rest.remove(0);
        proof {
            assert(bview.skip(i as int)[0] == bview[i as int]);
            assert(entry == bview[i as int]);
            assert(bview.skip(i as int).remove(0) =~= bview.skip(i + 1));
        }
        let found = find_obj_index(o, entry.0.as_str());
        let merged_val = match found {
            Option::Some(j) => deep_merge(entry.1, &o[j].1),
            Option::None => entry.1,
        };
        out.push((entry.0, merged_val));
        proof {
            assert(i < bview.len());
        }
        i = i + 1;
    }
    proof {
        assert(bview.skip(i as int).len() == 0);
        assert(i == bview.len());
    }
    out
}

/// Deep merge two configuration values: objects merge recursively with
/// the overlay winning where both store a value, a null overlay keeps
/// the base value, and any other overlay replaces the base outright.
/// Keys new to the base are appended in overlay order, nulls included.
pub fn deep_merge(base: JsonValue, overlay: &JsonValue) -> (r: JsonValue)
    ensures
        spec_merged(base, *overlay, r),
    decreases *overlay, 1int,
{
    match overlay {
        JsonValue::Null => base,
        JsonValue::Obj(o) => {
            match base {
                JsonValue::Obj(b) => {
                    let ghost bview = b@;
                    let mut base_keys: Vec<String> = Vec::new();
                    let bn = b.len();
                    let mut k: usize = 0;
                    while k < bn
                        invariant
                            0 <= k <= bn,
                            bn == bview.len(),
                            b@ == bview,
                            base_keys@.len() == k,
                            forall|x: int|
                                0 <= x < k ==> (#[trigger] base_keys@[x])@ == bview[x].0@,
                        decreases bn - k,
                    {
                        base_keys.push(b[k].0.clone());
                        k = k + 1;
                    }
                    let mut out = merge_base_entries(b, o);
                    let ghost base_part = out@;
                    let n = o.len();
                    let mut i: usize = 0;
                    proof {
                        assert(spec_merge_new(bview, o@, 0) =~= Seq::<(String, JsonValue)>::empty());
                    }
                    while i < n
                        invariant
                            0 <= i <= n,
                            n == o@.len(),
                            base_keys@.len() == bview.len(),
                            forall|x: int|
                                0 <= x < bview.len() ==> (#[trigger] base_keys@[x])@ == bview[x].0@,
                            out@.len() == base_part.len() + spec_merge_new(bview, o@, i as int).len(),
                            out@.subrange(0, base_part.len() as int) == base_part,
                            forall|k2: int|
                                0 <= k2 < spec_merge_new(bview, o@, i as int).len() ==> ((
                                #[trigger] out@[base_part.len() + k2]).0@ == spec_merge_new(bview,
                                    o@, i as int)[k2].0@ && spec_json_eq(
                                    out@[base_part.len() + k2].1,
                                    spec_merge_new(bview, o@, i as int)[k2].1,
                                )),
                        decreases n - i,
                    {
                        let entry = &o[i];
                        let mut in_base = false;
                        let bk = base_keys.len();
                        let mut x: usize = 0;
                        while x < bk
                            invariant
                                0 <= x <= bk,
                                bk == base_keys@.len(),
                                in_base == exists|y: int|
                                    0 <= y < x && (#[trigger] base_keys@[y])@ == entry.0@,
                            decreases bk - x,
                        {
                            if !in_base && str_eq(base_keys[x].as_str(), entry.0.as_str()) {
                                in_base = true;
                            }
                            x = x + 1;
                        }
                        proof {
                            lemma_obj_get_exists(bview, o@[i as int].0@);
                            if in_base {
                                let y = choose|y: int|
                                    0 <= y < base_keys@.len() && (#[trigger] base_keys@[y])@
                                        == o@[i as int].0@;
                                assert(bview[y].0@ == o@[i as int].0@);
                            } else {
                                if exists|y: int|
                                    0 <= y < bview.len() && (#[trigger] bview[y]).0@
                                        == o@[i as int].0@ {
                                    let y = choose|y: int|
                                        0 <= y < bview.len() && (#[trigger] bview[y]).0@
                                            == o@[i as int].0@;
                                    assert(base_keys@[y]@ == o@[i as int].0@);
                                }
                            }
                            assert(in_base == (spec_obj_get(bview, o@[i as int].0@) is Some));
                        }
                        if !in_base {
                            out.push((entry.0.clone(), entry.1.clone()));
                            proof {
                                assert(out@.subrange(0, base_part.len() as int) =~= base_part);
                            }
                        }
                        i = i + 1;
                    }
                    proof {
                        assert(forall|k2: int|
                            0 <= k2 < base_part.len() ==> #[trigger] out@[k2] == base_part[k2]);
                    }
                    JsonValue::Obj(out)
                },
                _ => {
                    let r = overlay.clone();
                    r
                },
            }
        },
        _ => {
            let r = overlay.clone();
            r
        },
    }
}

/// Merge two configurations, the overlay's values taking precedence
/// over the base's.
pub fn merge_configs(base: JsonValue, overlay: &JsonValue) -> (r: JsonValue)
    ensures
        spec_merged(base, *overlay, r),
{
    deep_merge(base, overlay)
}

/// Loader for configuration stored in the database; reading and parsing
/// the stored text happen outside, which then merges through
/// [`merge_configs`].
#[derive(Debug)]
pub struct DbConfigLoader {
    /// Path of the database file the configuration is loaded from.
    pub db_path: String,
}

impl DbConfigLoader {
    /// A loader for the given database path.
    pub fn new(db_path: &str) -> (r: Self)
        ensures
            r.db_path@ == db_path@,
    {
        DbConfigLoader { db_path: db_path.to_owned() }
    }
}

} // verus!

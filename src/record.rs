//! JSON objects as records: reading a member by key, collecting the members
//! that no field names, and laying out a record's fields followed by its
//! extension members.
use vstd::prelude::*;
use crate::json::{map_model, Json, JsonMap, JsonV};

verus! {

/// The members of an object, as in the model.
pub type Pairs = Seq<(Seq<char>, JsonV)>;

/// The fields of a record in wire order; `None` for an absent optional field.
pub type Fields = Seq<(Seq<char>, Option<JsonV>)>;

/// The value of the first member named `k`.
pub open spec fn get(o: Pairs, k: Seq<char>) -> Option<JsonV>
    decreases o.len(),
{
    if o.len() == 0 {
        None
    } else if o[0].0 == k {
        Some(o[0].1)
    } else {
        get(o.drop_first(), k)
    }
}

/// The members that the present fields of `fs` make, in order.
pub open spec fn present(fs: Fields) -> Pairs
    decreases fs.len(),
{
    if fs.len() == 0 {
        Seq::empty()
    } else {
        match fs[0].1 {
            Some(v) => seq![(fs[0].0, v)] + present(fs.drop_first()),
            None => present(fs.drop_first()),
        }
    }
}

/// The names of the fields of `fs`.
pub open spec fn field_keys(fs: Fields) -> Seq<Seq<char>> {
    Seq::new(fs.len(), |i: int| fs[i].0)
}

/// No member of `o` has a name in `keys`.
pub open spec fn fresh(o: Pairs, keys: Seq<Seq<char>>) -> bool {
    forall|i: int| 0 <= i < o.len() ==> !keys.contains(#[trigger] o[i].0)
}

/// The members of `o` whose names are not in `keys`.
pub open spec fn without(o: Pairs, keys: Seq<Seq<char>>) -> Pairs
    decreases o.len(),
{
    if o.len() == 0 {
        Seq::empty()
    } else if keys.contains(o[0].0) {
        without(o.drop_first(), keys)
    } else {
        seq![o[0]] + without(o.drop_first(), keys)
    }
}

/// The object that a record with fields `fs` and extension members `extra`
/// stands for.
pub open spec fn record(fs: Fields, extra: Pairs) -> JsonV {
    JsonV::Object(present(fs) + extra)
}

/// A record's fields and extension members can be told apart again: field
/// names are distinct and no extension member takes one of `reserved`, which
/// holds at least the field names.
pub open spec fn separable(fs: Fields, extra: Pairs, reserved: Seq<Seq<char>>) -> bool {
    &&& field_keys(fs).no_duplicates()
    &&& forall|i: int| 0 <= i < fs.len() ==> reserved.contains(#[trigger] fs[i].0)
    &&& fresh(extra, reserved)
}

pub proof fn lemma_get_append(a: Pairs, b: Pairs, k: Seq<char>)
    ensures
        get(a + b, k) == (match get(a, k) {
            Some(v) => Some(v),
            None => get(b, k),
        }),
    decreases a.len(),
{
    if a.len() > 0 {
        assert((a + b).drop_first() =~= a.drop_first() + b);
        lemma_get_append(a.drop_first(), b, k);
    } else {
        assert(a + b =~= b);
    }
}

pub proof fn lemma_get_fresh(o: Pairs, k: Seq<char>, keys: Seq<Seq<char>>)
    requires
        fresh(o, keys),
        keys.contains(k),
    ensures
        get(o, k) is None,
    decreases o.len(),
{
    if o.len() > 0 {
        assert(!keys.contains(o[0].0));
        assert forall|i: int| 0 <= i < o.drop_first().len() implies !keys.contains(#[trigger] o.drop_first()[i].0) by {
            assert(o.drop_first()[i] == o[i + 1]);
        }
        lemma_get_fresh(o.drop_first(), k, keys);
    }
}

proof fn lemma_get_present(fs: Fields, i: int)
    requires
        field_keys(fs).no_duplicates(),
        0 <= i < fs.len(),
    ensures
        get(present(fs), fs[i].0) == fs[i].1,
    decreases fs.len(),
{
    let rest = fs.drop_first();
    assert(field_keys(rest) =~= field_keys(fs).drop_first());
    if i == 0 {
        assert forall|j: int| 0 <= j < rest.len() implies #[trigger] rest[j].0 != fs[0].0 by {
            assert(rest[j] == fs[j + 1]);
            assert(field_keys(fs)[0] != field_keys(fs)[j + 1]);
        }
        lemma_get_present_absent(rest, fs[0].0);
        match fs[0].1 {
            Some(v) => {
                assert((seq![(fs[0].0, v)] + present(rest))[0] == (fs[0].0, v));
            },
            None => {},
        }
    } else {
        assert(rest[i - 1] == fs[i]);
        assert(field_keys(fs)[0] != field_keys(fs)[i]);
        lemma_get_present(rest, i - 1);
        match fs[0].1 {
            Some(v) => {
                assert((seq![(fs[0].0, v)] + present(rest)).drop_first() =~= present(rest));
            },
            None => {},
        }
    }
}

proof fn lemma_get_present_absent(fs: Fields, k: Seq<char>)
    requires
        forall|j: int| 0 <= j < fs.len() ==> #[trigger] fs[j].0 != k,
    ensures
        get(present(fs), k) is None,
    decreases fs.len(),
{
    if fs.len() > 0 {
        let rest = fs.drop_first();
        assert forall|j: int| 0 <= j < rest.len() implies #[trigger] rest[j].0 != k by {
            assert(rest[j] == fs[j + 1]);
        }
        lemma_get_present_absent(rest, k);
        assert(fs[0].0 != k);
        match fs[0].1 {
            Some(v) => {
                assert((seq![(fs[0].0, v)] + present(rest)).drop_first() =~= present(rest));
            },
            None => {},
        }
    }
}

/// Reading field `i` back from a separable record finds its value.
pub proof fn lemma_record_get(fs: Fields, extra: Pairs, reserved: Seq<Seq<char>>, i: int)
    requires
        separable(fs, extra, reserved),
        0 <= i < fs.len(),
    ensures
        get(present(fs) + extra, fs[i].0) == fs[i].1,
{
    lemma_get_append(present(fs), extra, fs[i].0);
    lemma_get_present(fs, i);
    if fs[i].1 is None {
        assert(reserved.contains(fs[i].0));
        lemma_get_fresh(extra, fs[i].0, reserved);
    }
}

/// A name that `reserved` holds and no field has is absent from a separable
/// record.
pub proof fn lemma_record_get_other(fs: Fields, extra: Pairs, reserved: Seq<Seq<char>>, k: Seq<char>)
    requires
        separable(fs, extra, reserved),
        reserved.contains(k),
        forall|j: int| 0 <= j < fs.len() ==> #[trigger] fs[j].0 != k,
    ensures
        get(present(fs) + extra, k) is None,
{
    lemma_get_append(present(fs), extra, k);
    lemma_get_present_absent(fs, k);
    lemma_get_fresh(extra, k, reserved);
}

pub proof fn lemma_without_append(a: Pairs, b: Pairs, keys: Seq<Seq<char>>)
    ensures
        without(a + b, keys) == without(a, keys) + without(b, keys),
    decreases a.len(),
{
    if a.len() > 0 {
        assert((a + b).drop_first() =~= a.drop_first() + b);
        lemma_without_append(a.drop_first(), b, keys);
        assert(seq![a[0]] + (without(a.drop_first(), keys) + without(b, keys))
            =~= seq![a[0]] + without(a.drop_first(), keys) + without(b, keys));
    } else {
        assert(a + b =~= b);
        assert(Seq::<(Seq<char>, JsonV)>::empty() + without(b, keys) =~= without(b, keys));
    }
}

proof fn lemma_without_present(fs: Fields, keys: Seq<Seq<char>>)
    requires
        forall|i: int| 0 <= i < fs.len() ==> keys.contains(#[trigger] fs[i].0),
    ensures
        without(present(fs), keys) == Seq::<(Seq<char>, JsonV)>::empty(),
    decreases fs.len(),
{
    if fs.len() > 0 {
        let rest = fs.drop_first();
        assert forall|i: int| 0 <= i < rest.len() implies keys.contains(#[trigger] rest[i].0) by {
            assert(rest[i] == fs[i + 1]);
        }
        lemma_without_present(rest, keys);
        assert(keys.contains(fs[0].0));
        match fs[0].1 {
            Some(v) => {
                let one = seq![(fs[0].0, v)];
                lemma_without_append(one, present(rest), keys);
                assert(one.drop_first() =~= Seq::<(Seq<char>, JsonV)>::empty());
                assert(without(one.drop_first(), keys) == Seq::<(Seq<char>, JsonV)>::empty());
                assert(keys.contains(one[0].0));
                assert(without(one, keys) =~= Seq::<(Seq<char>, JsonV)>::empty());
                assert(without(one, keys) + without(present(rest), keys) =~= Seq::<(Seq<char>, JsonV)>::empty());
            },
            None => {},
        }
    }
}

proof fn lemma_without_fresh(o: Pairs, keys: Seq<Seq<char>>)
    requires
        fresh(o, keys),
    ensures
        without(o, keys) == o,
    decreases o.len(),
{
    if o.len() > 0 {
        assert(!keys.contains(o[0].0));
        assert forall|i: int| 0 <= i < o.drop_first().len() implies !keys.contains(#[trigger] o.drop_first()[i].0) by {
            assert(o.drop_first()[i] == o[i + 1]);
        }
        lemma_without_fresh(o.drop_first(), keys);
        assert(seq![o[0]] + o.drop_first() =~= o);
    } else {
        assert(o =~= Seq::<(Seq<char>, JsonV)>::empty());
    }
}

/// Leaving out the reserved names of a separable record leaves its extension
/// members.
pub proof fn lemma_record_rest(fs: Fields, extra: Pairs, reserved: Seq<Seq<char>>)
    requires
        separable(fs, extra, reserved),
    ensures
        without(present(fs) + extra, reserved) == extra,
{
    lemma_without_append(present(fs), extra, reserved);
    lemma_without_present(fs, reserved);
    lemma_without_fresh(extra, reserved);
    assert(Seq::<(Seq<char>, JsonV)>::empty() + extra =~= extra);
}

pub proof fn lemma_present_concat(a: Fields, b: Fields)
    ensures
        present(a + b) == present(a) + present(b),
    decreases a.len(),
{
    if a.len() == 0 {
        assert(a + b =~= b);
        assert(Seq::<(Seq<char>, JsonV)>::empty() + present(b) =~= present(b));
    } else {
        assert((a + b)[0] == a[0]);
        assert((a + b).drop_first() =~= a.drop_first() + b);
        lemma_present_concat(a.drop_first(), b);
        match a[0].1 {
            Some(v) => {
                assert(seq![(a[0].0, v)] + (present(a.drop_first()) + present(b))
                    =~= seq![(a[0].0, v)] + present(a.drop_first()) + present(b));
            },
            None => {},
        }
    }
}

proof fn lemma_without_present_kept(fs: Fields, keys: Seq<Seq<char>>)
    requires
        forall|i: int| 0 <= i < fs.len() ==> !keys.contains(#[trigger] fs[i].0),
    ensures
        without(present(fs), keys) == present(fs),
    decreases fs.len(),
{
    if fs.len() > 0 {
        let rest = fs.drop_first();
        assert forall|i: int| 0 <= i < rest.len() implies !keys.contains(#[trigger] rest[i].0) by {
            assert(rest[i] == fs[i + 1]);
        }
        lemma_without_present_kept(rest, keys);
        assert(!keys.contains(fs[0].0));
        match fs[0].1 {
            Some(v) => {
                let one = seq![(fs[0].0, v)];
                lemma_without_append(one, present(rest), keys);
                assert(one.drop_first() =~= Seq::<(Seq<char>, JsonV)>::empty());
                assert(without(one.drop_first(), keys) == Seq::<(Seq<char>, JsonV)>::empty());
                assert(one[0] == (fs[0].0, v));
                assert(without(one, keys) =~= one);
            },
            None => {},
        }
    } else {
        assert(present(fs) =~= Seq::<(Seq<char>, JsonV)>::empty());
    }
}

/// Leaving out the leading fields `pre` of a record whose other names are
/// not in `keys` leaves the rest of the record.
pub proof fn lemma_record_strip(pre: Fields, fs: Fields, extra: Pairs, keys: Seq<Seq<char>>)
    requires
        forall|i: int| 0 <= i < pre.len() ==> keys.contains(#[trigger] pre[i].0),
        forall|i: int| 0 <= i < fs.len() ==> !keys.contains(#[trigger] fs[i].0),
        fresh(extra, keys),
    ensures
        without(present(pre + fs) + extra, keys) == present(fs) + extra,
{
    lemma_present_concat(pre, fs);
    lemma_without_append(present(pre) + present(fs), extra, keys);
    lemma_without_append(present(pre), present(fs), keys);
    lemma_without_present(pre, keys);
    lemma_without_present_kept(fs, keys);
    lemma_without_fresh(extra, keys);
    assert(Seq::<(Seq<char>, JsonV)>::empty() + present(fs) =~= present(fs));
}

/// A name that neither a field nor an extension member takes is absent.
pub proof fn lemma_record_absent(fs: Fields, extra: Pairs, k: Seq<char>)
    requires
        forall|j: int| 0 <= j < fs.len() ==> #[trigger] fs[j].0 != k,
        forall|i: int| 0 <= i < extra.len() ==> #[trigger] extra[i].0 != k,
    ensures
        get(present(fs) + extra, k) is None,
{
    lemma_get_append(present(fs), extra, k);
    lemma_get_present_absent(fs, k);
    assert(fresh(extra, seq![k])) by {
        assert forall|i: int| 0 <= i < extra.len() implies !seq![k].contains(#[trigger] extra[i].0) by {
            if seq![k].contains(extra[i].0) {
                let j = choose|j: int| 0 <= j < 1 && seq![k][j] == extra[i].0;
            }
        }
    }
    assert(seq![k][0] == k);
    lemma_get_fresh(extra, k, seq![k]);
}

/// The members of `o` whose names are in `keys`.
pub open spec fn only(o: Pairs, keys: Seq<Seq<char>>) -> Pairs
    decreases o.len(),
{
    if o.len() == 0 {
        Seq::empty()
    } else if keys.contains(o[0].0) {
        seq![o[0]] + only(o.drop_first(), keys)
    } else {
        only(o.drop_first(), keys)
    }
}

pub proof fn lemma_only_append(a: Pairs, b: Pairs, keys: Seq<Seq<char>>)
    ensures
        only(a + b, keys) == only(a, keys) + only(b, keys),
    decreases a.len(),
{
    if a.len() > 0 {
        assert((a + b).drop_first() =~= a.drop_first() + b);
        lemma_only_append(a.drop_first(), b, keys);
        assert(seq![a[0]] + (only(a.drop_first(), keys) + only(b, keys))
            =~= seq![a[0]] + only(a.drop_first(), keys) + only(b, keys));
    } else {
        assert(a + b =~= b);
        assert(Seq::<(Seq<char>, JsonV)>::empty() + only(b, keys) =~= only(b, keys));
    }
}

proof fn lemma_only_present(fs: Fields, keys: Seq<Seq<char>>, keep: bool)
    requires
        forall|i: int| 0 <= i < fs.len() ==> keys.contains(#[trigger] fs[i].0) == keep,
    ensures
        only(present(fs), keys) == if keep { present(fs) } else { Seq::<(Seq<char>, JsonV)>::empty() },
    decreases fs.len(),
{
    if fs.len() > 0 {
        let rest = fs.drop_first();
        assert forall|i: int| 0 <= i < rest.len() implies keys.contains(#[trigger] rest[i].0) == keep by {
            assert(rest[i] == fs[i + 1]);
        }
        lemma_only_present(rest, keys, keep);
        assert(keys.contains(fs[0].0) == keep);
        match fs[0].1 {
            Some(v) => {
                let one = seq![(fs[0].0, v)];
                lemma_only_append(one, present(rest), keys);
                assert(one.drop_first() =~= Seq::<(Seq<char>, JsonV)>::empty());
                assert(only(one.drop_first(), keys) == Seq::<(Seq<char>, JsonV)>::empty());
                assert(one[0] == (fs[0].0, v));
                if keep {
                    assert(only(one, keys) =~= one);
                } else {
                    assert(only(one, keys) =~= Seq::<(Seq<char>, JsonV)>::empty());
                    assert(Seq::<(Seq<char>, JsonV)>::empty() + Seq::<(Seq<char>, JsonV)>::empty()
                        =~= Seq::<(Seq<char>, JsonV)>::empty());
                }
            },
            None => {},
        }
    } else {
        assert(present(fs) =~= Seq::<(Seq<char>, JsonV)>::empty());
    }
}

proof fn lemma_only_fresh(o: Pairs, keys: Seq<Seq<char>>)
    requires
        fresh(o, keys),
    ensures
        only(o, keys) == Seq::<(Seq<char>, JsonV)>::empty(),
    decreases o.len(),
{
    if o.len() > 0 {
        assert(!keys.contains(o[0].0));
        assert forall|i: int| 0 <= i < o.drop_first().len() implies !keys.contains(#[trigger] o.drop_first()[i].0) by {
            assert(o.drop_first()[i] == o[i + 1]);
        }
        lemma_only_fresh(o.drop_first(), keys);
    }
}

/// Keeping only the names in `keys` of a record whose fields `fs` take
/// exactly such names, behind leading fields `pre` that take none, leaves
/// the members of `fs`.
pub proof fn lemma_record_pick(pre: Fields, fs: Fields, extra: Pairs, keys: Seq<Seq<char>>)
    requires
        forall|i: int| 0 <= i < pre.len() ==> !keys.contains(#[trigger] pre[i].0),
        forall|i: int| 0 <= i < fs.len() ==> keys.contains(#[trigger] fs[i].0),
        fresh(extra, keys),
    ensures
        only(present(pre + fs) + extra, keys) == present(fs),
{
    lemma_present_concat(pre, fs);
    lemma_only_append(present(pre) + present(fs), extra, keys);
    lemma_only_append(present(pre), present(fs), keys);
    assert forall|i: int| 0 <= i < pre.len() implies keys.contains(#[trigger] pre[i].0) == false by {}
    assert forall|i: int| 0 <= i < fs.len() implies keys.contains(#[trigger] fs[i].0) == true by {}
    lemma_only_present(pre, keys, false);
    lemma_only_present(fs, keys, true);
    lemma_only_fresh(extra, keys);
    assert(Seq::<(Seq<char>, JsonV)>::empty() + present(fs) + Seq::<(Seq<char>, JsonV)>::empty() =~= present(fs));
}

/// A copy of the members of `o` whose names are in `keys`.
pub fn pick(o: &JsonMap, keys: &Vec<&str>) -> (r: JsonMap)
    ensures
        map_model(r@) == only(map_model(o@), key_model(keys@)),
{
    let ghost m = map_model(o@);
    let ghost ks = key_model(keys@);
    let mut out: JsonMap = Vec::new();
    let mut i: usize = 0;
    assert(m.subrange(0, 0) =~= Seq::<(Seq<char>, JsonV)>::empty());
    assert(map_model(out@) =~= Seq::<(Seq<char>, JsonV)>::empty());
    while i < o.len()
        invariant
            i <= o@.len(),
            m == map_model(o@),
            ks == key_model(keys@),
            map_model(out@) == only(m.subrange(0, i as int), ks),
        decreases o@.len() - i,
    {
        let ghost before = out@;
        let ghost x = m[i as int];
        proof {
            assert(m.subrange(0, i + 1) =~= m.subrange(0, i as int) + seq![x]);
            lemma_only_append(m.subrange(0, i as int), seq![x], ks);
            assert(seq![x].drop_first() =~= Seq::<(Seq<char>, JsonV)>::empty());
            assert(only(seq![x].drop_first(), ks) == Seq::<(Seq<char>, JsonV)>::empty());
            assert(seq![x][0] == x);
            assert(x == (o@[i as int].0@, o@[i as int].1.model()));
        }
        if is_reserved(keys, &o[i].0) {
            let k = o[i].0.clone();
            let v = o[i].1.clone_json();
            out.push((k, v));
            proof {
                assert(ks.contains(x.0));
                assert(seq![x] + Seq::<(Seq<char>, JsonV)>::empty() =~= seq![x]);
                assert(only(seq![x], ks) =~= seq![x]);
                assert(map_model(out@) =~= map_model(before) + seq![x]);
            }
        } else {
            proof {
                assert(!ks.contains(x.0));
                assert(only(seq![x], ks) =~= Seq::<(Seq<char>, JsonV)>::empty());
                assert(only(m.subrange(0, i as int), ks) + Seq::<(Seq<char>, JsonV)>::empty()
                    =~= only(m.subrange(0, i as int), ks));
            }
        }
        i += 1;
    }
    assert(m.subrange(0, o@.len() as int) =~= m);
    out
}

/// Whether `a` and `b` hold the same text.
pub fn same_text(a: &String, b: &str) -> (r: bool)
    ensures
        r == (a@ == b@),
{
    let owned = b.to_owned();
    *a == owned
}

/// The value of the first member of `o` named `k`.
pub fn find<'a>(o: &'a JsonMap, k: &str) -> (r: Option<&'a Json>)
    ensures
        match r {
            Some(v) => get(map_model(o@), k@) == Some(v.model()),
            None => get(map_model(o@), k@) is None,
        },
{
    let ghost m = map_model(o@);
    assert(m.subrange(0, m.len() as int) =~= m);
    let mut i: usize = 0;
    while i < o.len()
        invariant
            i <= o@.len(),
            m == map_model(o@),
            get(m, k@) == get(m.subrange(i as int, m.len() as int), k@),
        decreases o@.len() - i,
    {
        let ghost tail = m.subrange(i as int, m.len() as int);
        assert(tail.drop_first() =~= m.subrange(i + 1, m.len() as int));
        if same_text(&o[i].0, k) {
            return Some(&o[i].1);
        }
        i += 1;
    }
    None
}

/// Whether `keys` holds `k`.
pub fn is_reserved(keys: &Vec<&str>, k: &String) -> (r: bool)
    ensures
        r == Seq::new(keys@.len(), |i: int| keys@[i]@).contains(k@),
{
    let ghost ks = Seq::new(keys@.len(), |i: int| keys@[i]@);
    let mut i: usize = 0;
    while i < keys.len()
        invariant
            i <= keys@.len(),
            ks == Seq::new(keys@.len(), |i: int| keys@[i]@),
            forall|j: int| 0 <= j < i ==> ks[j] != k@,
        decreases keys@.len() - i,
    {
        if same_text(k, keys[i]) {
            assert(ks[i as int] == k@);
            return true;
        }
        i += 1;
    }
    false
}

/// The names in `keys`, as in the model.
pub open spec fn key_model(keys: Seq<&str>) -> Seq<Seq<char>> {
    Seq::new(keys.len(), |i: int| keys[i]@)
}

/// A copy of the members of `o` whose names are not in `keys`.
pub fn rest(o: &JsonMap, keys: &Vec<&str>) -> (r: JsonMap)
    ensures
        map_model(r@) == without(map_model(o@), key_model(keys@)),
{
    let ghost m = map_model(o@);
    let ghost ks = key_model(keys@);
    let mut out: JsonMap = Vec::new();
    let mut i: usize = 0;
    assert(m.subrange(0, 0) =~= Seq::<(Seq<char>, JsonV)>::empty());
    assert(map_model(out@) =~= Seq::<(Seq<char>, JsonV)>::empty());
    while i < o.len()
        invariant
            i <= o@.len(),
            m == map_model(o@),
            ks == key_model(keys@),
            map_model(out@) == without(m.subrange(0, i as int), ks),
        decreases o@.len() - i,
    {
        let ghost before = out@;
        let ghost x = m[i as int];
        proof {
            assert(m.subrange(0, i + 1) =~= m.subrange(0, i as int) + seq![x]);
            lemma_without_append(m.subrange(0, i as int), seq![x], ks);
            assert(seq![x].drop_first() =~= Seq::<(Seq<char>, JsonV)>::empty());
            assert(without(seq![x].drop_first(), ks) == Seq::<(Seq<char>, JsonV)>::empty());
            assert(seq![x][0] == x);
            assert(x == (o@[i as int].0@, o@[i as int].1.model()));
        }
        if !is_reserved(keys, &o[i].0) {
            let k = o[i].0.clone();
            let v = o[i].1.clone_json();
            out.push((k, v));
            proof {
                assert(!ks.contains(x.0));
                assert(seq![x] + Seq::<(Seq<char>, JsonV)>::empty() =~= seq![x]);
                assert(without(seq![x], ks) =~= seq![x]);
                assert(map_model(out@) =~= map_model(before) + seq![x]);
            }
        } else {
            proof {
                assert(ks.contains(x.0));
                assert(without(seq![x], ks) =~= Seq::<(Seq<char>, JsonV)>::empty());
                assert(without(m.subrange(0, i as int), ks) + Seq::<(Seq<char>, JsonV)>::empty()
                    =~= without(m.subrange(0, i as int), ks));
            }
        }
        i += 1;
    }
    assert(m.subrange(0, o@.len() as int) =~= m);
    out
}

/// The exec fields of a record, as in the model.
pub open spec fn fields_model(fs: Seq<(&str, Option<Json>)>) -> Fields {
    Seq::new(fs.len(), |i: int| (fs[i].0@, match fs[i].1 {
        Some(v) => Some(v.model()),
        None => None,
    }))
}

/// The object with the present fields of `fs` in order, then `extra`.
pub fn build(fs: Vec<(&str, Option<Json>)>, extra: JsonMap) -> (r: Json)
    ensures
        r.model() == record(fields_model(fs@), map_model(extra@)),
{
    let ghost all = fs@;
    let ghost fm = fields_model(all);
    let mut fs = fs;
    let mut out: JsonMap = Vec::new();
    let ghost mut n: int = 0;
    assert(fm.subrange(0, 0) =~= Seq::<(Seq<char>, Option<JsonV>)>::empty());
    assert(map_model(out@) =~= Seq::<(Seq<char>, JsonV)>::empty());
    while fs.len() > 0
        invariant
            0 <= n <= all.len(),
            fs@ == all.subrange(n, all.len() as int),
            fm == fields_model(all),
            map_model(out@) == present(fm.subrange(0, n)),
        decreases fs@.len(),
    {
        let ghost before = out@;
        let x = fs.remove(0);
        let ghost xm = fm[n];
        proof {
            assert(x == all[n]);
            lemma_present_append(fm.subrange(0, n), xm);
            assert(fm.subrange(0, n + 1) =~= fm.subrange(0, n).push(xm));
        }
        match x.1 {
            Some(v) => {
                out.push((x.0.to_owned(), v));
                proof {
                    assert(map_model(out@) =~= map_model(before) + seq![(xm.0, xm.1.unwrap())]);
                }
            },
            None => {
                proof {
                    assert(present(fm.subrange(0, n)) + Seq::<(Seq<char>, JsonV)>::empty()
                        =~= present(fm.subrange(0, n)));
                }
            },
        }
        proof {
            n = n + 1;
            assert(fs@ =~= all.subrange(n, all.len() as int));
        }
    }
    assert(fm.subrange(0, n) =~= fm);
    let ghost fields_part = out@;
    let ghost extra0 = extra@;
    let mut extra = extra;
    let ghost mut k: int = 0;
    assert(fields_part + extra0.subrange(0, 0) =~= fields_part);
    while extra.len() > 0
        invariant
            0 <= k <= extra0.len(),
            extra@ == extra0.subrange(k, extra0.len() as int),
            out@ == fields_part + extra0.subrange(0, k),
        decreases extra@.len(),
    {
        let x = extra.remove(0);
        proof {
            assert(x == extra0[k]);
        }
        out.push(x);
        proof {
            assert(extra0.subrange(0, k + 1) =~= extra0.subrange(0, k).push(x));
            assert(out@ =~= fields_part + extra0.subrange(0, k + 1));
            k = k + 1;
            assert(extra@ =~= extra0.subrange(k, extra0.len() as int));
        }
    }
    proof {
        assert(extra0.subrange(0, k) =~= extra0);
        assert(map_model(out@) =~= map_model(fields_part) + map_model(extra0));
        crate::json::lemma_object_model(out);
    }
    Json::Object(out)
}

proof fn lemma_present_append(fs: Fields, x: (Seq<char>, Option<JsonV>))
    ensures
        present(fs.push(x)) == present(fs) + (match x.1 {
            Some(v) => seq![(x.0, v)],
            None => Seq::<(Seq<char>, JsonV)>::empty(),
        }),
    decreases fs.len(),
{
    let tail = match x.1 {
        Some(v) => seq![(x.0, v)],
        None => Seq::<(Seq<char>, JsonV)>::empty(),
    };
    if fs.len() == 0 {
        assert(fs.push(x)[0] == x);
        assert(fs.push(x).drop_first() =~= Seq::<(Seq<char>, Option<JsonV>)>::empty());
        assert(present(fs.push(x).drop_first()) == Seq::<(Seq<char>, JsonV)>::empty());
        assert(Seq::<(Seq<char>, JsonV)>::empty() + tail =~= tail);
        match x.1 {
            Some(v) => {
                assert(seq![(x.0, v)] + Seq::<(Seq<char>, JsonV)>::empty() =~= tail);
            },
            None => {},
        }
    } else {
        assert(fs.push(x)[0] == fs[0]);
        assert(fs.push(x).drop_first() =~= fs.drop_first().push(x));
        lemma_present_append(fs.drop_first(), x);
        match fs[0].1 {
            Some(v) => {
                assert(seq![(fs[0].0, v)] + (present(fs.drop_first()) + tail)
                    =~= seq![(fs[0].0, v)] + present(fs.drop_first()) + tail);
            },
            None => {},
        }
    }
}

} // verus!

//! JSON values, and the skeleton, merge and override operations of the
//! request-patch system.
use vstd::prelude::*;

verus! {

/// A JSON value. Numbers are kept as their text; an object is the list of its
/// entries, in order.
#[derive(Debug, PartialEq)]
pub enum JsonValue {
    Null,
    Bool(bool),
    Number(String),
    Str(String),
    Array(Vec<JsonValue>),
    Object(Vec<(String, JsonValue)>),
}

/// The mathematical form of a JSON value.
pub enum Json {
    Null,
    Bool(bool),
    Number(Seq<char>),
    Str(Seq<char>),
    Array(Seq<Json>),
    Object(Seq<(Seq<char>, Json)>),
}

/// The entries of an object, each viewed.
pub open spec fn entries_view(m: Seq<(String, JsonValue)>) -> Seq<(Seq<char>, Json)>
    decreases m,
{
    Seq::new(
        m.len(),
        |i: int|
            if 0 <= i < m.len() {
                (m[i].0@, m[i].1.view())
            } else {
                (Seq::empty(), Json::Null)
            },
    )
}

/// The elements of an array, each viewed.
pub open spec fn values_view(a: Seq<JsonValue>) -> Seq<Json>
    decreases a,
{
    Seq::new(
        a.len(),
        |i: int|
            if 0 <= i < a.len() {
                a[i].view()
            } else {
                Json::Null
            },
    )
}

impl View for JsonValue {
    type V = Json;

    open spec fn view(&self) -> Json
        decreases self,
    {
        match self {
            JsonValue::Null => Json::Null,
            JsonValue::Bool(b) => Json::Bool(*b),
            JsonValue::Number(n) => Json::Number(n@),
            JsonValue::Str(s) => Json::Str(s@),
            JsonValue::Array(a) => Json::Array(values_view(a@)),
            JsonValue::Object(m) => Json::Object(entries_view(m@)),
        }
    }
}

/// The marker that stands for a value the user has not overridden.
pub open spec fn not_modified() -> Json {
    Json::Str("Not modified"@)
}

/// The skeleton of a value: the same nesting of objects and the same keys,
/// with every other value (arrays included) replaced by the marker.
pub open spec fn skeleton(v: Json) -> Json
    decreases v,
{
    match v {
        Json::Object(m) => Json::Object(skeleton_entries(m)),
        _ => not_modified(),
    }
}

/// The entries of an object's skeleton: the same keys, each value replaced by
/// its skeleton.
pub open spec fn skeleton_entries(m: Seq<(Seq<char>, Json)>) -> Seq<(Seq<char>, Json)>
    decreases m,
{
    Seq::new(
        m.len(),
        |i: int|
            if 0 <= i < m.len() {
                (m[i].0, skeleton(m[i].1))
            } else {
                (Seq::empty(), Json::Null)
            },
    )
}

/// The position of the first entry with key `k`, or the length when there is none.
pub open spec fn key_pos<V>(m: Seq<(Seq<char>, V)>, k: Seq<char>) -> nat
    decreases m.len(),
{
    if m.len() == 0 || m[0].0 == k {
        0
    } else {
        1 + key_pos(m.drop_first(), k)
    }
}

/// The entries after setting key `k` to `v`: the entry with that key is
/// replaced where it stands, or a new entry is added at the end.
pub open spec fn obj_insert<V>(m: Seq<(Seq<char>, V)>, k: Seq<char>, v: V) -> Seq<(Seq<char>, V)> {
    let j = key_pos(m, k);
    if j < m.len() {
        m.update(j as int, (k, v))
    } else {
        m.push((k, v))
    }
}


/// Merges the keys of `incoming` into `existing`, both objects: a key that
/// `existing` lacks is added with the skeleton of its incoming value; a key it
/// has is left alone, unless both values are objects, which are merged in turn.
/// Anything else leaves `existing` as it is.
pub open spec fn merge(existing: Json, incoming: Json) -> Json
    decreases incoming,
{
    match existing {
        Json::Object(e) => match incoming {
            Json::Object(i) => Json::Object(merge_entries(e, i)),
            _ => existing,
        },
        _ => existing,
    }
}

/// The entries `e` after merging the incoming entries `i` one by one, in order.
pub open spec fn merge_entries(e: Seq<(Seq<char>, Json)>, i: Seq<(Seq<char>, Json)>) -> Seq<(Seq<char>, Json)>
    decreases i,
{
    if i.len() == 0 {
        e
    } else {
        let acc = merge_entries(e, i.drop_last());
        let k = i[i.len() - 1].0;
        let iv = i[i.len() - 1].1;
        let j = key_pos(acc, k);
        if j < acc.len() {
            if acc[j as int].1 is Object && iv is Object {
                acc.update(j as int, (acc[j as int].0, merge(acc[j as int].1, iv)))
            } else {
                acc
            }
        } else {
            acc.push((k, skeleton(iv)))
        }
    }
}

/// Replays a patch onto a value. An object patch: each of its entries that is
/// not the marker is written under its key (an object entry is applied to the
/// value under that key, or to an empty object when there is none), into the
/// target when it is an object and into an empty object otherwise; markers
/// are written nowhere, at any depth. Otherwise a patch that is not the
/// marker replaces the value, and the marker leaves it.
pub open spec fn apply_patch(patch: Json, target: Json) -> Json
    decreases patch,
{
    match patch {
        Json::Object(p) => match target {
            Json::Object(t) => Json::Object(override_entries(p, t)),
            _ => Json::Object(override_entries(p, Seq::empty())),
        },
        _ => if patch == not_modified() {
            target
        } else {
            patch
        },
    }
}

/// The entries `t` after writing the patch entries `p` one by one, in order.
pub open spec fn override_entries(p: Seq<(Seq<char>, Json)>, t: Seq<(Seq<char>, Json)>) -> Seq<(Seq<char>, Json)>
    decreases p,
{
    if p.len() == 0 {
        t
    } else {
        let acc = override_entries(p.drop_last(), t);
        let k = p[p.len() - 1].0;
        let pv = p[p.len() - 1].1;
        if pv == not_modified() {
            acc
        } else if pv is Object {
            let j = key_pos(acc, k);
            let child = if j < acc.len() {
                acc[j as int].1
            } else {
                Json::Object(Seq::empty())
            };
            obj_insert(acc, k, apply_patch(pv, child))
        } else {
            obj_insert(acc, k, pv)
        }
    }
}

/// `key_pos` stops at the first entry with the key.
pub proof fn lemma_key_pos<V>(m: Seq<(Seq<char>, V)>, k: Seq<char>)
    ensures
        key_pos(m, k) <= m.len(),
        key_pos(m, k) < m.len() ==> m[key_pos(m, k) as int].0 == k,
        forall|j: int| 0 <= j < key_pos(m, k) ==> m[j].0 != k,
    decreases m.len(),
{
    if m.len() > 0 && m[0].0 != k {
        lemma_key_pos(m.drop_first(), k);
        assert forall|j: int| 0 <= j < key_pos(m, k) implies m[j].0 != k by {
            if j > 0 {
                assert(m[j] == m.drop_first()[j - 1]);
            }
        }
    }
}

/// The position of the first entry of `m` with key `k`, or its length.
pub fn find_key(m: &Vec<(String, JsonValue)>, k: &str) -> (r: usize)
    ensures
        r == key_pos(entries_view(m@), k@),
        r <= m.len(),
{
    let ghost ev = entries_view(m@);
    let key = k.to_owned();
    let mut i: usize = 0;
    assert(ev.skip(0) =~= ev);
    while i < m.len() && !(m[i].0 == key)
        invariant
            i <= m.len(),
            ev == entries_view(m@),
            key@ == k@,
            key_pos(ev, k@) == i + key_pos(ev.skip(i as int), k@),
        decreases m.len() - i,
    {
        assert(ev.skip(i as int).drop_first() =~= ev.skip(i + 1));
        i = i + 1;
    }
    i
}

impl JsonValue {
    /// Whether the value is an object.
    pub fn is_object(&self) -> (r: bool)
        ensures
            r == (self@ is Object),
    {
        match self {
            JsonValue::Object(_) => true,
            _ => false,
        }
    }

    /// Whether the value is the marker of a value not overridden.
    pub fn is_not_modified(&self) -> (r: bool)
        ensures
            r == (self@ == not_modified()),
    {
        match self {
            JsonValue::Str(s) => *s == "Not modified".to_owned(),
            _ => false,
        }
    }
}

/// A copy of a value.
pub fn json_clone(v: &JsonValue) -> (r: JsonValue)
    ensures
        r@ == v@,
    decreases v,
{
    match v {
        JsonValue::Null => JsonValue::Null,
        JsonValue::Bool(b) => JsonValue::Bool(*b),
        JsonValue::Number(n) => JsonValue::Number(n.clone()),
        JsonValue::Str(s) => JsonValue::Str(s.clone()),
        JsonValue::Array(a) => {
            let mut out: Vec<JsonValue> = Vec::new();
            let mut i: usize = 0;
            while i < a.len()
                invariant
                    i <= a.len(),
                    *v == JsonValue::Array(*a),
                    out.len() == i,
                    forall|j: int| 0 <= j < i ==> (#[trigger] out@[j])@ == a@[j]@,
                decreases a.len() - i,
            {
                proof {
                    assert(decreases_to!(*v => (*v)->Array_0));
                    assert(decreases_to!(*v => (*v)->Array_0@));
                    assert(decreases_to!(*v => (*v)->Array_0@[i as int]));
                }
                out.push(json_clone(&a[i]));
                i = i + 1;
            }
            assert(values_view(out@) =~= values_view(a@));
            JsonValue::Array(out)
        },
        JsonValue::Object(m) => {
            let mut out: Vec<(String, JsonValue)> = Vec::new();
            let mut i: usize = 0;
            while i < m.len()
                invariant
                    i <= m.len(),
                    *v == JsonValue::Object(*m),
                    out.len() == i,
                    forall|j: int| 0 <= j < i ==> (#[trigger] out@[j]).0@ == m@[j].0@ && out@[j].1@ == m@[j].1@,
                decreases m.len() - i,
            {
                proof {
                    assert(decreases_to!(*v => (*v)->Object_0));
                    assert(decreases_to!(*v => (*v)->Object_0@));
                    assert(decreases_to!(*v => (*v)->Object_0@[i as int]));
                    assert(decreases_to!(*v => (*v)->Object_0@[i as int].1));
                }
                out.push((m[i].0.clone(), json_clone(&m[i].1)));
                i = i + 1;
            }
            assert(entries_view(out@) =~= entries_view(m@));
            JsonValue::Object(out)
        },
    }
}

/// Replaces every value that is not an object with the marker, keeping all
/// keys and the nesting of objects. Arrays are leaves: their contents are not
/// walked.
pub fn to_skeleton(val: &JsonValue) -> (r: JsonValue)
    ensures
        r@ == skeleton(val@),
        json_wf(val@) ==> json_wf(r@),
    decreases val,
{
    proof {
        if json_wf(val@) {
            lemma_skeleton_wf(val@);
        }
    }
    match val {
        JsonValue::Object(m) => {
            let mut out: Vec<(String, JsonValue)> = Vec::new();
            let mut i: usize = 0;
            while i < m.len()
                invariant
                    i <= m.len(),
                    *val == JsonValue::Object(*m),
                    out.len() == i,
                    forall|j: int| 0 <= j < i ==> (#[trigger] out@[j]).0@ == m@[j].0@ && out@[j].1@ == skeleton(m@[j].1@),
                decreases m.len() - i,
            {
                proof {
                    assert(decreases_to!(*val => (*val)->Object_0));
                    assert(decreases_to!(*val => (*val)->Object_0@));
                    assert(decreases_to!(*val => (*val)->Object_0@[i as int]));
                    assert(decreases_to!(*val => (*val)->Object_0@[i as int].1));
                }
                out.push((m[i].0.clone(), to_skeleton(&m[i].1)));
                i = i + 1;
            }
            proof {
                let ev = entries_view(m@);
                assert(val@ == Json::Object(ev));
                assert(entries_view(out@) =~= skeleton_entries(ev));
            }
            JsonValue::Object(out)
        },
        _ => JsonValue::Str("Not modified".to_owned()),
    }
}


/// `merge` on an owned value.
fn merge_owned(existing: JsonValue, incoming: &JsonValue) -> (r: JsonValue)
    ensures
        r@ == merge(existing@, incoming@),
    decreases incoming,
{
    match existing {
        JsonValue::Object(e) => match incoming {
            JsonValue::Object(inc) => {
                let mut ex = e;
                let ghost e0 = entries_view(ex@);
                let ghost iv = entries_view(inc@);
                let mut n: usize = 0;
                assert(iv.take(0) =~= Seq::<(Seq<char>, Json)>::empty());
                while n < inc.len()
                    invariant
                        *incoming == JsonValue::Object(*inc),
                        n <= inc.len(),
                        iv == entries_view(inc@),
                        entries_view(ex@) == merge_entries(e0, iv.take(n as int)),
                    decreases inc.len() - n,
                {
                    let k = &inc[n].0;
                    let inv = &inc[n].1;
                    let ghost acc = entries_view(ex@);
                    proof {
                        assert(iv.take(n + 1).drop_last() =~= iv.take(n as int));
                        assert(iv.take(n + 1)[n as int] == (k@, inv@));
                        lemma_key_pos(acc, k@);
                    }
                    let j = find_key(&ex, k.as_str());
                    if j < ex.len() {
                        if ex[j].1.is_object() && inv.is_object() {
                            proof {
                                assert(decreases_to!(*incoming => (*incoming)->Object_0));
                                assert(decreases_to!(*incoming => (*incoming)->Object_0@));
                                assert(decreases_to!(*incoming => (*incoming)->Object_0@[n as int]));
                                assert(decreases_to!(*incoming => (*incoming)->Object_0@[n as int].1));
                            }
                            let (ek, ev) = ex.remove(j);
                            let merged = merge_owned(ev, inv);
                            ex.insert(j, (ek, merged));
                            assert(entries_view(ex@) =~= acc.update(
                                j as int,
                                (acc[j as int].0, merge(acc[j as int].1, inv@)),
                            ));
                        }
                    } else {
                        let sk = to_skeleton(inv);
                        ex.push((k.clone(), sk));
                        assert(entries_view(ex@) =~= acc.push((k@, skeleton(inv@))));
                    }
                    n = n + 1;
                }
                assert(iv.take(inc.len() as int) =~= iv);
                JsonValue::Object(ex)
            },
            _ => JsonValue::Object(e),
        },
        other => other,
    }
}

/// Merges the keys of `incoming` into `existing` (see `merge`): keys that
/// `existing` lacks are added as skeletons of their incoming values, keys it
/// has keep their values, and nested objects on both sides are merged alike.
pub fn merge_skeleton(existing: &mut JsonValue, incoming: &JsonValue)
    ensures
        final(existing)@ == merge(old(existing)@, incoming@),
        json_wf(old(existing)@) && json_wf(incoming@) ==> json_wf(final(existing)@),
{
    proof {
        if json_wf(old(existing)@) && json_wf(incoming@) {
            lemma_merge_wf(old(existing)@, incoming@);
        }
    }
    let mut e = JsonValue::Null;
    std::mem::swap(&mut e, existing);
    *existing = merge_owned(e, incoming);
}

/// `apply_patch` on an owned target.
fn apply_owned(patch: &JsonValue, target: JsonValue) -> (r: JsonValue)
    ensures
        r@ == apply_patch(patch@, target@),
    decreases patch,
{
    match patch {
        JsonValue::Object(p) => {
            let t0 = match target {
                JsonValue::Object(t0) => t0,
                _ => {
                    let e: Vec<(String, JsonValue)> = Vec::new();
                    assert(entries_view(e@) =~= Seq::<(Seq<char>, Json)>::empty());
                    e
                },
            };
            {
                let mut t = t0;
                let ghost tv0 = entries_view(t@);
                let ghost pv = entries_view(p@);
                let mut n: usize = 0;
                assert(pv.take(0) =~= Seq::<(Seq<char>, Json)>::empty());
                while n < p.len()
                    invariant
                        *patch == JsonValue::Object(*p),
                        n <= p.len(),
                        pv == entries_view(p@),
                        entries_view(t@) == override_entries(pv.take(n as int), tv0),
                    decreases p.len() - n,
                {
                    let k = &p[n].0;
                    let pval = &p[n].1;
                    let ghost acc = entries_view(t@);
                    proof {
                        assert(pv.take(n + 1).drop_last() =~= pv.take(n as int));
                        assert(pv.take(n + 1)[n as int] == (k@, pval@));
                        lemma_key_pos(acc, k@);
                        assert(decreases_to!(*patch => (*patch)->Object_0));
                        assert(decreases_to!(*patch => (*patch)->Object_0@));
                        assert(decreases_to!(*patch => (*patch)->Object_0@[n as int]));
                        assert(decreases_to!(*patch => (*patch)->Object_0@[n as int].1));
                    }
                    if pval.is_not_modified() {
                    } else if pval.is_object() {
                        let j = find_key(&t, k.as_str());
                        if j < t.len() {
                            let (_tk, tv) = t.remove(j);
                            let nv = apply_owned(pval, tv);
                            t.insert(j, (k.clone(), nv));
                            assert(entries_view(t@) =~= obj_insert(acc, k@, apply_patch(pval@, acc[j as int].1)));
                        } else {
                            let empty: Vec<(String, JsonValue)> = Vec::new();
                            assert(entries_view(empty@) =~= Seq::<(Seq<char>, Json)>::empty());
                            let nv = apply_owned(pval, JsonValue::Object(empty));
                            t.push((k.clone(), nv));
                            assert(entries_view(t@) =~= obj_insert(acc, k@, apply_patch(pval@, Json::Object(Seq::empty()))));
                        }
                    } else {
                        let j = find_key(&t, k.as_str());
                        let nv = json_clone(pval);
                        if j < t.len() {
                            t.remove(j);
                            t.insert(j, (k.clone(), nv));
                        } else {
                            t.push((k.clone(), nv));
                        }
                        assert(entries_view(t@) =~= obj_insert(acc, k@, pval@));
                    }
                    n = n + 1;
                }
                assert(pv.take(p.len() as int) =~= pv);
                JsonValue::Object(t)
            }
        },
        _ => if patch.is_not_modified() {
            target
        } else {
            json_clone(patch)
        },
    }
}

/// Replays the overrides of `patch` onto `target` (see `apply_patch`): every
/// value of the patch that is not the marker is written at its place.
pub fn apply_overrides(patch: &JsonValue, target: &mut JsonValue)
    ensures
        final(target)@ == apply_patch(patch@, old(target)@),
        json_wf(patch@) && json_wf(old(target)@) ==> json_wf(final(target)@),
{
    proof {
        if json_wf(patch@) && json_wf(old(target)@) {
            lemma_apply_patch_wf(patch@, old(target)@);
        }
    }
    let mut t = JsonValue::Null;
    std::mem::swap(&mut t, target);
    *target = apply_owned(patch, t);
}


/// No two entries share a key.
pub open spec fn keys_unique(m: Seq<(Seq<char>, Json)>) -> bool {
    forall|a: int, b: int| 0 <= a < b < m.len() ==> m[a].0 != m[b].0
}

/// A valid JSON value: no object, at any depth, has a key twice.
pub open spec fn json_wf(v: Json) -> bool
    decreases v,
{
    match v {
        Json::Object(m) => keys_unique(m) && forall|i: int| 0 <= i < m.len() ==> json_wf(#[trigger] m[i].1),
        _ => true,
    }
}

/// In entries whose keys are unique, the key of entry `j` is found at `j`.
pub proof fn lemma_key_pos_unique(m: Seq<(Seq<char>, Json)>, j: int)
    requires
        keys_unique(m),
        0 <= j < m.len(),
    ensures
        key_pos(m, m[j].0) == j,
{
    lemma_key_pos(m, m[j].0);
}

/// The skeleton of a skeleton is the skeleton itself.
pub proof fn law_skeleton_idempotent(v: Json)
    ensures
        skeleton(skeleton(v)) == skeleton(v),
    decreases v,
{
    if let Json::Object(m) = v {
        let s = skeleton_entries(m);
        assert forall|i: int| 0 <= i < s.len() implies #[trigger] skeleton_entries(s)[i] == s[i] by {
            assert(decreases_to!(v => v->Object_0));
            assert(decreases_to!(v => v->Object_0[i]));
            assert(decreases_to!(v => v->Object_0[i].1));
            law_skeleton_idempotent(m[i].1);
            assert(s[i] == (m[i].0, skeleton(m[i].1)));
        }
        assert(skeleton_entries(s) =~= s);
    }
}

/// Merging an object into an empty object gives the skeleton of the object:
/// the first response recorded fills the response section with markers.
pub proof fn law_merge_into_empty(m: Seq<(Seq<char>, Json)>)
    requires
        keys_unique(m),
    ensures
        merge(Json::Object(Seq::empty()), Json::Object(m)) == skeleton(Json::Object(m)),
{
    lemma_merge_entries_from_empty(m);
}

proof fn lemma_merge_entries_from_empty(m: Seq<(Seq<char>, Json)>)
    requires
        keys_unique(m),
    ensures
        merge_entries(Seq::empty(), m) == skeleton_entries(m),
    decreases m.len(),
{
    if m.len() == 0 {
        assert(skeleton_entries(m) =~= Seq::<(Seq<char>, Json)>::empty());
    } else {
        let init = m.drop_last();
        assert(keys_unique(init));
        lemma_merge_entries_from_empty(init);
        let acc = skeleton_entries(init);
        let k = m[m.len() - 1].0;
        lemma_key_pos(acc, k);
        if key_pos(acc, k) < acc.len() {
            assert(acc[key_pos(acc, k) as int].0 == init[key_pos(acc, k) as int].0);
        }
        assert(acc.push((k, skeleton(m[m.len() - 1].1))) =~= skeleton_entries(m));
    }
}

/// Merging a valid value into its own skeleton changes nothing: registering a
/// request that has just been recorded adds no key.
pub proof fn law_merge_into_own_skeleton(v: Json)
    requires
        json_wf(v),
    ensures
        merge(skeleton(v), v) == skeleton(v),
    decreases v, 1int, 0int,
{
    if let Json::Object(m) = v {
        let s = skeleton_entries(m);
        assert(keys_unique(s)) by {
            assert forall|a: int, b: int| 0 <= a < b < s.len() implies s[a].0 != s[b].0 by {
                assert(s[a].0 == m[a].0 && s[b].0 == m[b].0);
            }
        }
        lemma_merge_own_skeleton_prefix(v, m.len() as int);
        assert(m.take(m.len() as int) =~= m);
    }
}

proof fn lemma_merge_own_skeleton_prefix(v: Json, n: int)
    requires
        v is Object,
        json_wf(v),
        keys_unique(skeleton_entries(v->Object_0)),
        0 <= n <= v->Object_0.len(),
    ensures
        merge_entries(skeleton_entries(v->Object_0), v->Object_0.take(n)) == skeleton_entries(v->Object_0),
    decreases v, 0int, n,
{
    let m = v->Object_0;
    let s = skeleton_entries(m);
    if n == 0 {
        assert(m.take(0) =~= Seq::<(Seq<char>, Json)>::empty());
    } else {
        let p = n - 1;
        lemma_merge_own_skeleton_prefix(v, p);
        assert(m.take(n).drop_last() =~= m.take(p));
        assert(m.take(n)[p] == m[p]);
        lemma_key_pos_unique(s, p);
        if s[p].1 is Object && m[p].1 is Object {
            assert(decreases_to!(v => v->Object_0));
            assert(decreases_to!(v => v->Object_0[p]));
            assert(decreases_to!(v => v->Object_0[p].1));
            assert(json_wf(m[p].1));
            law_merge_into_own_skeleton(m[p].1);
            assert(s.update(p, (s[p].0, merge(s[p].1, m[p].1))) =~= s);
        }
    }
}

/// `r` keeps everything of `e`: the same value where `e` is not an object;
/// where it is, an object whose first entries have the keys of `e`, in order,
/// each keeping the value of `e` in turn. Objects may only gain entries.
pub open spec fn keeps(e: Json, r: Json) -> bool
    decreases e,
{
    match e {
        Json::Object(em) => match r {
            Json::Object(rm) => em.len() <= rm.len() && forall|j: int|
                0 <= j < em.len() ==> rm[j].0 == em[j].0 && keeps(#[trigger] em[j].1, rm[j].1),
            _ => false,
        },
        _ => r == e,
    }
}

/// Every value keeps itself.
pub proof fn lemma_keeps_refl(x: Json)
    ensures
        keeps(x, x),
    decreases x,
{
    if let Json::Object(m) = x {
        assert forall|j: int| 0 <= j < m.len() implies keeps(#[trigger] m[j].1, m[j].1) by {
            assert(decreases_to!(x => x->Object_0));
            assert(decreases_to!(x => x->Object_0[j]));
            assert(decreases_to!(x => x->Object_0[j].1));
            lemma_keeps_refl(m[j].1);
        }
    }
}

/// Keeping is transitive.
pub proof fn lemma_keeps_trans(a: Json, b: Json, c: Json)
    requires
        keeps(a, b),
        keeps(b, c),
    ensures
        keeps(a, c),
    decreases a,
{
    if let Json::Object(am) = a {
        assert(b is Object);
        let bm = b->Object_0;
        assert(c is Object);
        let cm = c->Object_0;
        assert(am.len() <= bm.len() <= cm.len());
        assert forall|j: int| 0 <= j < am.len() implies (#[trigger] cm[j]).0 == am[j].0 && keeps(am[j].1, cm[j].1) by {
            assert(decreases_to!(a => a->Object_0));
            assert(decreases_to!(a => a->Object_0[j]));
            assert(decreases_to!(a => a->Object_0[j].1));
            assert(keeps(am[j].1, bm[j].1));
            assert(keeps(bm[j].1, cm[j].1));
            lemma_keeps_trans(am[j].1, bm[j].1, cm[j].1);
        }
    }
}

/// Merging never changes or removes anything that was there: every key keeps
/// its place and every value that is not an object stays as it was, so the
/// overrides a user has written survive any number of merges.
pub proof fn law_merge_keeps_existing(e: Json, i: Json)
    ensures
        keeps(e, merge(e, i)),
    decreases i,
{
    match e {
        Json::Object(em) => match i {
            Json::Object(im) => {
                assert(decreases_to!(i => i->Object_0));
                lemma_merge_entries_keeps(em, im);
            },
            _ => lemma_keeps_refl(e),
        },
        _ => lemma_keeps_refl(e),
    }
}

proof fn lemma_merge_entries_keeps(em: Seq<(Seq<char>, Json)>, im: Seq<(Seq<char>, Json)>)
    ensures
        keeps(Json::Object(em), Json::Object(merge_entries(em, im))),
    decreases im,
{
    if im.len() == 0 {
        lemma_keeps_refl(Json::Object(em));
    } else {
        let init = im.drop_last();
        assert(decreases_to!(im => init));
        lemma_merge_entries_keeps(em, init);
        let acc = merge_entries(em, init);
        let k = im[im.len() - 1].0;
        let iv = im[im.len() - 1].1;
        let j = key_pos(acc, k);
        lemma_key_pos(acc, k);
        lemma_keeps_refl(Json::Object(acc));
        if j < acc.len() {
            if acc[j as int].1 is Object && iv is Object {
                assert(decreases_to!(im => im[im.len() - 1]));
                assert(decreases_to!(im => im[im.len() - 1].1));
                law_merge_keeps_existing(acc[j as int].1, iv);
                let next = acc.update(j as int, (acc[j as int].0, merge(acc[j as int].1, iv)));
                assert forall|t: int| 0 <= t < acc.len() implies next[t].0 == acc[t].0 && keeps(#[trigger] acc[t].1, next[t].1) by {
                    if t != j {
                        assert(keeps(acc[t].1, acc[t].1));
                    }
                }
                assert(keeps(Json::Object(acc), Json::Object(next)));
                lemma_keeps_trans(Json::Object(em), Json::Object(acc), Json::Object(next));
            }
        } else {
            let next = acc.push((k, skeleton(iv)));
            assert forall|t: int| 0 <= t < acc.len() implies next[t].0 == acc[t].0 && keeps(#[trigger] acc[t].1, next[t].1) by {
                assert(keeps(acc[t].1, acc[t].1));
            }
            assert(keeps(Json::Object(acc), Json::Object(next)));
            lemma_keeps_trans(Json::Object(em), Json::Object(acc), Json::Object(next));
        }
    }
}

/// Appending an entry moves no key found before it; a key found nowhere
/// before is found at the new entry when it carries that key.
pub proof fn lemma_key_pos_push<V>(m: Seq<(Seq<char>, V)>, x: (Seq<char>, V), k: Seq<char>)
    ensures
        key_pos(m, k) < m.len() ==> key_pos(m.push(x), k) == key_pos(m, k),
        key_pos(m, k) == m.len() && x.0 == k ==> key_pos(m.push(x), k) == m.len(),
        key_pos(m, k) == m.len() && x.0 != k ==> key_pos(m.push(x), k) == m.len() + 1,
    decreases m.len(),
{
    if m.len() > 0 && m[0].0 != k {
        assert(m.push(x).drop_first() =~= m.drop_first().push(x));
        lemma_key_pos_push(m.drop_first(), x, k);
    } else if m.len() == 0 {
        assert(m.push(x).drop_first() =~= m);
    }
}

/// Replacing the value of an entry, under the same key, moves no key.
pub proof fn lemma_key_pos_update<V>(m: Seq<(Seq<char>, V)>, j: int, v: V, k: Seq<char>)
    requires
        0 <= j < m.len(),
    ensures
        key_pos(m.update(j, (m[j].0, v)), k) == key_pos(m, k),
    decreases m.len(),
{
    if m.len() > 0 && m[0].0 != k {
        if j > 0 {
            assert(m.update(j, (m[j].0, v)).drop_first() =~= m.drop_first().update(j - 1, (m[j].0, v)));
            lemma_key_pos_update(m.drop_first(), j - 1, v, k);
        } else {
            assert(m.update(j, (m[j].0, v)).drop_first() =~= m.drop_first());
        }
    }
}

/// Every key of `i` is found in `m`, and where both values are objects,
/// merging the incoming one changes nothing.
spec fn absorbs(m: Seq<(Seq<char>, Json)>, i: Seq<(Seq<char>, Json)>) -> bool {
    forall|t: int|
        0 <= t < i.len() ==> {
            let j = #[trigger] key_pos(m, i[t].0);
            &&& j < m.len()
            &&& (m[j as int].1 is Object && i[t].1 is Object ==> merge(m[j as int].1, i[t].1) == m[j as int].1)
        }
}

/// Merging entries that are absorbed already changes nothing.
proof fn lemma_merge_absorbed(m: Seq<(Seq<char>, Json)>, i: Seq<(Seq<char>, Json)>)
    requires
        absorbs(m, i),
    ensures
        merge_entries(m, i) == m,
    decreases i.len(),
{
    if i.len() > 0 {
        let init = i.drop_last();
        assert forall|t: int| 0 <= t < init.len() implies {
            let j = #[trigger] key_pos(m, init[t].0);
            &&& j < m.len()
            &&& (m[j as int].1 is Object && init[t].1 is Object ==> merge(m[j as int].1, init[t].1) == m[j as int].1)
        } by {
            assert(init[t] == i[t]);
            assert(key_pos(m, i[t].0) < m.len());
        }
        lemma_merge_absorbed(m, init);
        let last = i.len() - 1;
        let j = key_pos(m, i[last].0);
        assert(j < m.len());
        if m[j as int].1 is Object && i[last].1 is Object {
            assert(m.update(j as int, (m[j as int].0, merge(m[j as int].1, i[last].1))) =~= m);
        }
    }
}

/// After merging the first `n` entries of a valid object, the result absorbs them.
proof fn lemma_merge_absorbs_prefix(em: Seq<(Seq<char>, Json)>, i: Json, n: int)
    requires
        i is Object,
        json_wf(i),
        0 <= n <= i->Object_0.len(),
    ensures
        absorbs(merge_entries(em, i->Object_0.take(n)), i->Object_0.take(n)),
    decreases i, 0int, n,
{
    let im = i->Object_0;
    let cur = im.take(n);
    if n == 0 {
        assert(cur.len() == 0);
    } else {
        let p = n - 1;
        lemma_merge_absorbs_prefix(em, i, p);
        let prev = im.take(p);
        assert(cur.drop_last() =~= prev);
        assert(cur[p] == im[p]);
        let acc = merge_entries(em, prev);
        let k = im[p].0;
        let iv = im[p].1;
        let j = key_pos(acc, k);
        lemma_key_pos(acc, k);
        let res = merge_entries(em, cur);
        assert(decreases_to!(i => i->Object_0));
        assert(decreases_to!(i => i->Object_0[p]));
        assert(decreases_to!(i => i->Object_0[p].1));
        assert(json_wf(iv));
        assert forall|t: int| 0 <= t < cur.len() implies {
            let jt = #[trigger] key_pos(res, cur[t].0);
            &&& jt < res.len()
            &&& (res[jt as int].1 is Object && cur[t].1 is Object ==> merge(res[jt as int].1, cur[t].1) == res[jt as int].1)
        } by {
            assert(cur[t] == im[t]);
            let kt = im[t].0;
            if t < p {
                assert(prev[t] == im[t]);
                assert(key_pos(acc, prev[t].0) < acc.len());
                assert(kt != k);
                let jt = key_pos(acc, kt);
                lemma_key_pos(acc, kt);
                if j < acc.len() {
                    if acc[j as int].1 is Object && iv is Object {
                        lemma_key_pos_update(acc, j as int, merge(acc[j as int].1, iv), kt);
                        assert(jt != j);
                    }
                } else {
                    lemma_key_pos_push(acc, (k, skeleton(iv)), kt);
                }
            } else {
                assert(t == p);
                if j < acc.len() {
                    if acc[j as int].1 is Object && iv is Object {
                        let a = acc[j as int].1;
                        lemma_key_pos_update(acc, j as int, merge(a, iv), k);
                        law_merge_idempotent(a, iv);
                    }
                } else {
                    lemma_key_pos_push(acc, (k, skeleton(iv)), k);
                    if iv is Object {
                        law_merge_into_own_skeleton(iv);
                    }
                }
            }
        }
    }
}

/// Merging the same valid value twice is merging it once: a response recorded
/// again adds nothing, since only keys not seen before are added. (Validity
/// matters: with a key twice in one object, as in `{"x": {"a": {"b": 1},
/// "a": {"c": 1}}}` merged into `{}`, the second merge adds `c` under the
/// first `a`.)
pub proof fn law_merge_idempotent(e: Json, i: Json)
    requires
        json_wf(i),
    ensures
        merge(merge(e, i), i) == merge(e, i),
    decreases i, 1int, 0int,
{
    if let Json::Object(em) = e {
        if let Json::Object(im) = i {
            lemma_merge_absorbs_prefix(em, i, im.len() as int);
            assert(im.take(im.len() as int) =~= im);
            lemma_merge_absorbed(merge_entries(em, im), im);
        }
    }
}

/// Replaying the skeleton of a valid value onto that value changes nothing: a
/// freshly recorded patch, whose leaves are all markers, overrides nothing.
pub proof fn law_fresh_skeleton_overrides_nothing(v: Json)
    requires
        json_wf(v),
    ensures
        apply_patch(skeleton(v), v) == v,
    decreases v, 1int, 0int,
{
    if let Json::Object(m) = v {
        let s = skeleton_entries(m);
        lemma_fresh_skeleton_prefix(v, m.len() as int);
        assert(s.take(m.len() as int) =~= s);
    }
}

proof fn lemma_fresh_skeleton_prefix(v: Json, n: int)
    requires
        v is Object,
        json_wf(v),
        0 <= n <= v->Object_0.len(),
    ensures
        override_entries(skeleton_entries(v->Object_0).take(n), v->Object_0) == v->Object_0,
    decreases v, 0int, n,
{
    let m = v->Object_0;
    let s = skeleton_entries(m);
    if n == 0 {
        assert(s.take(0) =~= Seq::<(Seq<char>, Json)>::empty());
    } else {
        let p = n - 1;
        lemma_fresh_skeleton_prefix(v, p);
        assert(s.take(n).drop_last() =~= s.take(p));
        assert(s.take(n)[p] == s[p]);
        if s[p].1 != not_modified() {
            assert(m[p].1 is Object);
            lemma_key_pos_unique(m, p);
            assert(decreases_to!(v => v->Object_0));
            assert(decreases_to!(v => v->Object_0[p]));
            assert(decreases_to!(v => v->Object_0[p].1));
            assert(json_wf(m[p].1));
            law_fresh_skeleton_overrides_nothing(m[p].1);
            assert(m.update(p, (m[p].0, m[p].1)) =~= m);
        }
    }
}

/// The value under key `k` in the entries `m` (the first entry with that
/// key), if any.
pub open spec fn lookup<V>(m: Seq<(Seq<char>, V)>, k: Seq<char>) -> Option<V> {
    if key_pos(m, k) < m.len() {
        Some(m[key_pos(m, k) as int].1)
    } else {
        None
    }
}

/// Setting a key makes a lookup of that key give the value set, and leaves
/// lookups of every other key as they were.
pub proof fn lemma_lookup_obj_insert<V>(m: Seq<(Seq<char>, V)>, k2: Seq<char>, v: V, k: Seq<char>)
    ensures
        lookup(obj_insert(m, k2, v), k) == if k == k2 {
            Some(v)
        } else {
            lookup(m, k)
        },
{
    let j = key_pos(m, k2);
    lemma_key_pos(m, k2);
    lemma_key_pos(m, k);
    if j < m.len() {
        lemma_key_pos_update(m, j as int, v, k);
        assert(m.update(j as int, (k2, v)) == m.update(j as int, (m[j as int].0, v)));
    } else {
        lemma_key_pos_push(m, (k2, v), k);
    }
}

/// Replaying patch entries appended to others is replaying the first ones,
/// then the others on the result.
proof fn lemma_override_append(a: Seq<(Seq<char>, Json)>, b: Seq<(Seq<char>, Json)>, t: Seq<(Seq<char>, Json)>)
    ensures
        override_entries(a + b, t) == override_entries(b, override_entries(a, t)),
    decreases b.len(),
{
    if b.len() == 0 {
        assert(a + b =~= a);
    } else {
        assert((a + b).drop_last() =~= a + b.drop_last());
        assert((a + b)[(a + b).len() - 1] == b[b.len() - 1]);
        lemma_override_append(a, b.drop_last(), t);
    }
}

/// Patch entries that never override key `k` (another key, or the marker)
/// leave its lookup as it was.
proof fn lemma_override_untouched(p: Seq<(Seq<char>, Json)>, t: Seq<(Seq<char>, Json)>, k: Seq<char>)
    requires
        forall|j: int| 0 <= j < p.len() && #[trigger] p[j].0 == k ==> p[j].1 == not_modified(),
    ensures
        lookup(override_entries(p, t), k) == lookup(t, k),
    decreases p.len(),
{
    if p.len() > 0 {
        let init = p.drop_last();
        assert forall|j: int| 0 <= j < init.len() && #[trigger] init[j].0 == k implies init[j].1 == not_modified() by {
            assert(init[j] == p[j]);
        }
        lemma_override_untouched(init, t, k);
        let acc = override_entries(init, t);
        let last = p[p.len() - 1];
        if last.1 != not_modified() {
            assert(last.0 != k);
            if last.1 is Object {
                let j = key_pos(acc, last.0);
                let child = if j < acc.len() {
                    acc[j as int].1
                } else {
                    Json::Object(Seq::empty())
                };
                lemma_lookup_obj_insert(acc, last.0, apply_patch(last.1, child), k);
            } else {
                lemma_lookup_obj_insert(acc, last.0, last.1, k);
            }
        }
    }
}

/// Replaying a patch onto an object writes each override of the patch: the
/// key of an entry that is not the marker then holds the entry's value, or,
/// for an object entry, that object replayed onto what the key held (an
/// empty object when it held nothing). The overrides a developer writes are
/// what the request carries.
pub proof fn law_override_written(p: Seq<(Seq<char>, Json)>, t: Seq<(Seq<char>, Json)>, i: int)
    requires
        keys_unique(p),
        0 <= i < p.len(),
        p[i].1 != not_modified(),
    ensures
        apply_patch(Json::Object(p), Json::Object(t)) is Object,
        lookup(apply_patch(Json::Object(p), Json::Object(t))->Object_0, p[i].0) == Some(
            if p[i].1 is Object {
                apply_patch(
                    p[i].1,
                    match lookup(t, p[i].0) {
                        Some(c) => c,
                        None => Json::Object(Seq::empty()),
                    },
                )
            } else {
                p[i].1
            },
        ),
{
    let k = p[i].0;
    let a = p.take(i);
    let c = p.take(i + 1);
    let b = p.skip(i + 1);
    assert(p =~= c + b);
    lemma_override_append(c, b, t);
    assert(c.drop_last() =~= a);
    assert(c[i] == p[i]);
    assert forall|j: int| 0 <= j < a.len() && #[trigger] a[j].0 == k implies a[j].1 == not_modified() by {
        assert(a[j] == p[j]);
    }
    lemma_override_untouched(a, t, k);
    let acc = override_entries(a, t);
    lemma_key_pos(acc, k);
    let written = if p[i].1 is Object {
        let j = key_pos(acc, k);
        let child = if j < acc.len() {
            acc[j as int].1
        } else {
            Json::Object(Seq::empty())
        };
        apply_patch(p[i].1, child)
    } else {
        p[i].1
    };
    lemma_lookup_obj_insert(acc, k, written, k);
    assert forall|j: int| 0 <= j < b.len() && #[trigger] b[j].0 == k implies b[j].1 == not_modified() by {
        assert(b[j] == p[i + 1 + j]);
    }
    lemma_override_untouched(b, override_entries(c, t), k);
}

/// A key that the patch leaves to the marker (or does not name) keeps its
/// value.
pub proof fn law_marker_keeps_value(p: Seq<(Seq<char>, Json)>, t: Seq<(Seq<char>, Json)>, k: Seq<char>)
    requires
        forall|j: int| 0 <= j < p.len() && #[trigger] p[j].0 == k ==> p[j].1 == not_modified(),
    ensures
        apply_patch(Json::Object(p), Json::Object(t)) is Object,
        lookup(apply_patch(Json::Object(p), Json::Object(t))->Object_0, k) == lookup(t, k),
{
    lemma_override_untouched(p, t, k);
}

/// Every override of the patch entries `q` is already in `r`: a value entry
/// is the value under its key, and an object entry changes nothing when
/// replayed onto the value under its key.
spec fn reflects(r: Seq<(Seq<char>, Json)>, q: Seq<(Seq<char>, Json)>) -> bool {
    forall|j: int|
        #![trigger q[j]]
        0 <= j < q.len() && q[j].1 != not_modified() ==> match lookup(r, q[j].0) {
            Some(x) => if q[j].1 is Object {
                apply_patch(q[j].1, x) == x
            } else {
                x == q[j].1
            },
            None => false,
        }
}

/// Replaying entries whose overrides are already in place changes nothing.
proof fn lemma_override_reflected(q: Seq<(Seq<char>, Json)>, r: Seq<(Seq<char>, Json)>)
    requires
        reflects(r, q),
    ensures
        override_entries(q, r) == r,
    decreases q.len(),
{
    if q.len() > 0 {
        let init = q.drop_last();
        assert forall|j: int| #![trigger init[j]] 0 <= j < init.len() && init[j].1 != not_modified() implies match lookup(r, init[j].0) {
            Some(x) => if init[j].1 is Object {
                apply_patch(init[j].1, x) == x
            } else {
                x == init[j].1
            },
            None => false,
        } by {
            assert(init[j] == q[j]);
        }
        lemma_override_reflected(init, r);
        let last = q.len() - 1;
        let k = q[last].0;
        let pv = q[last].1;
        if pv != not_modified() {
            assert(q[last] == q[last]);
            let j = key_pos(r, k);
            lemma_key_pos(r, k);
            assert(j < r.len());
            assert(r.update(j as int, (k, r[j as int].1)) =~= r);
        }
    }
}

/// Replaying the same valid patch twice is replaying it once: every override
/// is already in place the second time.
pub proof fn law_override_idempotent(p: Json, t: Json)
    requires
        json_wf(p),
    ensures
        apply_patch(p, apply_patch(p, t)) == apply_patch(p, t),
    decreases p,
{
    if let Json::Object(pm) = p {
        let base = match t {
            Json::Object(tm) => tm,
            _ => Seq::empty(),
        };
        let r = override_entries(pm, base);
        assert(apply_patch(p, t) == Json::Object(r));
        assert(apply_patch(p, Json::Object(base)) == Json::Object(r));
        assert forall|j: int| #![trigger pm[j]] 0 <= j < pm.len() && pm[j].1 != not_modified() implies match lookup(r, pm[j].0) {
            Some(x) => if pm[j].1 is Object {
                apply_patch(pm[j].1, x) == x
            } else {
                x == pm[j].1
            },
            None => false,
        } by {
            law_override_written(pm, base, j);
            if pm[j].1 is Object {
                let c = match lookup(base, pm[j].0) {
                    Some(c) => c,
                    None => Json::Object(Seq::empty()),
                };
                assert(decreases_to!(p => p->Object_0));
                assert(decreases_to!(p => p->Object_0[j]));
                assert(decreases_to!(p => p->Object_0[j].1));
                assert(json_wf(pm[j].1));
                law_override_idempotent(pm[j].1, c);
            }
        }
        lemma_override_reflected(pm, r);
    }
}

/// Setting a key in a valid object, to a valid value, keeps it valid.
pub proof fn lemma_obj_insert_wf(m: Seq<(Seq<char>, Json)>, k: Seq<char>, v: Json)
    requires
        json_wf(Json::Object(m)),
        json_wf(v),
    ensures
        json_wf(Json::Object(obj_insert(m, k, v))),
{
    let j = key_pos(m, k);
    lemma_key_pos(m, k);
    let r = obj_insert(m, k, v);
    assert forall|a: int, b: int| 0 <= a < b < r.len() implies r[a].0 != r[b].0 by {
        if j == m.len() && b == m.len() {
            assert(r[a] == m[a]);
        } else {
            assert(r[a].0 == m[a].0 && r[b].0 == m[b].0);
        }
    }
    assert forall|a: int| 0 <= a < r.len() implies json_wf(#[trigger] r[a].1) by {
        if r[a].1 != v {
            assert(r[a] == m[a]);
        }
    }
}

/// The skeleton of a valid value is valid.
pub proof fn lemma_skeleton_wf(v: Json)
    requires
        json_wf(v),
    ensures
        json_wf(skeleton(v)),
    decreases v,
{
    if let Json::Object(m) = v {
        let s = skeleton_entries(m);
        assert forall|a: int, b: int| 0 <= a < b < s.len() implies s[a].0 != s[b].0 by {
            assert(s[a].0 == m[a].0 && s[b].0 == m[b].0);
        }
        assert forall|a: int| 0 <= a < s.len() implies json_wf(#[trigger] s[a].1) by {
            assert(decreases_to!(v => v->Object_0));
            assert(decreases_to!(v => v->Object_0[a]));
            assert(decreases_to!(v => v->Object_0[a].1));
            lemma_skeleton_wf(m[a].1);
        }
    }
}

/// Merging a valid value into a valid value gives a valid value.
pub proof fn lemma_merge_wf(e: Json, i: Json)
    requires
        json_wf(e),
        json_wf(i),
    ensures
        json_wf(merge(e, i)),
    decreases i,
{
    if let Json::Object(em) = e {
        if let Json::Object(im) = i {
            assert(decreases_to!(i => i->Object_0));
            lemma_merge_entries_wf(em, im);
        }
    }
}

proof fn lemma_merge_entries_wf(em: Seq<(Seq<char>, Json)>, im: Seq<(Seq<char>, Json)>)
    requires
        json_wf(Json::Object(em)),
        json_wf(Json::Object(im)),
    ensures
        json_wf(Json::Object(merge_entries(em, im))),
    decreases im,
{
    if im.len() > 0 {
        let init = im.drop_last();
        assert(decreases_to!(im => init));
        assert(json_wf(Json::Object(init))) by {
            assert forall|a: int| 0 <= a < init.len() implies json_wf(#[trigger] init[a].1) by {
                assert(init[a] == im[a]);
            }
        }
        lemma_merge_entries_wf(em, init);
        let acc = merge_entries(em, init);
        let k = im[im.len() - 1].0;
        let iv = im[im.len() - 1].1;
        assert(json_wf(iv));
        let j = key_pos(acc, k);
        lemma_key_pos(acc, k);
        if j < acc.len() {
            if acc[j as int].1 is Object && iv is Object {
                assert(decreases_to!(im => im[im.len() - 1]));
                assert(decreases_to!(im => im[im.len() - 1].1));
                lemma_merge_wf(acc[j as int].1, iv);
                lemma_obj_insert_wf(acc, acc[j as int].0, merge(acc[j as int].1, iv));
                assert(obj_insert(acc, acc[j as int].0, merge(acc[j as int].1, iv)) == acc.update(
                    j as int,
                    (acc[j as int].0, merge(acc[j as int].1, iv)),
                ));
            }
        } else {
            lemma_skeleton_wf(iv);
            lemma_obj_insert_wf(acc, k, skeleton(iv));
        }
    }
}

/// Replaying a valid patch onto a valid value gives a valid value.
pub proof fn lemma_apply_patch_wf(p: Json, t: Json)
    requires
        json_wf(p),
        json_wf(t),
    ensures
        json_wf(apply_patch(p, t)),
    decreases p,
{
    if let Json::Object(pm) = p {
        let base = match t {
            Json::Object(tm) => tm,
            _ => Seq::empty(),
        };
        assert(decreases_to!(p => p->Object_0));
        lemma_override_entries_wf(pm, base);
    }
}

proof fn lemma_override_entries_wf(pm: Seq<(Seq<char>, Json)>, base: Seq<(Seq<char>, Json)>)
    requires
        json_wf(Json::Object(pm)),
        json_wf(Json::Object(base)),
    ensures
        json_wf(Json::Object(override_entries(pm, base))),
    decreases pm,
{
    if pm.len() > 0 {
        let init = pm.drop_last();
        assert(decreases_to!(pm => init));
        assert(json_wf(Json::Object(init))) by {
            assert forall|a: int| 0 <= a < init.len() implies json_wf(#[trigger] init[a].1) by {
                assert(init[a] == pm[a]);
            }
        }
        lemma_override_entries_wf(init, base);
        let acc = override_entries(init, base);
        let k = pm[pm.len() - 1].0;
        let pv = pm[pm.len() - 1].1;
        assert(json_wf(pv));
        if pv != not_modified() {
            if pv is Object {
                let j = key_pos(acc, k);
                let child = if j < acc.len() {
                    acc[j as int].1
                } else {
                    Json::Object(Seq::empty())
                };
                assert(decreases_to!(pm => pm[pm.len() - 1]));
                assert(decreases_to!(pm => pm[pm.len() - 1].1));
                lemma_apply_patch_wf(pv, child);
                lemma_obj_insert_wf(acc, k, apply_patch(pv, child));
            } else {
                lemma_obj_insert_wf(acc, k, pv);
            }
        }
    }
}

/// `serde_json::Value`, a parsed JSON value.
#[verifier::external_type_specification]
#[verifier::external_body]
pub struct ExSerdeJsonValue(serde_json::Value);

/// The JSON value that `serde_json::from_str` reads from a text, as this
/// crate's value; `None` when the text is no JSON.
pub uninterp spec fn json_text(text: Seq<char>) -> Option<Json>;

/// A `serde_json` value as this crate's value, node for node (a number by its
/// text; an object's entries in the order of its map).
#[verifier::external_body]
fn value_to_json(v: &serde_json::Value) -> JsonValue {
    match v {
        serde_json::Value::Null => JsonValue::Null,
        serde_json::Value::Bool(b) => JsonValue::Bool(*b),
        serde_json::Value::Number(n) => JsonValue::Number(n.to_string()),
        serde_json::Value::String(t) => JsonValue::Str(t.clone()),
        serde_json::Value::Array(a) => JsonValue::Array(a.iter().map(|x| value_to_json(x)).collect()),
        serde_json::Value::Object(m) => JsonValue::Object(m.iter().map(|(k, x)| (k.clone(), value_to_json(x))).collect()),
    }
}

/// Calls `serde_json::from_str::<serde_json::Value>` and converts the value
/// (`value_to_json`). Claimed: the result is `json_text` of the text (the
/// parse depends on the text alone; objects are kept in a sorted map, whose
/// keys are unique, so the value is valid).
#[verifier::external_body]
pub(crate) fn parse_json(text: &str) -> (r: Option<JsonValue>)
    ensures
        match r {
            Some(v) => json_text(text@) == Some(v@) && json_wf(v@),
            None => json_text(text@) is None,
        },
{
    match serde_json::from_str::<serde_json::Value>(text) {
        Ok(v) => Some(value_to_json(&v)),
        Err(_) => None,
    }
}

} // verus!

//! The request-patch store: for each URL, the skeleton of the requests sent to
//! it and of the responses received, in which a developer may replace markers
//! with values that are then written into later requests.
use vstd::prelude::*;
use crate::json::{JsonValue, find_key, json_clone, merge_skeleton, to_skeleton, apply_overrides};
use crate::json;
use crate::request::RequestMethod;

verus! {

/// The patches, one entry per URL.
pub struct Patches {
    pub entries: Vec<(String, JsonValue)>,
}

impl View for Patches {
    type V = Seq<(Seq<char>, json::Json)>;

    open spec fn view(&self) -> Seq<(Seq<char>, json::Json)> {
        json::entries_view(self.entries@)
    }
}

/// A list of name and value pairs (headers, query parameters), viewed.
pub open spec fn pairs_view(v: Seq<(String, String)>) -> Seq<(Seq<char>, Seq<char>)> {
    Seq::new(v.len(), |i: int| (v[i].0@, v[i].1@))
}

/// An optional JSON value, viewed.
pub open spec fn opt_json(v: Option<JsonValue>) -> Option<json::Json> {
    match v {
        Some(x) => Some(x@),
        None => None,
    }
}

/// An optional list of pairs, viewed.
pub open spec fn opt_pairs(v: Option<Vec<(String, String)>>) -> Option<Seq<(Seq<char>, Seq<char>)>> {
    match v {
        Some(x) => Some(pairs_view(x@)),
        None => None,
    }
}

/// The empty object.
pub open spec fn empty_object() -> json::Json {
    json::Json::Object(Seq::empty())
}

/// A list of pairs as a JSON object of strings.
pub open spec fn pairs_json(p: Seq<(Seq<char>, Seq<char>)>) -> json::Json {
    json::Json::Object(Seq::new(p.len(), |i: int| (p[i].0, json::Json::Str(p[i].1))))
}

/// The value under key `k` of an object, if it has one.
pub open spec fn json_get(v: json::Json, k: Seq<char>) -> Option<json::Json> {
    match v {
        json::Json::Object(m) => if json::key_pos(m, k) < m.len() {
            Some(m[json::key_pos(m, k) as int].1)
        } else {
            None
        },
        _ => None,
    }
}

/// `v` with the value under its key `k` replaced, when it has that key.
pub open spec fn json_set(v: json::Json, k: Seq<char>, new: json::Json) -> json::Json {
    match v {
        json::Json::Object(m) => if json::key_pos(m, k) < m.len() {
            json::Json::Object(m.update(json::key_pos(m, k) as int, (m[json::key_pos(m, k) as int].0, new)))
        } else {
            v
        },
        _ => v,
    }
}

/// The patches without the entry for `k`.
pub open spec fn patches_remove(m: Seq<(Seq<char>, json::Json)>, k: Seq<char>) -> Seq<(Seq<char>, json::Json)> {
    if json::key_pos(m, k) < m.len() {
        m.remove(json::key_pos(m, k) as int)
    } else {
        m
    }
}

/// The description of a request, as recorded in the patch file.
pub open spec fn request_record(
    body: Option<json::Json>,
    headers: Option<Seq<(Seq<char>, Seq<char>)>>,
    parameters: Option<Seq<(Seq<char>, Seq<char>)>>,
    method: RequestMethod,
    is_image: bool,
    return_url: bool,
    parse_html: Option<bool>,
) -> json::Json {
    json::Json::Object(
        seq![
            ("body"@, match body { Some(b) => b, None => empty_object() }),
            ("headers"@, pairs_json(match headers { Some(h) => h, None => Seq::empty() })),
            ("parameters"@, pairs_json(match parameters { Some(p) => p, None => Seq::empty() })),
            ("method"@, json::Json::Str(method.name())),
            ("is_image"@, json::Json::Bool(is_image)),
            ("return_url"@, json::Json::Bool(return_url)),
            ("parse_html"@, json::Json::Bool(match parse_html { Some(b) => b, None => false })),
        ],
    )
}

/// The entry recorded for a URL seen for the first time.
pub open spec fn fresh_entry(incoming: json::Json) -> json::Json {
    json::Json::Object(seq![("request"@, json::skeleton(incoming)), ("response"@, empty_object())])
}

/// The entry for `url` once the request `incoming` is registered: the
/// existing entry (or a fresh one), with the keys of `incoming` merged into its
/// request section.
pub open spec fn registered_entry(patches: Seq<(Seq<char>, json::Json)>, url: Seq<char>, incoming: json::Json) -> json::Json {
    let e = if json::key_pos(patches, url) < patches.len() {
        patches[json::key_pos(patches, url) as int].1
    } else {
        fresh_entry(incoming)
    };
    match json_get(e, "request"@) {
        Some(r) => json_set(e, "request"@, json::merge(r, incoming)),
        None => e,
    }
}

/// The patches once the request `incoming` to `url` is registered.
pub open spec fn register_request(patches: Seq<(Seq<char>, json::Json)>, url: Seq<char>, incoming: json::Json) -> Seq<(Seq<char>, json::Json)> {
    json::obj_insert(patches, url, registered_entry(patches, url, incoming))
}

/// The body to send: when the request section overrides the body (its body
/// entry is not the marker), the overrides replayed onto the body given (or an
/// empty object); otherwise the body given.
pub open spec fn patched_body(request: Option<json::Json>, body: Option<json::Json>) -> Option<json::Json> {
    match request {
        Some(r) => match json_get(r, "body"@) {
            Some(bp) => if bp != json::not_modified() {
                Some(json::apply_patch(bp, match body { Some(b) => b, None => empty_object() }))
            } else {
                body
            },
            None => body,
        },
        None => body,
    }
}

/// The pairs `h` after writing each string entry of `hp` that is not the
/// marker, in order.
pub open spec fn override_pairs(h: Seq<(Seq<char>, Seq<char>)>, hp: Seq<(Seq<char>, json::Json)>) -> Seq<(Seq<char>, Seq<char>)>
    decreases hp.len(),
{
    if hp.len() == 0 {
        h
    } else {
        let acc = override_pairs(h, hp.drop_last());
        let e = hp[hp.len() - 1];
        if e.1 != json::not_modified() && e.1 is Str {
            json::obj_insert(acc, e.0, e.1->Str_0)
        } else {
            acc
        }
    }
}

/// The headers (or parameters, under `field`) to send: when the request
/// section holds an object under `field`, its string overrides written onto
/// the pairs given (or none); otherwise the pairs given.
pub open spec fn patched_pairs(
    request: Option<json::Json>,
    field: Seq<char>,
    pairs: Option<Seq<(Seq<char>, Seq<char>)>>,
) -> Option<Seq<(Seq<char>, Seq<char>)>> {
    match request {
        Some(r) => match json_get(r, field) {
            Some(json::Json::Object(hp)) => Some(override_pairs(match pairs { Some(p) => p, None => Seq::empty() }, hp)),
            _ => pairs,
        },
        None => pairs,
    }
}

/// The patches once the response `response` from `url` is recorded: when the
/// entry for `url` has a response section, the keys of `response` are merged
/// into it; otherwise nothing changes.
pub open spec fn record_response(patches: Seq<(Seq<char>, json::Json)>, url: Seq<char>, response: json::Json) -> Seq<(Seq<char>, json::Json)> {
    if json::key_pos(patches, url) < patches.len() {
        let e = patches[json::key_pos(patches, url) as int].1;
        match json_get(e, "response"@) {
            Some(r) => patches.update(
                json::key_pos(patches, url) as int,
                (patches[json::key_pos(patches, url) as int].0, json_set(e, "response"@, json::merge(r, response))),
            ),
            None => patches,
        }
    } else {
        patches
    }
}

/// The value under key `k` of `v`, if `v` is an object with that key.
pub fn json_get_ref<'a>(v: &'a JsonValue, k: &str) -> (r: Option<&'a JsonValue>)
    ensures
        match r {
            Some(x) => json_get(v@, k@) == Some(x@),
            None => json_get(v@, k@) is None,
        },
{
    match v {
        JsonValue::Object(m) => {
            let j = find_key(m, k);
            if j < m.len() {
                Some(&m[j].1)
            } else {
                None
            }
        },
        _ => None,
    }
}

/// Merges `incoming` into the value under key `k` of `v`, when `v` is an
/// object with that key.
fn merge_under(v: JsonValue, k: &str, incoming: &JsonValue) -> (r: JsonValue)
    ensures
        r@ == match json_get(v@, k@) {
            Some(x) => json_set(v@, k@, json::merge(x, incoming@)),
            None => v@,
        },
{
    match v {
        JsonValue::Object(m0) => {
            let mut m = m0;
            let j = find_key(&m, k);
            if j < m.len() {
                let ghost before = json::entries_view(m@);
                let (key, mut child) = m.remove(j);
                merge_skeleton(&mut child, incoming);
                m.insert(j, (key, child));
                assert(json::entries_view(m@) =~= before.update(
                    j as int,
                    (before[j as int].0, json::merge(before[j as int].1, incoming@)),
                ));
            }
            JsonValue::Object(m)
        },
        other => other,
    }
}

/// Valid patches: no URL twice, and every entry a valid JSON value.
pub open spec fn patches_wf(m: Seq<(Seq<char>, json::Json)>) -> bool {
    json::json_wf(json::Json::Object(m))
}

/// Replacing the value under a key of a valid value, by a valid value, keeps
/// it valid.
proof fn lemma_json_set_wf(v: json::Json, k: Seq<char>, new: json::Json)
    requires
        json::json_wf(v),
        json::json_wf(new),
    ensures
        json::json_wf(json_set(v, k, new)),
{
    if let json::Json::Object(m) = v {
        json::lemma_key_pos(m, k);
        if json::key_pos(m, k) < m.len() {
            json::lemma_obj_insert_wf(m, k, new);
        }
    }
}

/// The entry registered for a request is valid when the patches and the
/// request are.
proof fn lemma_registered_entry_wf(patches: Seq<(Seq<char>, json::Json)>, url: Seq<char>, incoming: json::Json)
    requires
        patches_wf(patches),
        json::json_wf(incoming),
    ensures
        json::json_wf(registered_entry(patches, url, incoming)),
{
    reveal_strlit("request");
    reveal_strlit("response");
    json::lemma_key_pos(patches, url);
    let e = if json::key_pos(patches, url) < patches.len() {
        patches[json::key_pos(patches, url) as int].1
    } else {
        fresh_entry(incoming)
    };
    json::lemma_skeleton_wf(incoming);
    assert(json::json_wf(e)) by {
        if json::key_pos(patches, url) == patches.len() {
            let fm = fresh_entry(incoming)->Object_0;
            assert(fm[0].0 == "request"@ && fm[1].0 == "response"@);
            assert(fm[0].0.len() != fm[1].0.len());
            assert(json::json_wf(fm[1].1));
        }
    }
    if let Some(r) = json_get(e, "request"@) {
        json::lemma_key_pos(e->Object_0, "request"@);
        json::lemma_merge_wf(r, incoming);
        lemma_json_set_wf(e, "request"@, json::merge(r, incoming));
    }
}

/// Replacing a key in pairs, or adding it, keeps the names unique.
proof fn lemma_pairs_unique_obj_insert(m: Seq<(Seq<char>, Seq<char>)>, k: Seq<char>, v: Seq<char>)
    requires
        pairs_unique(m),
    ensures
        pairs_unique(json::obj_insert(m, k, v)),
{
    json::lemma_key_pos(m, k);
    let j = json::key_pos(m, k);
    let r = json::obj_insert(m, k, v);
    assert forall|a: int, b: int| 0 <= a < b < r.len() implies r[a].0 != r[b].0 by {
        if j == m.len() && b == m.len() {
            assert(r[a] == m[a]);
        } else {
            assert(r[a].0 == m[a].0 && r[b].0 == m[b].0);
        }
    }
}

/// Overrides written onto pairs with unique names keep them unique.
proof fn lemma_override_pairs_unique(h: Seq<(Seq<char>, Seq<char>)>, hp: Seq<(Seq<char>, json::Json)>)
    requires
        pairs_unique(h),
    ensures
        pairs_unique(override_pairs(h, hp)),
    decreases hp.len(),
{
    if hp.len() > 0 {
        lemma_override_pairs_unique(h, hp.drop_last());
        let e = hp[hp.len() - 1];
        if e.1 != json::not_modified() && e.1 is Str {
            lemma_pairs_unique_obj_insert(override_pairs(h, hp.drop_last()), e.0, e.1->Str_0);
        }
    }
}

/// The pairs to send have unique names when the pairs given do.
proof fn lemma_patched_pairs_unique(
    request: Option<json::Json>,
    field: Seq<char>,
    pairs: Option<Seq<(Seq<char>, Seq<char>)>>,
)
    requires
        pairs_unique(match pairs { Some(p) => p, None => Seq::empty() }),
    ensures
        pairs_unique(match patched_pairs(request, field, pairs) { Some(p) => p, None => Seq::empty() }),
{
    if let Some(r) = request {
        if let Some(json::Json::Object(hp)) = json_get(r, field) {
            lemma_override_pairs_unique(match pairs { Some(p) => p, None => Seq::empty() }, hp);
        }
    }
}

impl Patches {
    /// No patches.
    pub fn new() -> (r: Self)
        ensures
            r@ == Seq::<(Seq<char>, json::Json)>::empty(),
    {
        let r = Patches { entries: Vec::new() };
        assert(r@ =~= Seq::<(Seq<char>, json::Json)>::empty());
        r
    }
}

/// Reads the text of the patch file: the entries of its object, or none when
/// the text is no JSON object.
pub fn patches_from_text(contents: &str) -> (r: Option<Patches>)
    ensures
        match json::json_text(contents@) {
            Some(json::Json::Object(m)) => r matches Some(p) && p@ == m && patches_wf(p@),
            _ => r is None,
        },
{
    match json::parse_json(contents) {
        Some(JsonValue::Object(m)) => Some(Patches { entries: m }),
        _ => None,
    }
}

/// Removes the patch recorded for `request_id`.
pub fn remove_patch(patches: &mut Patches, request_id: &str)
    ensures
        final(patches)@ == patches_remove(old(patches)@, request_id@),
        patches_wf(old(patches)@) ==> patches_wf(final(patches)@) && json::key_pos(final(patches)@, request_id@)
            == final(patches)@.len(),
{
    proof {
        let m = old(patches)@;
        json::lemma_key_pos(m, request_id@);
        if patches_wf(m) {
            let r = patches_remove(m, request_id@);
            let j = json::key_pos(m, request_id@) as int;
            if j < m.len() {
                assert forall|a: int, b: int| 0 <= a < b < r.len() implies r[a].0 != r[b].0 by {
                    let a2 = if a < j { a } else { a + 1 };
                    let b2 = if b < j { b } else { b + 1 };
                    assert(r[a] == m[a2] && r[b] == m[b2]);
                }
                assert forall|a: int| 0 <= a < r.len() implies json::json_wf(#[trigger] r[a].1) by {
                    if a < j {
                        assert(r[a] == m[a]);
                    } else {
                        assert(r[a] == m[a + 1]);
                    }
                }
                json::lemma_key_pos(r, request_id@);
                if json::key_pos(r, request_id@) < r.len() {
                    let q = json::key_pos(r, request_id@) as int;
                    let q2 = if q < j { q } else { q + 1 };
                    assert(r[q] == m[q2]);
                }
            }
        }
    }
    let j = find_key(&patches.entries, request_id);
    if j < patches.entries.len() {
        let ghost before = patches@;
        patches.entries.remove(j);
        assert(patches@ =~= before.remove(j as int));
    }
}

/// Records `patch` for `patch_key`, replacing any patch recorded for it.
pub fn append_patch(patches: &mut Patches, patch_key: String, patch: JsonValue)
    ensures
        final(patches)@ == json::obj_insert(old(patches)@, patch_key@, patch@),
        patches_wf(old(patches)@) && json::json_wf(patch@) ==> patches_wf(final(patches)@),
{
    proof {
        if patches_wf(old(patches)@) && json::json_wf(patch@) {
            json::lemma_obj_insert_wf(old(patches)@, patch_key@, patch@);
        }
    }
    let j = find_key(&patches.entries, patch_key.as_str());
    let ghost before = patches@;
    let ghost k = patch_key@;
    let ghost pv = patch@;
    if j < patches.entries.len() {
        patches.entries.remove(j);
        patches.entries.insert(j, (patch_key, patch));
        assert(patches@ =~= before.update(j as int, (k, pv)));
    } else {
        patches.entries.push((patch_key, patch));
        assert(patches@ =~= before.push((k, pv)));
    }
}


/// The position of the first pair named `k`, or the number of pairs.
pub fn find_pair(m: &Vec<(String, String)>, k: &str) -> (r: usize)
    ensures
        r == json::key_pos(pairs_view(m@), k@),
        r <= m.len(),
{
    let ghost pv = pairs_view(m@);
    let key = k.to_owned();
    let mut i: usize = 0;
    assert(pv.skip(0) =~= pv);
    while i < m.len() && !(m[i].0 == key)
        invariant
            i <= m.len(),
            pv == pairs_view(m@),
            key@ == k@,
            json::key_pos(pv, k@) == i + json::key_pos(pv.skip(i as int), k@),
        decreases m.len() - i,
    {
        assert(pv.skip(i as int).drop_first() =~= pv.skip(i + 1));
        i = i + 1;
    }
    i
}

/// Sets the pair named `k` to `v`, where it stands, or adds it at the end.
pub fn insert_pair(m: &mut Vec<(String, String)>, k: String, v: String)
    ensures
        pairs_view(final(m)@) == json::obj_insert(pairs_view(old(m)@), k@, v@),
{
    let j = find_pair(m, k.as_str());
    let ghost before = pairs_view(m@);
    let ghost kv = (k@, v@);
    if j < m.len() {
        m.remove(j);
        m.insert(j, (k, v));
        assert(pairs_view(m@) =~= before.update(j as int, kv));
    } else {
        m.push((k, v));
        assert(pairs_view(m@) =~= before.push(kv));
    }
}

/// A list of pairs as a JSON object of strings.
pub fn pairs_to_json(p: &Vec<(String, String)>) -> (r: JsonValue)
    ensures
        r@ == pairs_json(pairs_view(p@)),
{
    let mut out: Vec<(String, JsonValue)> = Vec::new();
    let mut i: usize = 0;
    while i < p.len()
        invariant
            i <= p.len(),
            out.len() == i,
            forall|j: int| 0 <= j < i ==> (#[trigger] out@[j]).0@ == p@[j].0@ && out@[j].1@ == json::Json::Str(p@[j].1@),
        decreases p.len() - i,
    {
        out.push((p[i].0.clone(), JsonValue::Str(p[i].1.clone())));
        i = i + 1;
    }
    assert(json::entries_view(out@) =~= pairs_json(pairs_view(p@))->Object_0);
    JsonValue::Object(out)
}

/// The description of a request that the patch file records: its body,
/// headers, parameters, method and flags.
pub fn request_record_json(
    body: &Option<JsonValue>,
    headers: &Option<Vec<(String, String)>>,
    parameters: &Option<Vec<(String, String)>>,
    method: RequestMethod,
    is_image: bool,
    return_url: bool,
    parse_html: Option<bool>,
) -> (r: JsonValue)
    ensures
        json::json_wf(match opt_json(*body) { Some(b) => b, None => empty_object() })
            && pairs_unique(match opt_pairs(*headers) { Some(h) => h, None => Seq::empty() })
            && pairs_unique(match opt_pairs(*parameters) { Some(p) => p, None => Seq::empty() })
            ==> json::json_wf(r@),
        r@ == request_record(
            opt_json(*body),
            opt_pairs(*headers),
            opt_pairs(*parameters),
            method,
            is_image,
            return_url,
            parse_html,
        ),
{
    proof {
        if json::json_wf(match opt_json(*body) { Some(b) => b, None => empty_object() })
            && pairs_unique(match opt_pairs(*headers) { Some(h) => h, None => Seq::empty() })
            && pairs_unique(match opt_pairs(*parameters) { Some(p) => p, None => Seq::empty() }) {
            lemma_request_record_wf(
                opt_json(*body),
                opt_pairs(*headers),
                opt_pairs(*parameters),
                method,
                is_image,
                return_url,
                parse_html,
            );
        }
    }
    let b = match body {
        Some(b) => json_clone(b),
        None => {
            let e: Vec<(String, JsonValue)> = Vec::new();
            assert(json::entries_view(e@) =~= Seq::<(Seq<char>, json::Json)>::empty());
            JsonValue::Object(e)
        },
    };
    let empty: Vec<(String, String)> = Vec::new();
    assert(pairs_view(empty@) =~= Seq::<(Seq<char>, Seq<char>)>::empty());
    let h = match headers {
        Some(h) => pairs_to_json(h),
        None => pairs_to_json(&empty),
    };
    let q = match parameters {
        Some(q) => pairs_to_json(q),
        None => pairs_to_json(&empty),
    };
    let mut out: Vec<(String, JsonValue)> = Vec::new();
    out.push(("body".to_owned(), b));
    out.push(("headers".to_owned(), h));
    out.push(("parameters".to_owned(), q));
    out.push(("method".to_owned(), JsonValue::Str(method.as_str().to_owned())));
    out.push(("is_image".to_owned(), JsonValue::Bool(is_image)));
    out.push(("return_url".to_owned(), JsonValue::Bool(return_url)));
    out.push((
        "parse_html".to_owned(),
        JsonValue::Bool(
            match parse_html {
                Some(x) => x,
                None => false,
            },
        ),
    ));
    let r = JsonValue::Object(out);
    assert(b@ == match opt_json(*body) { Some(x) => x, None => empty_object() });
    assert(h@ == pairs_json(match opt_pairs(*headers) { Some(x) => x, None => Seq::empty() }));
    assert(q@ == pairs_json(match opt_pairs(*parameters) { Some(x) => x, None => Seq::empty() }));
    assert(json::entries_view(out@) =~= request_record(
        opt_json(*body),
        opt_pairs(*headers),
        opt_pairs(*parameters),
        method,
        is_image,
        return_url,
        parse_html,
    )->Object_0);
    r
}

/// The entry recorded for a URL seen for the first time.
fn fresh_entry_exec(incoming: &JsonValue) -> (r: JsonValue)
    ensures
        r@ == fresh_entry(incoming@),
{
    let empty: Vec<(String, JsonValue)> = Vec::new();
    assert(json::entries_view(empty@) =~= Seq::<(Seq<char>, json::Json)>::empty());
    let mut out: Vec<(String, JsonValue)> = Vec::new();
    out.push(("request".to_owned(), to_skeleton(incoming)));
    out.push(("response".to_owned(), JsonValue::Object(empty)));
    assert(json::entries_view(out@) =~= fresh_entry(incoming@)->Object_0);
    JsonValue::Object(out)
}

/// Writes onto `h` each string entry of `hp` that is not the marker, in order.
fn override_pairs_exec(h: Vec<(String, String)>, hp: &Vec<(String, JsonValue)>) -> (r: Vec<(String, String)>)
    ensures
        pairs_view(r@) == override_pairs(pairs_view(h@), json::entries_view(hp@)),
{
    let mut out = h;
    let ghost h0 = pairs_view(out@);
    let ghost pv = json::entries_view(hp@);
    let mut n: usize = 0;
    assert(pv.take(0) =~= Seq::<(Seq<char>, json::Json)>::empty());
    while n < hp.len()
        invariant
            n <= hp.len(),
            pv == json::entries_view(hp@),
            pairs_view(out@) == override_pairs(h0, pv.take(n as int)),
        decreases hp.len() - n,
    {
        assert(pv.take(n + 1).drop_last() =~= pv.take(n as int));
        assert(pv.take(n + 1)[n as int] == (hp@[n as int].0@, hp@[n as int].1@));
        let v = &hp[n].1;
        if !v.is_not_modified() {
            match v {
                JsonValue::Str(s) => {
                    insert_pair(&mut out, hp[n].0.clone(), s.clone());
                },
                _ => {},
            }
        }
        n = n + 1;
    }
    assert(pv.take(hp.len() as int) =~= pv);
    out
}

/// The overrides of the request section `request` under `field`, written onto
/// `pairs` (see `patched_pairs`).
fn patched_pairs_exec(request: Option<&JsonValue>, field: &str, pairs: Option<Vec<(String, String)>>) -> (r: Option<Vec<(String, String)>>)
    ensures
        opt_pairs(r) == patched_pairs(
            match request {
                Some(x) => Some(x@),
                None => None,
            },
            field@,
            opt_pairs(pairs),
        ),
{
    match request {
        Some(req) => match json_get_ref(req, field) {
            Some(JsonValue::Object(hp)) => {
                let base = match pairs {
                    Some(p) => p,
                    None => {
                        let e: Vec<(String, String)> = Vec::new();
                        assert(pairs_view(e@) =~= Seq::<(Seq<char>, Seq<char>)>::empty());
                        e
                    },
                };
                Some(override_pairs_exec(base, hp))
            },
            _ => pairs,
        },
        None => pairs,
    }
}

/// Registers a request to `full_url` in the patches (creating the URL's entry
/// when it is new, and adding to its request section the keys it lacks), then
/// replays the overrides of that request section onto the body, headers and
/// parameters, which it returns.
pub fn apply_request_patch(
    patches: &mut Patches,
    full_url: &str,
    incoming: &JsonValue,
    body: Option<JsonValue>,
    headers: Option<Vec<(String, String)>>,
    parameters: Option<Vec<(String, String)>>,
) -> (r: (Option<JsonValue>, Option<Vec<(String, String)>>, Option<Vec<(String, String)>>))
    ensures
        final(patches)@ == register_request(old(patches)@, full_url@, incoming@),
        opt_json(r.0) == patched_body(
            json_get(registered_entry(old(patches)@, full_url@, incoming@), "request"@),
            opt_json(body),
        ),
        opt_pairs(r.1) == patched_pairs(
            json_get(registered_entry(old(patches)@, full_url@, incoming@), "request"@),
            "headers"@,
            opt_pairs(headers),
        ),
        opt_pairs(r.2) == patched_pairs(
            json_get(registered_entry(old(patches)@, full_url@, incoming@), "request"@),
            "parameters"@,
            opt_pairs(parameters),
        ),
        patches_wf(old(patches)@) && json::json_wf(incoming@) ==> patches_wf(final(patches)@),
        pairs_unique(match opt_pairs(headers) { Some(p) => p, None => Seq::empty() }) ==> pairs_unique(
            match opt_pairs(r.1) { Some(p) => p, None => Seq::empty() },
        ),
        pairs_unique(match opt_pairs(parameters) { Some(p) => p, None => Seq::empty() }) ==> pairs_unique(
            match opt_pairs(r.2) { Some(p) => p, None => Seq::empty() },
        ),
{
    proof {
        let before = old(patches)@;
        if patches_wf(before) && json::json_wf(incoming@) {
            lemma_registered_entry_wf(before, full_url@, incoming@);
            json::lemma_obj_insert_wf(before, full_url@, registered_entry(before, full_url@, incoming@));
        }
        let req = json_get(registered_entry(before, full_url@, incoming@), "request"@);
        if pairs_unique(match opt_pairs(headers) { Some(p) => p, None => Seq::empty() }) {
            lemma_patched_pairs_unique(req, "headers"@, opt_pairs(headers));
        }
        if pairs_unique(match opt_pairs(parameters) { Some(p) => p, None => Seq::empty() }) {
            lemma_patched_pairs_unique(req, "parameters"@, opt_pairs(parameters));
        }
    }
    let ghost before = patches@;
    let j = find_key(&patches.entries, full_url);
    let found = j < patches.entries.len();
    let entry0 = if found {
        let (_k, e) = patches.entries.remove(j);
        e
    } else {
        fresh_entry_exec(incoming)
    };
    let ghost mid = patches.entries@;
    let entry = merge_under(entry0, "request", incoming);
    assert(entry@ == registered_entry(before, full_url@, incoming@));
    let request = json_get_ref(&entry, "request");
    let new_body = match request {
        Some(req) => match json_get_ref(req, "body") {
            Some(bp) => if !bp.is_not_modified() {
                let mut current = match body {
                    Some(b) => b,
                    None => {
                        let e: Vec<(String, JsonValue)> = Vec::new();
                        assert(json::entries_view(e@) =~= Seq::<(Seq<char>, json::Json)>::empty());
                        JsonValue::Object(e)
                    },
                };
                apply_overrides(bp, &mut current);
                Some(current)
            } else {
                body
            },
            None => body,
        },
        None => body,
    };
    let new_headers = patched_pairs_exec(request, "headers", headers);
    let new_parameters = patched_pairs_exec(request, "parameters", parameters);
    let ghost ev = entry@;
    if found {
        patches.entries.insert(j, (full_url.to_owned(), entry));
        assert(patches@ =~= before.update(j as int, (full_url@, ev)));
    } else {
        patches.entries.push((full_url.to_owned(), entry));
        assert(patches@ =~= before.push((full_url@, ev)));
    }
    (new_body, new_headers, new_parameters)
}

/// Records the text of a successful response from `full_url`: when the text
/// is JSON and the URL's entry has a response section, the keys of the
/// text's value that the section lacks are added to it (see
/// `record_response_value`); otherwise nothing changes. Returns whether the
/// patches changed (so that they are to be written back).
pub fn record_response_patch(patches: &mut Patches, full_url: &str, response_text: &str) -> (recorded: bool)
    ensures
        match json::json_text(response_text@) {
            Some(j) => {
                &&& final(patches)@ == record_response(old(patches)@, full_url@, j)
                &&& recorded == (json::key_pos(old(patches)@, full_url@) < old(patches)@.len() && json_get(
                    old(patches)@[json::key_pos(old(patches)@, full_url@) as int].1,
                    "response"@,
                ) is Some)
            },
            None => final(patches)@ == old(patches)@ && !recorded,
        },
        patches_wf(old(patches)@) ==> patches_wf(final(patches)@),
{
    match json::parse_json(response_text) {
        Some(v) => record_response_value(patches, full_url, &v),
        None => false,
    }
}

/// Records a parsed response from `full_url`: when the URL's entry has a
/// response section, the keys of `response` that it lacks are added to it.
/// Returns whether the patches changed.
fn record_response_value(patches: &mut Patches, full_url: &str, response: &JsonValue) -> (recorded: bool)
    ensures
        final(patches)@ == record_response(old(patches)@, full_url@, response@),
        recorded == (json::key_pos(old(patches)@, full_url@) < old(patches)@.len() && json_get(
            old(patches)@[json::key_pos(old(patches)@, full_url@) as int].1,
            "response"@,
        ) is Some),
        patches_wf(old(patches)@) && json::json_wf(response@) ==> patches_wf(final(patches)@),
{
    proof {
        let m = old(patches)@;
        json::lemma_key_pos(m, full_url@);
        let k = json::key_pos(m, full_url@);
        if patches_wf(m) && json::json_wf(response@) && k < m.len() {
            let e = m[k as int].1;
            assert(json::json_wf(m[k as int].1));
            if let Some(r) = json_get(e, "response"@) {
                json::lemma_key_pos(e->Object_0, "response"@);
                assert(json::json_wf(e->Object_0[json::key_pos(e->Object_0, "response"@) as int].1));
                json::lemma_merge_wf(r, response@);
                lemma_json_set_wf(e, "response"@, json::merge(r, response@));
                json::lemma_obj_insert_wf(m, full_url@, json_set(e, "response"@, json::merge(r, response@)));
            }
        }
    }
    let ghost before = patches@;
    let j = find_key(&patches.entries, full_url);
    if j < patches.entries.len() {
        let has_response = json_get_ref(&patches.entries[j].1, "response").is_some();
        if has_response {
            let (k, e) = patches.entries.remove(j);
            let e2 = merge_under(e, "response", response);
            let ghost kv = (k@, e2@);
            patches.entries.insert(j, (k, e2));
            assert(patches@ =~= before.update(j as int, kv));
        }
        has_response
    } else {
        false
    }
}


/// No two pairs share a name, as in a map.
pub open spec fn pairs_unique(p: Seq<(Seq<char>, Seq<char>)>) -> bool {
    forall|a: int, b: int| 0 <= a < b < p.len() ==> p[a].0 != p[b].0
}

/// Markers override no pair.
proof fn lemma_markers_override_nothing(h: Seq<(Seq<char>, Seq<char>)>, hp: Seq<(Seq<char>, json::Json)>)
    requires
        forall|i: int| 0 <= i < hp.len() ==> #[trigger] hp[i].1 == json::not_modified(),
    ensures
        override_pairs(h, hp) == h,
    decreases hp.len(),
{
    if hp.len() > 0 {
        lemma_markers_override_nothing(h, hp.drop_last());
        assert(hp[hp.len() - 1].1 == json::not_modified());
    }
}

/// The record of a request with a valid body and unique header and parameter
/// names is valid.
pub proof fn lemma_request_record_wf(
    body: Option<json::Json>,
    headers: Option<Seq<(Seq<char>, Seq<char>)>>,
    parameters: Option<Seq<(Seq<char>, Seq<char>)>>,
    method: RequestMethod,
    is_image: bool,
    return_url: bool,
    parse_html: Option<bool>,
)
    requires
        json::json_wf(match body { Some(b) => b, None => empty_object() }),
        pairs_unique(match headers { Some(h) => h, None => Seq::empty() }),
        pairs_unique(match parameters { Some(p) => p, None => Seq::empty() }),
    ensures
        json::json_wf(request_record(body, headers, parameters, method, is_image, return_url, parse_html)),
{
    reveal_strlit("body");
    reveal_strlit("headers");
    reveal_strlit("parameters");
    reveal_strlit("method");
    reveal_strlit("is_image");
    reveal_strlit("return_url");
    reveal_strlit("parse_html");
    let h = match headers { Some(h) => h, None => Seq::empty() };
    let p = match parameters { Some(p) => p, None => Seq::empty() };
    let incoming = request_record(body, headers, parameters, method, is_image, return_url, parse_html);
    let m = incoming->Object_0;
    assert forall|a: int, c: int| 0 <= a < c < m.len() implies m[a].0 != m[c].0 by {
        let x = m[a].0;
        let y = m[c].0;
        assert(x.len() != y.len() || x[0] != y[0] || x[3] != y[3]);
    }
    assert(json::keys_unique(m));
    assert forall|i: int| 0 <= i < m.len() implies json::json_wf(#[trigger] m[i].1) by {
        if i == 1 {
            let hm = pairs_json(h)->Object_0;
            assert(json::keys_unique(hm));
            assert forall|t: int| 0 <= t < hm.len() implies json::json_wf(#[trigger] hm[t].1) by {}
        }
        if i == 2 {
            let pm = pairs_json(p)->Object_0;
            assert(json::keys_unique(pm));
            assert forall|t: int| 0 <= t < pm.len() implies json::json_wf(#[trigger] pm[t].1) by {}
        }
    }
}

/// The first request to a URL without an entry is sent as it was given: the
/// skeleton that registering it records overrides nothing, so the body (an
/// empty object when none was given), the headers and the parameters go out
/// unchanged.
pub proof fn law_first_request_sent_as_given(
    patches: Seq<(Seq<char>, json::Json)>,
    url: Seq<char>,
    body: Option<json::Json>,
    headers: Option<Seq<(Seq<char>, Seq<char>)>>,
    parameters: Option<Seq<(Seq<char>, Seq<char>)>>,
    method: RequestMethod,
    is_image: bool,
    return_url: bool,
    parse_html: Option<bool>,
)
    requires
        json::key_pos(patches, url) == patches.len(),
        json::json_wf(match body { Some(b) => b, None => empty_object() }),
        pairs_unique(match headers { Some(h) => h, None => Seq::empty() }),
        pairs_unique(match parameters { Some(p) => p, None => Seq::empty() }),
    ensures
        ({
            let incoming = request_record(body, headers, parameters, method, is_image, return_url, parse_html);
            let request = json_get(registered_entry(patches, url, incoming), "request"@);
            &&& match patched_body(request, body) { Some(b) => b, None => empty_object() }
                == match body { Some(b) => b, None => empty_object() }
            &&& patched_pairs(request, "headers"@, headers) == Some(match headers { Some(h) => h, None => Seq::empty() })
            &&& patched_pairs(request, "parameters"@, parameters) == Some(match parameters { Some(p) => p, None => Seq::empty() })
        }),
{
    reveal_strlit("body");
    reveal_strlit("headers");
    reveal_strlit("parameters");
    reveal_strlit("method");
    reveal_strlit("is_image");
    reveal_strlit("return_url");
    reveal_strlit("parse_html");
    reveal_strlit("request");
    reveal_strlit("response");
    let b = match body { Some(b) => b, None => empty_object() };
    let h = match headers { Some(h) => h, None => Seq::empty() };
    let p = match parameters { Some(p) => p, None => Seq::empty() };
    let incoming = request_record(body, headers, parameters, method, is_image, return_url, parse_html);
    lemma_request_record_wf(body, headers, parameters, method, is_image, return_url, parse_html);
    json::law_merge_into_own_skeleton(incoming);
    let skel = json::skeleton(incoming);
    let fresh = fresh_entry(incoming);
    let fm = fresh->Object_0;
    assert(json::key_pos(fm, "request"@) == 0);
    assert(fm.update(0, (fm[0].0, skel)) =~= fm);
    assert(registered_entry(patches, url, incoming) == fresh);
    let sm = skel->Object_0;
    assert(json::key_pos(sm, "body"@) == 0);
    assert(json::key_pos(sm, "headers"@) == 1) by {
        assert(sm[0].0 != "headers"@);
        assert(sm.drop_first()[0].0 == "headers"@);
        assert(json::key_pos(sm.drop_first(), "headers"@) == 0);
    }
    assert(json::key_pos(sm, "parameters"@) == 2) by {
        assert(sm[0].0 != "parameters"@);
        assert(sm.drop_first()[0].0 != "parameters"@);
        assert(sm.drop_first().drop_first()[0].0 == "parameters"@);
        assert(json::key_pos(sm.drop_first().drop_first(), "parameters"@) == 0);
        assert(json::key_pos(sm.drop_first(), "parameters"@) == 1);
    }
    assert(json_get(skel, "body"@) == Some(json::skeleton(b)));
    if json::skeleton(b) != json::not_modified() {
        json::law_fresh_skeleton_overrides_nothing(b);
    }
    let hs = json::skeleton(pairs_json(h))->Object_0;
    assert forall|i: int| 0 <= i < hs.len() implies #[trigger] hs[i].1 == json::not_modified() by {
        let pj = pairs_json(h)->Object_0;
        assert(pj[i].1 == json::Json::Str(h[i].1));
        assert(hs[i].1 == json::skeleton(pj[i].1));
    }
    lemma_markers_override_nothing(h, hs);
    let ps = json::skeleton(pairs_json(p))->Object_0;
    assert forall|i: int| 0 <= i < ps.len() implies #[trigger] ps[i].1 == json::not_modified() by {
        let pj = pairs_json(p)->Object_0;
        assert(pj[i].1 == json::Json::Str(p[i].1));
        assert(ps[i].1 == json::skeleton(pj[i].1));
    }
    lemma_markers_override_nothing(p, ps);
}

/// Recording a response never changes a value already in the URL's response
/// section: the overrides written there survive every later response.
pub proof fn law_response_keeps_existing(patches: Seq<(Seq<char>, json::Json)>, url: Seq<char>, response: json::Json)
    requires
        json::key_pos(patches, url) < patches.len(),
        json_get(patches[json::key_pos(patches, url) as int].1, "response"@) is Some,
    ensures
        ({
            let j = json::key_pos(patches, url) as int;
            let after = record_response(patches, url, response);
            &&& json::key_pos(after, url) == j
            &&& json_get(after[j].1, "response"@) is Some
            &&& json::keeps(
                json_get(patches[j].1, "response"@)->Some_0,
                json_get(after[j].1, "response"@)->Some_0,
            )
        }),
{
    let j = json::key_pos(patches, url) as int;
    let e = patches[j].1;
    let r = json_get(e, "response"@)->Some_0;
    let merged = json::merge(r, response);
    let em = e->Object_0;
    let pos = json::key_pos(em, "response"@) as int;
    json::lemma_key_pos(em, "response"@);
    let e2 = json_set(e, "response"@, merged);
    json::lemma_key_pos_update(em, pos, merged, "response"@);
    json::lemma_key_pos_update(patches, j, e2, url);
    json::law_merge_keeps_existing(r, response);
}

/// Recording the same valid response twice is recording it once: the second
/// time, every key of the response is already in the response section.
pub proof fn law_record_response_idempotent(patches: Seq<(Seq<char>, json::Json)>, url: Seq<char>, response: json::Json)
    requires
        json::json_wf(response),
    ensures
        record_response(record_response(patches, url, response), url, response) == record_response(patches, url, response),
{
    let j = json::key_pos(patches, url);
    if j < patches.len() {
        let e = patches[j as int].1;
        if let Some(r) = json_get(e, "response"@) {
            let em = e->Object_0;
            let pos = json::key_pos(em, "response"@) as int;
            json::lemma_key_pos(em, "response"@);
            let merged = json::merge(r, response);
            let e2 = json_set(e, "response"@, merged);
            json::lemma_key_pos_update(em, pos, merged, "response"@);
            json::lemma_key_pos_update(patches, j as int, e2, url);
            json::law_merge_idempotent(r, response);
            let once = record_response(patches, url, response);
            let e2m = e2->Object_0;
            assert(e2m.update(pos, (e2m[pos].0, merged)) =~= e2m);
            assert(json_get(e2, "response"@) == Some(merged));
            assert(json_set(e2, "response"@, json::merge(merged, response)) == e2);
            assert(once.update(j as int, (once[j as int].0, e2)) =~= once);
        }
    }
}

/// The entry that registering a request to a URL without an entry records is
/// the fresh one: the skeleton of the request, and an empty response section.
pub proof fn law_first_registration_is_fresh(patches: Seq<(Seq<char>, json::Json)>, url: Seq<char>, incoming: json::Json)
    requires
        json::key_pos(patches, url) == patches.len(),
        json::json_wf(incoming),
    ensures
        registered_entry(patches, url, incoming) == fresh_entry(incoming),
        register_request(patches, url, incoming) == patches.push((url, fresh_entry(incoming))),
{
    reveal_strlit("request");
    reveal_strlit("response");
    json::law_merge_into_own_skeleton(incoming);
    let fm = fresh_entry(incoming)->Object_0;
    assert(json::key_pos(fm, "request"@) == 0);
    assert(fm.update(0, (fm[0].0, json::skeleton(incoming))) =~= fm);
}

/// Registering the same valid request twice is registering it once.
pub proof fn law_register_request_idempotent(patches: Seq<(Seq<char>, json::Json)>, url: Seq<char>, incoming: json::Json)
    requires
        json::json_wf(incoming),
    ensures
        register_request(register_request(patches, url, incoming), url, incoming) == register_request(patches, url, incoming),
{
    reveal_strlit("request");
    reveal_strlit("response");
    let j = json::key_pos(patches, url);
    json::lemma_key_pos(patches, url);
    let e1 = registered_entry(patches, url, incoming);
    let once = register_request(patches, url, incoming);
    let j1 = json::key_pos(once, url);
    if j < patches.len() {
        json::lemma_key_pos_update(patches, j as int, e1, url);
        assert(patches[j as int].0 == url);
        assert(j1 == j);
    } else {
        law_first_registration_is_fresh(patches, url, incoming);
        json::lemma_key_pos_push(patches, (url, e1), url);
        assert(j1 == j);
    }
    assert(once[j1 as int].1 == e1);
    let e0 = if j < patches.len() { patches[j as int].1 } else { fresh_entry(incoming) };
    match json_get(e0, "request"@) {
        Some(r) => {
            let em = e0->Object_0;
            let pos = json::key_pos(em, "request"@) as int;
            json::lemma_key_pos(em, "request"@);
            let merged = json::merge(r, incoming);
            json::lemma_key_pos_update(em, pos, merged, "request"@);
            json::law_merge_idempotent(r, incoming);
            let e1m = e1->Object_0;
            assert(e1m.update(pos, (e1m[pos].0, merged)) =~= e1m);
            assert(json_get(e1, "request"@) == Some(merged));
            assert(json_set(e1, "request"@, json::merge(merged, incoming)) == e1);
            assert(registered_entry(once, url, incoming) == e1);
        },
        None => {
            assert(registered_entry(once, url, incoming) == e1);
        },
    }
    assert(once.update(j1 as int, (url, e1)) =~= once);
}

/// Overrides that never name key `k` with a string (another key, the
/// marker, or a value that is no string) leave its lookup as it was.
proof fn lemma_pairs_untouched(h: Seq<(Seq<char>, Seq<char>)>, hp: Seq<(Seq<char>, json::Json)>, k: Seq<char>)
    requires
        forall|j: int| 0 <= j < hp.len() && #[trigger] hp[j].0 == k ==> hp[j].1 == json::not_modified() || !(hp[j].1 is Str),
    ensures
        json::lookup(override_pairs(h, hp), k) == json::lookup(h, k),
    decreases hp.len(),
{
    if hp.len() > 0 {
        let init = hp.drop_last();
        assert forall|j: int| 0 <= j < init.len() && #[trigger] init[j].0 == k implies init[j].1 == json::not_modified()
            || !(init[j].1 is Str) by {
            assert(init[j] == hp[j]);
        }
        lemma_pairs_untouched(h, init, k);
        let e = hp[hp.len() - 1];
        if e.1 != json::not_modified() && e.1 is Str {
            json::lemma_lookup_obj_insert(override_pairs(h, init), e.0, e.1->Str_0, k);
        }
    }
}

/// The header (or parameter) overrides of a request section are what the
/// request carries: with the overrides' keys unique, a key whose override is
/// a string other than the marker carries that string, and a key whose
/// override is the marker, or not a string, keeps the value given.
pub proof fn law_pair_overrides_written(
    h: Seq<(Seq<char>, Seq<char>)>,
    hp: Seq<(Seq<char>, json::Json)>,
    i: int,
)
    requires
        json::keys_unique(hp),
        0 <= i < hp.len(),
    ensures
        json::lookup(override_pairs(h, hp), hp[i].0) == if hp[i].1 != json::not_modified() && hp[i].1 is Str {
            Some(hp[i].1->Str_0)
        } else {
            json::lookup(h, hp[i].0)
        },
{
    let k = hp[i].0;
    let a = hp.take(i);
    assert forall|j: int| 0 <= j < a.len() && #[trigger] a[j].0 == k implies a[j].1 == json::not_modified()
        || !(a[j].1 is Str) by {
        assert(a[j] == hp[j]);
    }
    lemma_pairs_untouched(h, a, k);
    let c = hp.take(i + 1);
    assert(c.drop_last() =~= a);
    assert(c[i] == hp[i]);
    if hp[i].1 != json::not_modified() && hp[i].1 is Str {
        json::lemma_lookup_obj_insert(override_pairs(h, a), k, hp[i].1->Str_0, k);
    }
    lemma_pairs_suffix(h, hp, i + 1, k);
}

/// Overrides after position `n` that do not name `k` leave its lookup as the
/// first `n` overrides made it.
proof fn lemma_pairs_suffix(h: Seq<(Seq<char>, Seq<char>)>, hp: Seq<(Seq<char>, json::Json)>, n: int, k: Seq<char>)
    requires
        0 <= n <= hp.len(),
        forall|j: int| n <= j < hp.len() ==> #[trigger] hp[j].0 != k,
    ensures
        json::lookup(override_pairs(h, hp), k) == json::lookup(override_pairs(h, hp.take(n)), k),
    decreases hp.len() - n,
{
    if n == hp.len() {
        assert(hp.take(n) =~= hp);
    } else {
        lemma_pairs_suffix(h, hp, n + 1, k);
        let c = hp.take(n + 1);
        assert(c.drop_last() =~= hp.take(n));
        assert(c[n] == hp[n]);
        let e = hp[n];
        if e.1 != json::not_modified() && e.1 is Str {
            json::lemma_lookup_obj_insert(override_pairs(h, hp.take(n)), e.0, e.1->Str_0, k);
        }
    }
}

} // verus!

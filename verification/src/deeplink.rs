//! Theme-install deep links: recognising them and holding the last one
//! until the interface asks for it.
use vstd::prelude::*;
use crate::text;

verus! {

/// What a theme-install link asks for: the theme to install, and whether to
/// apply it once it is installed.
#[derive(Debug, Clone)]
pub struct ThemeInstallPayload {
    pub theme_id: String,
    pub apply: bool,
}

/// A hexadecimal digit, in either case.
pub open spec fn is_hex_digit(c: char) -> bool {
    ||| ('0' <= c && c <= '9')
    ||| ('a' <= c && c <= 'f')
    ||| ('A' <= c && c <= 'F')
}

/// The ASCII lower-case form of a character; other characters are unchanged.
pub open spec fn ascii_lower(c: char) -> char {
    if 'A' <= c && c <= 'Z' {
        ((c as u32) + 32) as char
    } else {
        c
    }
}

/// A UUID in its hyphenated form: 36 characters, hyphens at positions 8, 13,
/// 18 and 23, hexadecimal digits everywhere else.
pub open spec fn is_hyphenated_uuid(s: Seq<char>) -> bool {
    &&& s.len() == 36
    &&& forall|i: int|
        0 <= i < 36 ==> if i == 8 || i == 13 || i == 18 || i == 23 {
            s[i] == '-'
        } else {
            is_hex_digit(#[trigger] s[i])
        }
}

/// The texts that `uuid::Uuid::parse_str` accepts: 32 hexadecimal digits; the
/// hyphenated form; the hyphenated form in braces; or `urn:uuid:` (in any
/// ASCII case) followed by the hyphenated form.
pub open spec fn is_uuid_text(s: Seq<char>) -> bool {
    ||| (s.len() == 32 && forall|i: int| 0 <= i < 32 ==> is_hex_digit(#[trigger] s[i]))
    ||| is_hyphenated_uuid(s)
    ||| (s.len() == 38 && s[0] == '{' && s[37] == '}' && is_hyphenated_uuid(s.subrange(1, 37)))
    ||| (s.len() == 45 && (forall|i: int| 0 <= i < 9 ==> ascii_lower(#[trigger] s[i]) == "urn:uuid:"@[i])
        && is_hyphenated_uuid(s.subrange(9, 45)))
}

/// Calls `uuid::Uuid::parse_str` and reports whether it succeeded. Claimed: it
/// succeeds exactly on the texts of `is_uuid_text` (the four shapes that
/// `try_parse` in the crate's parser accepts, checked byte by byte).
#[verifier::external_body]
fn is_valid_theme_id(value: &str) -> (ok: bool)
    ensures
        ok == is_uuid_text(value@),
{
    uuid::Uuid::parse_str(value).is_ok()
}

/// Whether an `apply` value, once trimmed and lower-cased, asks to apply the
/// theme: everything but `0`, `false` and `no` does.
pub open spec fn normalized_apply(v: Seq<char>) -> bool {
    !(v == "0"@ || v == "false"@ || v == "no"@)
}

/// The meaning of an optional `apply` value: absent means apply.
pub open spec fn apply_flag(value: Option<Seq<char>>) -> bool {
    match value {
        None => true,
        Some(v) => normalized_apply(text::unicode_lowercase(text::trim(v))),
    }
}

/// Decides `normalized_apply` on a value that is already trimmed and lower-cased.
pub fn normalized_apply_flag(lowered: &str) -> (r: bool)
    ensures
        r == normalized_apply(lowered@),
{
    let c = text::chars_of(lowered);
    let n = c.len();
    assert(c@.subrange(0, n as int) =~= lowered@);
    !(text::equals_at(&c, 0, n, &text::chars_of("0")) || text::equals_at(&c, 0, n, &text::chars_of("false"))
        || text::equals_at(&c, 0, n, &text::chars_of("no")))
}

/// Reads an `apply` value: absent, or anything but `0`, `false` and `no`
/// (after trimming, in any case), means apply.
pub fn parse_apply_flag(value: Option<&str>) -> (r: bool)
    ensures
        r == apply_flag(
            match value {
                Some(v) => Some(v@),
                None => None,
            },
        ),
{
    match value {
        None => true,
        Some(v) => {
            let c = text::chars_of(v);
            let (a, b) = text::trim_bounds(&c, 0, c.len());
            assert(c@.subrange(0, c.len() as int) =~= v@);
            let trimmed = v.substring_char(a, b);
            let lowered = text::to_lowercase(trimmed);
            normalized_apply_flag(lowered.as_str())
        },
    }
}


/// The three shapes of theme-install link that the application recognises.
#[derive(Debug, Clone, Copy)]
pub enum LinkForm {
    /// `<prefix><theme id>`: the id is the rest of the link.
    InstallPath,
    /// `<prefix><theme id>`, where the segment `install` names no theme.
    ThemePath,
    /// `<prefix>id=<theme id>&apply=<flag>`: the id comes from the query.
    InstallQuery,
}

/// The path segment that starts `rest`: everything before the first `?` or
/// `#`, trimmed.
pub open spec fn link_segment(rest: Seq<char>) -> Seq<char> {
    text::trim(rest.take(text::segment_len(rest) as int))
}

/// The effect of one `key=value` query parameter on the theme id and the
/// apply flag read so far. `id`, `theme_id` and `themeId` set the id, `apply`
/// sets the flag; a parameter without `=`, or with another key, changes nothing.
pub open spec fn query_param(piece: Seq<char>, id: Option<Seq<char>>, apply: bool) -> (Option<Seq<char>>, bool) {
    let k = text::char_pos(piece, '=');
    if k < piece.len() {
        let key = piece.take(k as int);
        let value = piece.skip(k + 1int);
        if key == "id"@ || key == "theme_id"@ || key == "themeId"@ {
            (Some(value), apply)
        } else if key == "apply"@ {
            (id, apply_flag(Some(value)))
        } else {
            (id, apply)
        }
    } else {
        (id, apply)
    }
}

/// Reads the `&`-separated parameters of `s` in order, from the id and flag
/// given: later parameters override earlier ones.
pub open spec fn scan_query(s: Seq<char>, id: Option<Seq<char>>, apply: bool) -> (Option<Seq<char>>, bool)
    decreases s.len(),
{
    let n = text::char_pos(s, '&');
    let next = query_param(s.take(n as int), id, apply);
    if n < s.len() {
        scan_query(s.skip(n + 1int), next.0, next.1)
    } else {
        next
    }
}

/// The theme id and apply flag that one rule reads from the trimmed link `t`,
/// if `t` starts with the rule's prefix (at most one).
pub open spec fn rule_candidates(t: Seq<char>, prefix: Seq<char>, form: LinkForm) -> Seq<(Seq<char>, bool)> {
    if prefix.is_prefix_of(t) {
        let rest = t.skip(prefix.len() as int);
        match form {
            LinkForm::InstallPath => seq![(link_segment(rest), true)],
            LinkForm::ThemePath => if link_segment(rest) == "install"@ {
                Seq::empty()
            } else {
                seq![(link_segment(rest), true)]
            },
            LinkForm::InstallQuery => match scan_query(rest, None, true) {
                (Some(id), apply) => seq![(id, apply)],
                (None, _) => Seq::empty(),
            },
        }
    } else {
        Seq::empty()
    }
}

/// The rules of recognition, in the order in which they are tried.
pub open spec fn link_rules() -> Seq<(Seq<char>, LinkForm)> {
    seq![
        ("desqta://theme/install/"@, LinkForm::InstallPath),
        ("desqta://theme/"@, LinkForm::ThemePath),
        ("desqta://theme/install?"@, LinkForm::InstallQuery),
        ("desqta://theme/install/?"@, LinkForm::InstallQuery),
        ("https://betterseqta.org/desqta/theme/install?"@, LinkForm::InstallQuery),
        ("https://www.betterseqta.org/desqta/theme/install?"@, LinkForm::InstallQuery),
        ("http://betterseqta.org/desqta/theme/install?"@, LinkForm::InstallQuery),
        ("http://www.betterseqta.org/desqta/theme/install?"@, LinkForm::InstallQuery),
        ("https://betterseqta.org/desqta/theme/"@, LinkForm::ThemePath),
        ("https://www.betterseqta.org/desqta/theme/"@, LinkForm::ThemePath),
        ("http://betterseqta.org/desqta/theme/"@, LinkForm::ThemePath),
        ("http://www.betterseqta.org/desqta/theme/"@, LinkForm::ThemePath),
    ]
}

/// All candidates that `rules` read from `t`, in rule order.
pub open spec fn rules_candidates(t: Seq<char>, rules: Seq<(Seq<char>, LinkForm)>) -> Seq<(Seq<char>, bool)>
    decreases rules.len(),
{
    if rules.len() == 0 {
        Seq::empty()
    } else {
        rule_candidates(t, rules[0].0, rules[0].1) + rules_candidates(t, rules.drop_first())
    }
}

/// The first candidate whose theme id is a UUID.
pub open spec fn first_valid(c: Seq<(Seq<char>, bool)>) -> Option<(Seq<char>, bool)>
    decreases c.len(),
{
    if c.len() == 0 {
        None
    } else if is_uuid_text(c[0].0) {
        Some(c[0])
    } else {
        first_valid(c.drop_first())
    }
}

/// The theme id and apply flag of a theme-install link, or `None` when `url`
/// is no such link: the first rule, in order, whose prefix the trimmed link
/// starts with and that yields a UUID.
pub open spec fn theme_install_link(url: Seq<char>) -> Option<(Seq<char>, bool)> {
    first_valid(rules_candidates(text::trim(url), link_rules()))
}

/// A link reads the same as its trimmed text: white space around a link
/// changes nothing.
pub proof fn law_link_read_trimmed(url: Seq<char>)
    ensures
        theme_install_link(text::trim(url)) == theme_install_link(url),
{
    text::law_trim_idempotent(url);
}

/// A payload as the pair of its theme id's text and its flag.
pub open spec fn payload_view(p: Option<ThemeInstallPayload>) -> Option<(Seq<char>, bool)> {
    match p {
        Some(p) => Some((p.theme_id@, p.apply)),
        None => None,
    }
}

/// `first_valid` of a concatenation looks at the second part only when the
/// first part has no valid candidate.
pub proof fn lemma_first_valid_append(a: Seq<(Seq<char>, bool)>, b: Seq<(Seq<char>, bool)>)
    ensures
        first_valid(a + b) == (match first_valid(a) {
            Some(x) => Some(x),
            None => first_valid(b),
        }),
    decreases a.len(),
{
    if a.len() == 0 {
        assert(a + b =~= b);
    } else {
        assert((a + b).drop_first() =~= a.drop_first() + b);
        lemma_first_valid_append(a.drop_first(), b);
    }
}

/// What `first_valid` picks is a valid candidate.
pub proof fn lemma_first_valid_is_valid(c: Seq<(Seq<char>, bool)>)
    ensures
        first_valid(c) matches Some(x) ==> is_uuid_text(x.0),
    decreases c.len(),
{
    if c.len() > 0 && !is_uuid_text(c[0].0) {
        lemma_first_valid_is_valid(c.drop_first());
    }
}

fn link_rules_exec() -> (r: Vec<(&'static str, LinkForm)>)
    ensures
        r@.len() == link_rules().len(),
        forall|i: int| 0 <= i < r@.len() ==> (#[trigger] r@[i].0@, r@[i].1) == link_rules()[i],
{
    let mut r: Vec<(&'static str, LinkForm)> = Vec::new();
    r.push(("desqta://theme/install/", LinkForm::InstallPath));
    r.push(("desqta://theme/", LinkForm::ThemePath));
    r.push(("desqta://theme/install?", LinkForm::InstallQuery));
    r.push(("desqta://theme/install/?", LinkForm::InstallQuery));
    r.push(("https://betterseqta.org/desqta/theme/install?", LinkForm::InstallQuery));
    r.push(("https://www.betterseqta.org/desqta/theme/install?", LinkForm::InstallQuery));
    r.push(("http://betterseqta.org/desqta/theme/install?", LinkForm::InstallQuery));
    r.push(("http://www.betterseqta.org/desqta/theme/install?", LinkForm::InstallQuery));
    r.push(("https://betterseqta.org/desqta/theme/", LinkForm::ThemePath));
    r.push(("https://www.betterseqta.org/desqta/theme/", LinkForm::ThemePath));
    r.push(("http://betterseqta.org/desqta/theme/", LinkForm::ThemePath));
    r.push(("http://www.betterseqta.org/desqta/theme/", LinkForm::ThemePath));
    r
}

/// The payload for the candidate text `url[a..b]`, if it is a UUID.
fn checked_payload(url: &str, a: usize, b: usize, apply: bool) -> (r: Option<ThemeInstallPayload>)
    requires
        a <= b <= url@.len(),
    ensures
        payload_view(r) == first_valid(seq![(url@.subrange(a as int, b as int), apply)]),
{
    let id = url.substring_char(a, b);
    let ghost c = seq![(url@.subrange(a as int, b as int), apply)];
    assert(c.drop_first() =~= Seq::<(Seq<char>, bool)>::empty());
    assert(c.len() == 1 && c[0] == (url@.subrange(a as int, b as int), apply));
    assert(first_valid(c.drop_first()) is None);
    if is_valid_theme_id(id) {
        Some(ThemeInstallPayload { theme_id: id.to_owned(), apply })
    } else {
        None
    }
}

/// Reads the query `s[lo..hi]`: the bounds of the last theme id given, and
/// the last apply flag.
fn read_query(url: &str, s: &Vec<char>, lo: usize, hi: usize) -> (r: (Option<(usize, usize)>, bool))
    requires
        s@ == url@,
        lo <= hi <= s.len(),
    ensures
        r.0 matches Some((a, b)) ==> a <= b <= hi,
        scan_query(s@.subrange(lo as int, hi as int), None, true) == (
            match r.0 {
                Some((a, b)) => Some(s@.subrange(a as int, b as int)),
                None => None,
            },
            r.1,
        ),
{
    let mut pos = lo;
    let mut id: Option<(usize, usize)> = None;
    let mut apply = true;
    let ghost mut gid: Option<Seq<char>> = None;
    let id_key = text::chars_of("id");
    let theme_id_key = text::chars_of("theme_id");
    let theme_id_camel_key = text::chars_of("themeId");
    let apply_key = text::chars_of("apply");
    loop
        invariant_except_break
            lo <= pos <= hi,
            scan_query(s@.subrange(lo as int, hi as int), None, true) == scan_query(
                s@.subrange(pos as int, hi as int),
                gid,
                apply,
            ),
        invariant
            s@ == url@,
            hi <= s.len(),
            id_key@ == "id"@,
            theme_id_key@ == "theme_id"@,
            theme_id_camel_key@ == "themeId"@,
            apply_key@ == "apply"@,
            id matches Some((a, b)) ==> a <= b <= hi && gid == Some(s@.subrange(a as int, b as int)),
            id is None ==> gid is None,
        ensures
            scan_query(s@.subrange(lo as int, hi as int), None, true) == (gid, apply),
        decreases hi - pos,
    {
        let ghost rest = s@.subrange(pos as int, hi as int);
        let e = text::find_char(s, pos, hi, '&');
        let k = text::find_char(s, pos, e, '=');
        proof {
            text::lemma_char_pos(rest, '&');
            assert(rest.take(e - pos) =~= s@.subrange(pos as int, e as int));
            let piece = s@.subrange(pos as int, e as int);
            text::lemma_char_pos(piece, '=');
            assert(piece.take(k - pos) =~= s@.subrange(pos as int, k as int));
            if k < e {
                assert(piece.skip(k - pos + 1) =~= s@.subrange(k + 1, e as int));
            }
        }
        if k < e {
            if text::equals_at(s, pos, k, &id_key) || text::equals_at(s, pos, k, &theme_id_key)
                || text::equals_at(s, pos, k, &theme_id_camel_key) {
                id = Some((k + 1, e));
                proof {
                    gid = Some(s@.subrange(k + 1, e as int));
                }
            } else if text::equals_at(s, pos, k, &apply_key) {
                apply = parse_apply_flag(Some(url.substring_char(k + 1, e)));
            }
        }
        if e < hi {
            assert(rest.skip(e - pos + 1) =~= s@.subrange(e + 1, hi as int));
            pos = e + 1;
        } else {
            break;
        }
    }
    (id, apply)
}

/// Applies one rule to the trimmed link `s[lo..hi]`.
fn try_rule(url: &str, s: &Vec<char>, lo: usize, hi: usize, prefix: &str, form: LinkForm) -> (r: Option<ThemeInstallPayload>)
    requires
        s@ == url@,
        lo <= hi <= s.len(),
    ensures
        payload_view(r) == first_valid(rule_candidates(s@.subrange(lo as int, hi as int), prefix@, form)),
{
    let ghost t = s@.subrange(lo as int, hi as int);
    let p = text::chars_of(prefix);
    if !text::starts_with_at(s, lo, hi, &p) {
        return None;
    }
    let a = lo + p.len();
    assert(t.skip(p@.len() as int) =~= s@.subrange(a as int, hi as int));
    match form {
        LinkForm::InstallQuery => {
            let (id, apply) = read_query(url, s, a, hi);
            match id {
                Some((ia, ib)) => checked_payload(url, ia, ib, apply),
                None => None,
            }
        },
        _ => {
            let e = text::find_segment_end(s, a, hi);
            let (sa, sb) = text::trim_bounds(s, a, e);
            assert(s@.subrange(a as int, hi as int).take(e - a) =~= s@.subrange(a as int, e as int));
            let excluded = match form {
                LinkForm::ThemePath => text::equals_at(s, sa, sb, &text::chars_of("install")),
                _ => false,
            };
            if excluded {
                None
            } else {
                checked_payload(url, sa, sb, true)
            }
        },
    }
}

/// Reads a theme-install deep link, from the application's own scheme or from
/// the BetterSEQTA web site: the theme id (which must be a UUID) and whether to
/// apply the theme. Any other text gives `None`.
pub fn parse_theme_install_deeplink(url: &str) -> (r: Option<ThemeInstallPayload>)
    ensures
        payload_view(r) == theme_install_link(url@),
        r matches Some(p) ==> is_uuid_text(p.theme_id@),
{
    let s = text::chars_of(url);
    let (lo, hi) = text::trim_bounds(&s, 0, s.len());
    assert(s@.subrange(0, s.len() as int) =~= url@);
    let ghost t = s@.subrange(lo as int, hi as int);
    let rules = link_rules_exec();
    let ghost srules = link_rules();
    let mut i: usize = 0;
    assert(srules.skip(0) =~= srules);
    proof {
        lemma_first_valid_is_valid(rules_candidates(t, srules));
    }
    while i < rules.len()
        invariant
            s@ == url@,
            lo <= hi <= s.len(),
            t == s@.subrange(lo as int, hi as int),
            t == text::trim(url@),
            srules == link_rules(),
            rules@.len() == srules.len(),
            forall|j: int| 0 <= j < rules@.len() ==> (#[trigger] rules@[j].0@, rules@[j].1) == srules[j],
            i <= rules.len(),
            theme_install_link(url@) == first_valid(rules_candidates(t, srules.skip(i as int))),
            theme_install_link(url@) matches Some(x) ==> is_uuid_text(x.0),
        decreases rules.len() - i,
    {
        let prefix = rules[i].0;
        let form = rules[i].1;
        let r = try_rule(url, &s, lo, hi, prefix, form);
        proof {
            let rest = srules.skip(i as int);
            assert(rest[0] == srules[i as int]);
            assert(rest.drop_first() =~= srules.skip(i + 1));
            lemma_first_valid_append(rule_candidates(t, rest[0].0, rest[0].1), rules_candidates(t, rest.drop_first()));
        }
        if r.is_some() {
            return r;
        }
        i = i + 1;
    }
    proof {
        assert(srules.skip(i as int).len() == 0);
    }
    None
}


/// The slot in which the last recognised theme-install link waits until the
/// interface asks for it.
pub struct PendingThemeInstall {
    slot: Option<ThemeInstallPayload>,
}

/// The slot's content after storing `payload`.
pub open spec fn after_store(held: Option<ThemeInstallPayload>, payload: ThemeInstallPayload) -> Option<ThemeInstallPayload> {
    Some(payload)
}

/// What taking from the slot returns, and the slot's content afterwards.
pub open spec fn after_take(held: Option<ThemeInstallPayload>) -> (Option<ThemeInstallPayload>, Option<ThemeInstallPayload>) {
    (held, None)
}

impl PendingThemeInstall {
    /// The payload held, if any.
    pub closed spec fn held(&self) -> Option<ThemeInstallPayload> {
        self.slot
    }

    /// An empty slot.
    pub fn new() -> (r: Self)
        ensures
            r.held() is None,
    {
        PendingThemeInstall { slot: None }
    }

    /// Keeps `payload` as the pending install, replacing any earlier one.
    pub fn store_pending(&mut self, payload: ThemeInstallPayload)
        ensures
            final(self).held() == after_store(old(self).held(), payload),
    {
        self.slot = Some(payload);
    }

    /// Hands out the pending install, if any, and empties the slot.
    pub fn take_pending_theme_install(&mut self) -> (r: Option<ThemeInstallPayload>)
        ensures
            (r, final(self).held()) == after_take(old(self).held()),
    {
        let r = self.slot.take();
        r
    }
}

/// A take that follows a store hands out the stored payload, and a second take
/// finds the slot empty.
pub proof fn law_take_after_store(held: Option<ThemeInstallPayload>, payload: ThemeInstallPayload)
    ensures
        after_take(after_store(held, payload)).0 == Some(payload),
        after_take(after_take(after_store(held, payload)).1).0 is None,
{
}

/// The prefixes of theme-install links that give the theme in their query.
pub open spec fn query_link_prefixes() -> Seq<Seq<char>> {
    seq![
        "desqta://theme/install?"@,
        "desqta://theme/install/?"@,
        "https://betterseqta.org/desqta/theme/install?"@,
        "https://www.betterseqta.org/desqta/theme/install?"@,
        "http://betterseqta.org/desqta/theme/install?"@,
        "http://www.betterseqta.org/desqta/theme/install?"@,
    ]
}

/// A prefix that differs from a text at some position does not start it.
proof fn lemma_not_prefix(q: Seq<char>, t: Seq<char>, i: int)
    requires
        0 <= i < q.len(),
        i < t.len(),
        q[i] != t[i],
    ensures
        !q.is_prefix_of(t),
{
    if q.is_prefix_of(t) {
        assert(t.subrange(0, q.len() as int)[i] == t[i]);
    }
}

/// When every rule before rule `r` yields no valid candidate and rule `r`
/// yields `x` first, the rules yield `x`.
proof fn lemma_first_valid_rules(t: Seq<char>, rules: Seq<(Seq<char>, LinkForm)>, r: int, x: (Seq<char>, bool))
    requires
        0 <= r < rules.len(),
        forall|k: int| 0 <= k < r ==> first_valid(#[trigger] rule_candidates(t, rules[k].0, rules[k].1)) is None,
        first_valid(rule_candidates(t, rules[r].0, rules[r].1)) == Some(x),
    ensures
        first_valid(rules_candidates(t, rules)) == Some(x),
    decreases r,
{
    let a = rule_candidates(t, rules[0].0, rules[0].1);
    let rest = rules.drop_first();
    lemma_first_valid_append(a, rules_candidates(t, rest));
    if r > 0 {
        assert(first_valid(rule_candidates(t, rules[0].0, rules[0].1)) is None);
        assert forall|k: int| 0 <= k < r - 1 implies first_valid(#[trigger] rule_candidates(t, rest[k].0, rest[k].1))
            is None by {
            assert(rest[k] == rules[k + 1]);
            assert(first_valid(rule_candidates(t, rules[k + 1].0, rules[k + 1].1)) is None);
        }
        assert(rest[r - 1] == rules[r]);
        lemma_first_valid_rules(t, rest, r - 1, x);
    }
}

/// A hyphenated UUID has no `&`, `=`, `?` or `#`, and is a UUID.
proof fn lemma_uuid_chars(u: Seq<char>)
    requires
        is_hyphenated_uuid(u),
    ensures
        is_uuid_text(u),
        forall|i: int| 0 <= i < u.len() ==> u[i] != '&' && u[i] != '=' && !text::is_segment_end(u[i]),
        !text::is_white_space(u.last()),
{
    assert forall|i: int| 0 <= i < u.len() implies u[i] != '&' && u[i] != '=' && !text::is_segment_end(u[i]) by {
        if !(i == 8 || i == 13 || i == 18 || i == 23) {
            assert(is_hex_digit(u[i]));
        }
    }
    assert(is_hex_digit(u[35]));
}

/// The query `id=<u>` names the theme `u` and asks to apply it.
proof fn lemma_scan_id(u: Seq<char>)
    requires
        is_hyphenated_uuid(u),
    ensures
        scan_query("id="@ + u, None, true) == (Some(u), true),
{
    reveal_strlit("id=");
    reveal_strlit("id");
    let s = "id="@ + u;
    lemma_uuid_chars(u);
    assert forall|i: int| 0 <= i < s.len() implies s[i] != '&' by {
        if i >= 3 {
            assert(s[i] == u[i - 3]);
        }
    }
    text::lemma_char_pos_absent(s, '&');
    assert(s.take(s.len() as int) =~= s);
    text::lemma_char_pos_at(s, '=', 2);
    assert(s.take(2) =~= "id"@);
    assert(s.skip(3) =~= u);
}

/// The query rule with prefix `p` reads `p` followed by `id=<u>` as `u`,
/// applied.
proof fn lemma_query_rule(p: Seq<char>, u: Seq<char>)
    requires
        is_hyphenated_uuid(u),
    ensures
        first_valid(rule_candidates(p + "id="@ + u, p, LinkForm::InstallQuery)) == Some((u, true)),
{
    let t = p + "id="@ + u;
    assert(t.subrange(0, p.len() as int) =~= p);
    assert(t.skip(p.len() as int) =~= "id="@ + u);
    lemma_scan_id(u);
    lemma_uuid_chars(u);
    let c = rule_candidates(t, p, LinkForm::InstallQuery);
    assert(c == seq![(u, true)]);
    assert(c.drop_first() =~= Seq::<(Seq<char>, bool)>::empty());
}

/// A link made of a query prefix, `id=` and a UUID reads as that theme,
/// applied: every query-link form of the application's scheme and of the
/// BetterSEQTA web site is recognised.
pub proof fn law_query_links_read(i: int, u: Seq<char>)
    requires
        0 <= i < 6,
        is_hyphenated_uuid(u),
    ensures
        theme_install_link(query_link_prefixes()[i] + "id="@ + u) == Some((u, true)),
{
    reveal_strlit("desqta://theme/install/");
    reveal_strlit("desqta://theme/");
    reveal_strlit("desqta://theme/install?");
    reveal_strlit("desqta://theme/install/?");
    reveal_strlit("https://betterseqta.org/desqta/theme/install?");
    reveal_strlit("https://www.betterseqta.org/desqta/theme/install?");
    reveal_strlit("http://betterseqta.org/desqta/theme/install?");
    reveal_strlit("http://www.betterseqta.org/desqta/theme/install?");
    reveal_strlit("install");
    reveal_strlit("id=");
    let p = query_link_prefixes()[i];
    let t = p + "id="@ + u;
    let rules = link_rules();
    lemma_uuid_chars(u);
    assert(t[0] == p[0]);
    assert(t.last() == u.last());
    text::lemma_trim_unchanged(t);
    lemma_query_rule(p, u);
    assert(rules[i + 2].0 == p && rules[i + 2].1 == LinkForm::InstallQuery);
    assert forall|k: int| 0 <= k < i + 2 implies first_valid(#[trigger] rule_candidates(t, rules[k].0, rules[k].1))
        is None by {
        lemma_earlier_rule_gives_nothing(i, u, k);
    }
    lemma_first_valid_rules(t, rules, i + 2, (u, true));
}

/// The rules before the query rule of a query link yield no valid candidate.
proof fn lemma_earlier_rule_gives_nothing(i: int, u: Seq<char>, k: int)
    requires
        0 <= i < 6,
        is_hyphenated_uuid(u),
        0 <= k < i + 2,
    ensures
        first_valid(rule_candidates(query_link_prefixes()[i] + "id="@ + u, link_rules()[k].0, link_rules()[k].1)) is None,
{
    reveal_strlit("desqta://theme/install/");
    reveal_strlit("desqta://theme/");
    reveal_strlit("desqta://theme/install?");
    reveal_strlit("desqta://theme/install/?");
    reveal_strlit("https://betterseqta.org/desqta/theme/install?");
    reveal_strlit("https://www.betterseqta.org/desqta/theme/install?");
    reveal_strlit("http://betterseqta.org/desqta/theme/install?");
    reveal_strlit("http://www.betterseqta.org/desqta/theme/install?");
    reveal_strlit("install");
    reveal_strlit("id=");
    let p = query_link_prefixes()[i];
    let t = p + "id="@ + u;
    let q = link_rules()[k].0;
    let form = link_rules()[k].1;
    lemma_uuid_chars(u);
    assert forall|j: int| 0 <= j < p.len() implies t[j] == p[j] by {}
    if i >= 2 && k < 4 {
        // A web link does not start with the application's scheme.
        lemma_not_prefix(q, t, 0);
        assert(first_valid(rule_candidates(t, q, form)) is None);
    } else if (i == 3 || i == 5) && (k == 4 || k == 6) {
        lemma_not_prefix(q, t, if i == 3 { 8 } else { 7 });
        assert(first_valid(rule_candidates(t, q, form)) is None);
    } else if i >= 4 && (k == 4 || k == 5) {
        lemma_not_prefix(q, t, 4);
        assert(first_valid(rule_candidates(t, q, form)) is None);
    } else if i == 0 && k == 0 {
        lemma_not_prefix(q, t, 22);
    } else if i == 1 && k == 2 {
        lemma_not_prefix(q, t, 22);
    } else if k == 1 {
        // `desqta://theme/` starts the link; its segment is `install` (for
        // `install?`) or `install/` (for `install/?`), neither a theme id.
        let rest = t.skip(15);
        assert(t.subrange(0, 15) =~= q);
        let n: int = if i == 0 { 7 } else { 8 };
        assert forall|j: int| 0 <= j < n implies !text::is_segment_end(#[trigger] rest[j]) by {
            assert(rest[j] == p[15 + j]);
        }
        assert(rest[n] == p[15 + n]);
        text::lemma_segment_len_at(rest, n);
        let seg = rest.take(n);
        assert(seg[0] == 'i');
        text::lemma_trim_unchanged(seg);
        assert(link_segment(rest) == seg);
        if i == 0 {
            assert(seg =~= "install"@);
            assert(rule_candidates(t, q, form) == Seq::<(Seq<char>, bool)>::empty());
            assert(first_valid(Seq::<(Seq<char>, bool)>::empty()) is None);
        } else {
            assert(seg.len() != "install"@.len());
            let c = rule_candidates(t, q, form);
            assert(c == seq![(seg, true)]);
            assert(c.drop_first() =~= Seq::<(Seq<char>, bool)>::empty());
            assert(first_valid(c.drop_first()) is None);
            assert(!is_uuid_text(c[0].0));
        }
        assert(first_valid(rule_candidates(t, q, form)) is None);
    } else {
        // `desqta://theme/install/` starts `desqta://theme/install/?`: its
        // segment is empty, no theme id.
        assert(i == 1 && k == 0);
        let rest = t.skip(23);
        assert(t.subrange(0, 23) =~= q);
        assert(rest[0] == '?');
        assert(text::segment_len(rest) == 0);
        assert(rest.take(0) =~= Seq::<char>::empty());
        let c = rule_candidates(t, q, form);
        assert(c == seq![(Seq::<char>::empty(), true)]);
        assert(c.drop_first() =~= Seq::<(Seq<char>, bool)>::empty());
        assert(first_valid(c.drop_first()) is None);
        assert(!is_uuid_text(c[0].0));
        assert(first_valid(rule_candidates(t, q, form)) is None);
    }
}

/// The prefixes of theme-install links that give the theme as their path.
pub open spec fn path_link_prefixes() -> Seq<Seq<char>> {
    seq![
        "desqta://theme/install/"@,
        "desqta://theme/"@,
        "https://betterseqta.org/desqta/theme/"@,
        "https://www.betterseqta.org/desqta/theme/"@,
        "http://betterseqta.org/desqta/theme/"@,
        "http://www.betterseqta.org/desqta/theme/"@,
    ]
}

/// The position among the rules of the rule for each path prefix.
spec fn path_rule(i: int) -> int {
    if i < 2 {
        i
    } else {
        i + 6
    }
}

/// A link made of a path prefix and a UUID reads as that theme, applied:
/// every path-link form of the application's scheme and of the BetterSEQTA
/// web site is recognised.
pub proof fn law_path_links_read(i: int, u: Seq<char>)
    requires
        0 <= i < 6,
        is_hyphenated_uuid(u),
    ensures
        theme_install_link(path_link_prefixes()[i] + u) == Some((u, true)),
{
    reveal_strlit("desqta://theme/install/");
    reveal_strlit("desqta://theme/");
    reveal_strlit("https://betterseqta.org/desqta/theme/");
    reveal_strlit("https://www.betterseqta.org/desqta/theme/");
    reveal_strlit("http://betterseqta.org/desqta/theme/");
    reveal_strlit("http://www.betterseqta.org/desqta/theme/");
    reveal_strlit("install");
    let p = path_link_prefixes()[i];
    let t = p + u;
    let rules = link_rules();
    let r = path_rule(i);
    lemma_uuid_chars(u);
    assert(t[0] == p[0]);
    assert(t.last() == u.last());
    text::lemma_trim_unchanged(t);
    assert(rules[r].0 == p);
    // The rule's segment is the UUID.
    assert(t.subrange(0, p.len() as int) =~= p);
    assert(t.skip(p.len() as int) =~= u);
    text::lemma_segment_len_absent(u);
    assert(u.take(u.len() as int) =~= u);
    text::lemma_trim_unchanged(u);
    assert(u.len() != "install"@.len());
    let c = rule_candidates(t, rules[r].0, rules[r].1);
    assert(c == seq![(u, true)]);
    assert(c.drop_first() =~= Seq::<(Seq<char>, bool)>::empty());
    assert forall|k: int| 0 <= k < r implies first_valid(#[trigger] rule_candidates(t, rules[k].0, rules[k].1))
        is None by {
        lemma_earlier_path_rule_gives_nothing(i, u, k);
    }
    lemma_first_valid_rules(t, rules, r, (u, true));
}

/// The rules before the rule of a path link do not start it.
proof fn lemma_earlier_path_rule_gives_nothing(i: int, u: Seq<char>, k: int)
    requires
        0 <= i < 6,
        is_hyphenated_uuid(u),
        0 <= k < path_rule(i),
    ensures
        first_valid(rule_candidates(path_link_prefixes()[i] + u, link_rules()[k].0, link_rules()[k].1)) is None,
{
    reveal_strlit("desqta://theme/install/");
    reveal_strlit("desqta://theme/");
    reveal_strlit("desqta://theme/install?");
    reveal_strlit("desqta://theme/install/?");
    reveal_strlit("https://betterseqta.org/desqta/theme/install?");
    reveal_strlit("https://www.betterseqta.org/desqta/theme/install?");
    reveal_strlit("http://betterseqta.org/desqta/theme/install?");
    reveal_strlit("http://www.betterseqta.org/desqta/theme/install?");
    reveal_strlit("https://betterseqta.org/desqta/theme/");
    reveal_strlit("https://www.betterseqta.org/desqta/theme/");
    reveal_strlit("http://betterseqta.org/desqta/theme/");
    reveal_strlit("http://www.betterseqta.org/desqta/theme/");
    let p = path_link_prefixes()[i];
    let t = p + u;
    let q = link_rules()[k].0;
    assert(is_hex_digit(u[0]));
    assert(t[p.len() as int] == u[0]);
    assert forall|j: int| 0 <= j < p.len() implies t[j] == p[j] by {}
    // Where the rule goes on with `install`, the link has the UUID's first
    // digit, which is no `i`; otherwise the two differ early on.
    let idx: int = if i == 1 {
        15
    } else if i >= 2 && k < 4 {
        0
    } else if k == i + 2 {
        p.len() as int
    } else if i == 2 || i == 3 {
        if k == 4 || k == 5 || k == 8 {
            8
        } else {
            4
        }
    } else if k == 4 || k == 5 || k == 8 || k == 9 {
        4
    } else {
        7
    };
    assert(q[idx] != t[idx]);
    lemma_not_prefix(q, t, idx);
    assert(rule_candidates(t, q, link_rules()[k].1) == Seq::<(Seq<char>, bool)>::empty());
    assert(first_valid(Seq::<(Seq<char>, bool)>::empty()) is None);
}

} // verus!

//! Whether a connector can do what is claimed of it: its claims against its own descriptor.
use crate::inspect::{show_option, show_set, shown_option, shown_set};
use crate::json::{as_text, member, text_member, views, Fields, Json, JsonObject, JsonView};
use crate::keyed::{field, with_field, TextMap};
use crate::report::{note_wrong, wrong, Layer};
use crate::text::{concat3, join, joined, same_text, texts};
use vstd::prelude::*;

verus! {

/// Texts under their own keys.
pub open spec fn gathered(s: Seq<Seq<char>>) -> Seq<(Seq<char>, ())>
    decreases s.len(),
{
    if s.len() == 0 {
        Seq::empty()
    } else {
        with_field(gathered(s.drop_last()), s.last(), ())
    }
}

/// The keys of fields.
pub open spec fn keys_of<T>(f: Seq<(Seq<char>, T)>) -> Seq<Seq<char>> {
    f.map_values(|p: (Seq<char>, T)| p.0)
}

/// Texts in their order, each once.
pub open spec fn set_of(s: Seq<Seq<char>>) -> Seq<Seq<char>> {
    keys_of(gathered(s))
}

/// Texts in their order, each once.
pub fn sorted_set(v: &Vec<String>) -> (r: Vec<String>)
    ensures
        texts(r@) == set_of(texts(v@)),
{
    let ghost all = texts(v@);
    let mut m: TextMap<()> = TextMap::new();
    let mut i: usize = 0;
    assert(all.take(0) =~= Seq::<Seq<char>>::empty());
    while i < v.len()
        invariant
            i <= v@.len(),
            all == texts(v@),
            m@ == gathered(all.take(i as int)),
        decreases v@.len() - i,
    {
        assert(all.take(i + 1).drop_last() =~= all.take(i as int));
        assert(all.take(i + 1).last() == v@[i as int]@);
        m.insert(v[i].as_str(), ());
        i = i + 1;
    }
    assert(all.take(all.len() as int) =~= all);
    let n: usize = m.len();
    let mut out: Vec<String> = Vec::new();
    let mut k: usize = 0;
    while k < n
        invariant
            k <= n == m@.len(),
            out@.len() == k,
            forall|j: int| 0 <= j < k ==> (#[trigger] out@[j])@ == m@[j].0,
        decreases n - k,
    {
        out.push(m.key_at(k).to_owned());
        k = k + 1;
    }
    assert(texts(out@) =~= keys_of(m@));
    out
}

/// A text is in the set of texts where, and only where, it is among them.
pub proof fn sets_hold_what_they_are_of(s: Seq<Seq<char>>, x: Seq<char>)
    ensures
        field(gathered(s), x) is Some <==> s.contains(x),
    decreases s.len(),
{
    if s.len() > 0 {
        let init = s.drop_last();
        sets_hold_what_they_are_of(init, x);
        crate::keyed::set_field_reads_back(gathered(init), s.last(), (), x);
        if init.contains(x) {
            let i = choose|i: int| 0 <= i < init.len() && init[i] == x;
            assert(s[i] == x);
        }
        if s.contains(x) {
            let i = choose|i: int| 0 <= i < s.len() && s[i] == x;
            if i < init.len() {
                assert(init[i] == x);
            }
        }
        if s.last() == x {
            assert(s[s.len() - 1] == x);
        }
    }
}

/// What is claimed of a connector.
pub struct Claims {
    pub protocol: String,
    pub modes: Vec<String>,
    pub datatypes: Vec<String>,
    pub verbs: Vec<String>,
    pub features: Vec<String>,
    pub point_kinds: Vec<String>,
    pub subscribe: bool,
}

/// The texts among items.
pub open spec fn text_items(items: Seq<JsonView>) -> Seq<Seq<char>>
    decreases items.len(),
{
    if items.len() == 0 {
        Seq::empty()
    } else {
        let head = text_items(items.drop_last());
        match as_text(items.last()) {
            Some(t) => head.push(t),
            None => head,
        }
    }
}

/// The texts that a descriptor lists under a key.
pub open spec fn listed(caps: JsonView, key: Seq<char>) -> Seq<Seq<char>> {
    match member(caps, key) {
        Some(JsonView::Array(items)) => text_items(items),
        _ => Seq::empty(),
    }
}

/// The texts that a descriptor lists under a key.
pub fn list_under(caps: &Json, key: &str) -> (r: Vec<String>)
    ensures
        texts(r@) == listed(caps@, key@),
{
    let mut out: Vec<String> = Vec::new();
    assert(texts(out@) =~= Seq::<Seq<char>>::empty());
    let items: &Vec<Json> = match caps.get(key) {
        Some(v) => match v.as_array() {
            Some(a) => a,
            None => {
                return out;
            },
        },
        None => {
            return out;
        },
    };
    let ghost all = views(items@);
    let mut i: usize = 0;
    assert(all.take(0) =~= Seq::<JsonView>::empty());
    while i < items.len()
        invariant
            i <= items@.len(),
            all == views(items@),
            texts(out@) == text_items(all.take(i as int)),
        decreases items@.len() - i,
    {
        assert(all.take(i + 1).drop_last() =~= all.take(i as int));
        assert(all.take(i + 1).last() == items@[i as int]@);
        if let Some(t) = items[i].as_str() {
            let ghost was = texts(out@);
            let s: String = t.to_owned();
            out.push(s);
            assert(texts(out@) =~= was.push(s@));
        }
        i = i + 1;
    }
    assert(all.take(all.len() as int) =~= all);
    out
}

/// What is wrong where a claim and a descriptor differ.
pub open spec fn set_errors(what: Seq<char>, claimed: Seq<Seq<char>>, live: Seq<Seq<char>>) -> Seq<
    Seq<char>,
> {
    wrong(
        set_of(claimed) != set_of(live),
        what + ": manifest claims "@ + shown_set(set_of(claimed))
            + ", capability descriptor says "@ + shown_set(set_of(live)),
    )
}

fn same_list(a: &Vec<String>, b: &Vec<String>) -> (r: bool)
    ensures
        r == (texts(a@) == texts(b@)),
{
    if a.len() != b.len() {
        assert(texts(a@).len() != texts(b@).len());
        return false;
    }
    let mut i: usize = 0;
    while i < a.len()
        invariant
            i <= a@.len() == b@.len(),
            forall|k: int| 0 <= k < i ==> texts(a@)[k] == texts(b@)[k],
        decreases a@.len() - i,
    {
        if !same_text(a[i].as_str(), b[i].as_str()) {
            assert(texts(a@)[i as int] != texts(b@)[i as int]);
            return false;
        }
        i = i + 1;
    }
    assert(texts(a@) =~= texts(b@));
    true
}

fn note_set(errors: &mut Vec<String>, what: &str, claimed: &Vec<String>, live: &Vec<String>)
    ensures
        texts(final(errors)@) == texts(old(errors)@) + set_errors(
            what@,
            texts(claimed@),
            texts(live@),
        ),
{
    let c: Vec<String> = sorted_set(claimed);
    let l: Vec<String> = sorted_set(live);
    let cs: String = show_set(&c);
    let ls: String = show_set(&l);
    let mut text: String = concat3(what, ": manifest claims ", cs.as_str());
    text.append(", capability descriptor says ");
    text.append(ls.as_str());
    note_wrong(errors, !same_list(&c, &l), text);
}

/// The verbs that are claimed, with those that the runtime adds.
pub open spec fn claimed_verbs(verbs: Seq<Seq<char>>) -> Seq<Seq<char>> {
    let v = verbs + seq!["set-config"@, "define-device"@, "remove-device"@];
    if v.contains("write"@) {
        v.push("write-batch"@)
    } else {
        v
    }
}

fn claim_verbs(verbs: &Vec<String>) -> (r: Vec<String>)
    ensures
        texts(r@) == claimed_verbs(texts(verbs@)),
{
    let mut v: Vec<String> = copy_list(verbs);
    v.push("set-config".to_owned());
    v.push("define-device".to_owned());
    v.push("remove-device".to_owned());
    assert(texts(v@) =~= texts(verbs@) + seq!["set-config"@, "define-device"@, "remove-device"@]);
    if crate::text::contains_text(&v, "write") {
        let ghost was = texts(v@);
        v.push("write-batch".to_owned());
        assert(texts(v@) =~= was.push("write-batch"@));
    }
    v
}

fn copy_list(v: &Vec<String>) -> (r: Vec<String>)
    ensures
        texts(r@) == texts(v@),
{
    let mut out: Vec<String> = Vec::new();
    let mut i: usize = 0;
    while i < v.len()
        invariant
            i <= v@.len(),
            out@.len() == i,
            forall|k: int| 0 <= k < i ==> (#[trigger] out@[k])@ == v@[k]@,
        decreases v@.len() - i,
    {
        out.push(v[i].clone());
        i = i + 1;
    }
    assert(texts(out@) =~= texts(v@));
    out
}

/// Whether a descriptor says that points can be pushed.
pub open spec fn says_subscribe(caps: JsonView) -> bool {
    member(caps, "subscribe"@) == Some(JsonView::Bool(true))
}

fn subscribes(caps: &Json) -> (r: bool)
    ensures
        r == says_subscribe(caps@),
{
    match caps.get("subscribe") {
        Some(v) => {
            proof {
                v.lemma_view();
            }
            match v {
                Json::Bool(b) => *b,
                _ => false,
            }
        },
        None => false,
    }
}

/// A truth value as text.
pub open spec fn truth_text(b: bool) -> Seq<char> {
    if b {
        "true"@
    } else {
        "false"@
    }
}

fn truth(b: bool) -> (r: &'static str)
    ensures
        r@ == truth_text(b),
{
    if b {
        "true"
    } else {
        "false"
    }
}

/// What is wrong where the protocol that is claimed is not the connector's.
pub open spec fn protocol_errors(claims: Claims, caps: JsonView) -> Seq<Seq<char>> {
    wrong(
        text_member(caps, "protocol"@) != Some(claims.protocol@),
        "protocol: manifest '"@ + claims.protocol@ + "' vs descriptor "@ + shown_option(
            member(caps, "protocol"@),
        ),
    )
}

/// What is wrong with the kinds of points that are claimed, where any are.
pub open spec fn kinds_errors(claims: Claims, caps: JsonView) -> Seq<Seq<char>> {
    if claims.point_kinds@.len() == 0 {
        Seq::empty()
    } else {
        set_errors("point_kinds"@, texts(claims.point_kinds@), listed(caps, "point_kinds"@))
    }
}

/// What is wrong where pushing is claimed and not offered, or offered and not claimed.
pub open spec fn subscribe_errors(claims: Claims, caps: JsonView) -> Seq<Seq<char>> {
    wrong(
        says_subscribe(caps) != claims.subscribe,
        "subscribe: manifest "@ + truth_text(claims.subscribe) + " vs descriptor "@ + truth_text(
            says_subscribe(caps),
        ),
    )
}

/// Where the claims and a descriptor differ. The descriptor is one with what the runtime adds.
pub open spec fn mismatches(claims: Claims, caps: JsonView) -> Seq<Seq<char>> {
    protocol_errors(claims, caps) + set_errors(
        "modes"@,
        texts(claims.modes@),
        listed(caps, "modes"@),
    ) + set_errors("datatypes"@, texts(claims.datatypes@), listed(caps, "datatypes"@))
        + set_errors(
        "command_verbs"@,
        claimed_verbs(texts(claims.verbs@)),
        listed(caps, "command_verbs"@),
    ) + set_errors(
        "features"@,
        texts(claims.features@).push("management"@),
        listed(caps, "features"@),
    ) + kinds_errors(claims, caps) + subscribe_errors(claims, caps)
}

proof fn seven_in_turn(
    a: Seq<Seq<char>>,
    b: Seq<Seq<char>>,
    c: Seq<Seq<char>>,
    d: Seq<Seq<char>>,
    e: Seq<Seq<char>>,
    f: Seq<Seq<char>>,
    g: Seq<Seq<char>>,
)
    ensures
        Seq::<Seq<char>>::empty() + a + b + c + d + e + f + g == a + b + c + d + e + f + g,
{
    assert(Seq::<Seq<char>>::empty() + a =~= a);
}

fn note_protocol(errors: &mut Vec<String>, claims: &Claims, caps: &Json)
    ensures
        texts(final(errors)@) == texts(old(errors)@) + protocol_errors(*claims, caps@),
{
    let bad: bool = match caps.get_str("protocol") {
        Some(p) => !same_text(p, claims.protocol.as_str()),
        None => true,
    };
    let shown: String = show_option(caps.get("protocol"));
    let mut text: String = concat3(
        "protocol: manifest '",
        claims.protocol.as_str(),
        "' vs descriptor ",
    );
    text.append(shown.as_str());
    note_wrong(errors, bad, text);
}

fn note_kinds(errors: &mut Vec<String>, claims: &Claims, caps: &Json)
    ensures
        texts(final(errors)@) == texts(old(errors)@) + kinds_errors(*claims, caps@),
{
    let ghost before = texts(errors@);
    if claims.point_kinds.len() == 0 {
        assert(before + Seq::<Seq<char>>::empty() =~= before);
    } else {
        note_set(errors, "point_kinds", &claims.point_kinds, &list_under(caps, "point_kinds"));
    }
}

fn note_subscribe(errors: &mut Vec<String>, claims: &Claims, caps: &Json)
    ensures
        texts(final(errors)@) == texts(old(errors)@) + subscribe_errors(*claims, caps@),
{
    let live: bool = subscribes(caps);
    let mut text: String = concat3(
        "subscribe: manifest ",
        truth(claims.subscribe),
        " vs descriptor ",
    );
    text.append(truth(live));
    note_wrong(errors, live != claims.subscribe, text);
}

/// Where the claims and a descriptor differ.
pub fn manifest_caps_mismatches(claims: &Claims, caps: &Json) -> (r: Vec<String>)
    ensures
        texts(r@) == mismatches(*claims, caps@),
{
    let mut errors: Vec<String> = Vec::new();
    assert(texts(errors@) =~= Seq::<Seq<char>>::empty());
    note_protocol(&mut errors, claims, caps);
    note_set(&mut errors, "modes", &claims.modes, &list_under(caps, "modes"));
    note_set(&mut errors, "datatypes", &claims.datatypes, &list_under(caps, "datatypes"));
    let verbs: Vec<String> = claim_verbs(&claims.verbs);
    note_set(&mut errors, "command_verbs", &verbs, &list_under(caps, "command_verbs"));
    let mut features: Vec<String> = copy_list(&claims.features);
    let ghost own = texts(features@);
    features.push("management".to_owned());
    assert(texts(features@) =~= own.push("management"@));
    note_set(&mut errors, "features", &features, &list_under(caps, "features"));
    note_kinds(&mut errors, claims, caps);
    note_subscribe(&mut errors, claims, caps);
    proof {
        seven_in_turn(
            protocol_errors(*claims, caps@),
            set_errors("modes"@, texts(claims.modes@), listed(caps@, "modes"@)),
            set_errors("datatypes"@, texts(claims.datatypes@), listed(caps@, "datatypes"@)),
            set_errors(
                "command_verbs"@,
                claimed_verbs(texts(claims.verbs@)),
                listed(caps@, "command_verbs"@),
            ),
            set_errors(
                "features"@,
                texts(claims.features@).push("management"@),
                listed(caps@, "features"@),
            ),
            kinds_errors(*claims, caps@),
            subscribe_errors(*claims, caps@),
        );
    }
    errors
}

/// The items with a text at the end, unless it is among them.
pub open spec fn with_item(items: Seq<JsonView>, t: Seq<char>) -> Seq<JsonView> {
    if items.contains(JsonView::Text(t)) {
        items
    } else {
        items.push(JsonView::Text(t))
    }
}

/// A list with a text at the end, unless it is there. What is no list stays what it is.
pub open spec fn list_with(v: JsonView, t: Seq<char>) -> JsonView {
    match v {
        JsonView::Array(items) => JsonView::Array(with_item(items, t)),
        _ => v,
    }
}

fn extend(list: Json, t: &str) -> (r: Json)
    ensures
        r@ == list_with(list@, t@),
{
    proof {
        list.lemma_view();
    }
    match list {
        Json::Array(items) => {
            let mut items: Vec<Json> = items;
            let ghost all = views(items@);
            let mut i: usize = 0;
            while i < items.len()
                invariant
                    i <= items@.len(),
                    all == views(items@),
                    list@ == JsonView::Array(all),
                    forall|k: int| 0 <= k < i ==> all[k] != JsonView::Text(t@),
                decreases items@.len() - i,
            {
                assert(all[i as int] == items@[i as int]@);
                let here: bool = match items[i].as_str() {
                    Some(s) => same_text(s, t),
                    None => false,
                };
                if here {
                    assert(all[i as int] == JsonView::Text(t@));
                    assert(all.contains(JsonView::Text(t@)));
                    return Json::of_items(items);
                }
                i = i + 1;
            }
            let x: Json = Json::text(t);
            items.push(x);
            assert(views(items@) =~= all.push(x@));
            Json::of_items(items)
        },
        other => other,
    }
}

/// The list under a key, or null.
pub open spec fn list_at(f: Fields, key: Seq<char>) -> JsonView {
    match field(f, key) {
        Some(v) => v,
        None => JsonView::Null,
    }
}

/// The verbs of a descriptor with those that the runtime adds.
pub open spec fn runtime_verbs(v: JsonView) -> JsonView {
    let all = list_with(list_with(list_with(v, "set-config"@), "define-device"@), "remove-device"@);
    match all {
        JsonView::Array(items) => if items.contains(JsonView::Text("write"@)) {
            list_with(all, "write-batch"@)
        } else {
            all
        },
        _ => all,
    }
}

/// A module's descriptor with what the runtime adds. A list that is missing becomes null.
pub open spec fn augmented_fields(f: Fields) -> Fields {
    let g = with_field(f, "command_verbs"@, runtime_verbs(list_at(f, "command_verbs"@)));
    with_field(g, "features"@, list_with(list_at(g, "features"@), "management"@))
}

fn take_list(caps: &JsonObject, key: &str) -> (r: Json)
    ensures
        r@ == list_at(caps@, key@),
{
    match caps.get(key) {
        Some(v) => v.clone(),
        None => Json::null(),
    }
}

fn holds_text(list: &Json, t: &str) -> (r: bool)
    ensures
        r == match list@ {
            JsonView::Array(items) => items.contains(JsonView::Text(t@)),
            _ => false,
        },
{
    match list.as_array() {
        Some(items) => {
            let ghost all = views(items@);
            let mut i: usize = 0;
            while i < items.len()
                invariant
                    i <= items@.len(),
                    all == views(items@),
                    list@ == JsonView::Array(all),
                    forall|k: int| 0 <= k < i ==> all[k] != JsonView::Text(t@),
                decreases items@.len() - i,
            {
                assert(all[i as int] == items@[i as int]@);
                let here: bool = match items[i].as_str() {
                    Some(s) => same_text(s, t),
                    None => false,
                };
                if here {
                    assert(all[i as int] == JsonView::Text(t@));
                    return true;
                }
                i = i + 1;
            }
            false
        },
        None => false,
    }
}

/// Adds to a module's descriptor what the runtime adds, so that it compares like the one that is
/// published.
pub fn augment_caps(caps: &mut JsonObject)
    ensures
        final(caps)@ == augmented_fields(old(caps)@),
{
    let verbs: Json = take_list(caps, "command_verbs");
    let mut all: Json = extend(
        extend(extend(verbs, "set-config"), "define-device"),
        "remove-device",
    );
    if holds_text(&all, "write") {
        all = extend(all, "write-batch");
    }
    caps.insert("command_verbs", all);
    let features: Json = take_list(caps, "features");
    caps.insert("features", extend(features, "management"));
}

/// Notes whether the claims and the connector's descriptor agree.
pub fn check_b9_manifest_agreement(claims: &Claims, caps: &Json, layer: &mut Layer)
    ensures
        final(layer)@ == old(layer)@.push(
            crate::report::concluded(
                "B9-manifest"@,
                "conformance manifest agrees with the live capability descriptor"@,
                if mismatches(*claims, caps@).len() == 0 {
                    Ok(None)
                } else {
                    Err(joined(mismatches(*claims, caps@), "\n"@))
                },
            ),
        ),
        final(layer).name == old(layer).name,
{
    let found: Vec<String> = manifest_caps_mismatches(claims, caps);
    assert(texts(found@).len() == found@.len());
    if found.len() == 0 {
        layer.check(
            "B9-manifest",
            "conformance manifest agrees with the live capability descriptor",
            Ok(None),
        );
    } else {
        layer.check(
            "B9-manifest",
            "conformance manifest agrees with the live capability descriptor",
            Err(join(&found, "\n")),
        );
    }
}

proof fn same_sets_hold_the_same(a: Seq<Seq<char>>, b: Seq<Seq<char>>, x: Seq<char>)
    requires
        set_of(a) == set_of(b),
    ensures
        a.contains(x) <==> b.contains(x),
{
    let f = gathered(a);
    let g = gathered(b);
    assert(f.len() == set_of(a).len() && g.len() == set_of(b).len());
    assert forall|i: int| 0 <= i < f.len() implies f[i] == g[i] by {
        assert(set_of(a)[i] == f[i].0);
        assert(set_of(b)[i] == g[i].0);
    }
    assert(f =~= g);
    sets_hold_what_they_are_of(a, x);
    sets_hold_what_they_are_of(b, x);
}

/// The verbs that are claimed are those of the module, those that change the configuration, and
/// the one that writes several points where one writes one.
pub proof fn claimed_verbs_are_those_told(verbs: Seq<Seq<char>>, verb: Seq<char>)
    ensures
        claimed_verbs(verbs).contains(verb) <==> verbs.contains(verb) || verb == "set-config"@
            || verb == "define-device"@ || verb == "remove-device"@ || (verb == "write-batch"@
            && verbs.contains("write"@)),
{
    let own = seq!["set-config"@, "define-device"@, "remove-device"@];
    let v = verbs + own;
    reveal_strlit("write");
    reveal_strlit("set-config");
    reveal_strlit("define-device");
    reveal_strlit("remove-device");
    assert("write"@.len() == 5 && "set-config"@.len() == 10 && "define-device"@.len() == 13
        && "remove-device"@.len() == 13);
    assert(v.contains("write"@) <==> verbs.contains("write"@)) by {
        joined_contains(verbs, own, "write"@);
        assert(!own.contains("write"@));
    }
    joined_contains(verbs, own, verb);
    assert(own[0] == "set-config"@ && own[1] == "define-device"@ && own[2] == "remove-device"@);
    assert(own.contains(verb) <==> verb == "set-config"@ || verb == "define-device"@ || verb
        == "remove-device"@);
    if v.contains("write"@) {
        let all = v.push("write-batch"@);
        assert(all[v.len() as int] == "write-batch"@);
        if v.contains(verb) {
            let i = choose|i: int| 0 <= i < v.len() && v[i] == verb;
            assert(all[i] == verb);
        }
        if all.contains(verb) {
            let i = choose|i: int| 0 <= i < all.len() && all[i] == verb;
            if i < v.len() {
                assert(v[i] == verb);
            }
        }
    }
}

proof fn joined_contains(a: Seq<Seq<char>>, b: Seq<Seq<char>>, x: Seq<char>)
    ensures
        (a + b).contains(x) <==> a.contains(x) || b.contains(x),
{
    let all = a + b;
    if a.contains(x) {
        let i = choose|i: int| 0 <= i < a.len() && a[i] == x;
        assert(all[i] == x);
    }
    if b.contains(x) {
        let i = choose|i: int| 0 <= i < b.len() && b[i] == x;
        assert(all[a.len() + i] == x);
    }
    if all.contains(x) {
        let i = choose|i: int| 0 <= i < all.len() && all[i] == x;
        if i < a.len() {
            assert(a[i] == x);
        } else {
            assert(b[i - a.len()] == x);
        }
    }
}

/// Claims are kept only where the connector is of the protocol, pushes as is claimed, and does
/// exactly what is claimed: the modes, the datatypes, the verbs and the features, and the kinds of
/// points where any are claimed.
pub proof fn claims_are_kept_where_they_match(claims: Claims, caps: JsonView, x: Seq<char>)
    requires
        mismatches(claims, caps).len() == 0,
    ensures
        text_member(caps, "protocol"@) == Some(claims.protocol@),
        claims.subscribe <==> member(caps, "subscribe"@) == Some(JsonView::Bool(true)),
        texts(claims.modes@).contains(x) <==> listed(caps, "modes"@).contains(x),
        texts(claims.datatypes@).contains(x) <==> listed(caps, "datatypes"@).contains(x),
        claimed_verbs(texts(claims.verbs@)).contains(x) <==> listed(
            caps,
            "command_verbs"@,
        ).contains(x),
        texts(claims.features@).contains(x) || x == "management"@ <==> listed(
            caps,
            "features"@,
        ).contains(x),
        claims.point_kinds@.len() > 0 ==> (texts(claims.point_kinds@).contains(x) <==> listed(
            caps,
            "point_kinds"@,
        ).contains(x)),
{
    let features = texts(claims.features@);
    same_sets_hold_the_same(texts(claims.modes@), listed(caps, "modes"@), x);
    same_sets_hold_the_same(texts(claims.datatypes@), listed(caps, "datatypes"@), x);
    same_sets_hold_the_same(
        claimed_verbs(texts(claims.verbs@)),
        listed(caps, "command_verbs"@),
        x,
    );
    same_sets_hold_the_same(features.push("management"@), listed(caps, "features"@), x);
    assert(features.push("management"@) =~= features + seq!["management"@]);
    joined_contains(features, seq!["management"@], x);
    assert(seq!["management"@][0] == "management"@);
    if claims.point_kinds@.len() > 0 {
        same_sets_hold_the_same(texts(claims.point_kinds@), listed(caps, "point_kinds"@), x);
    }
}

/// Where a connector does what is claimed, in the order of the claims, nothing is found to
/// differ.
pub proof fn kept_claims_do_not_differ(claims: Claims, caps: JsonView)
    requires
        text_member(caps, "protocol"@) == Some(claims.protocol@),
        claims.subscribe <==> member(caps, "subscribe"@) == Some(JsonView::Bool(true)),
        listed(caps, "modes"@) == texts(claims.modes@),
        listed(caps, "datatypes"@) == texts(claims.datatypes@),
        listed(caps, "command_verbs"@) == claimed_verbs(texts(claims.verbs@)),
        listed(caps, "features"@) == texts(claims.features@).push("management"@),
        listed(caps, "point_kinds"@) == texts(claims.point_kinds@),
    ensures
        mismatches(claims, caps).len() == 0,
{
}

/// What a descriptor lists under a key are the texts of the array there.
pub proof fn listed_texts_are_those_of_the_array(items: Seq<JsonView>, t: Seq<char>)
    ensures
        text_items(items).contains(t) <==> items.contains(JsonView::Text(t)),
    decreases items.len(),
{
    if items.len() > 0 {
        let before = items.drop_last();
        let head = text_items(before);
        let all = text_items(items);
        listed_texts_are_those_of_the_array(before, t);
        assert(items[items.len() - 1] == items.last());
        if before.contains(JsonView::Text(t)) {
            let i = choose|i: int| 0 <= i < before.len() && before[i] == JsonView::Text(t);
            assert(items[i] == JsonView::Text(t));
        }
        if items.contains(JsonView::Text(t)) && items.last() != JsonView::Text(t) {
            let i = choose|i: int| 0 <= i < items.len() && items[i] == JsonView::Text(t);
            assert(before[i] == JsonView::Text(t));
        }
        if head.contains(t) {
            let i = choose|i: int| 0 <= i < head.len() && head[i] == t;
            assert(all[i] == t);
        }
        if items.last() == JsonView::Text(t) {
            assert(all[head.len() as int] == t);
        }
        if all.contains(t) && !head.contains(t) {
            let i = choose|i: int| 0 <= i < all.len() && all[i] == t;
            if i < head.len() {
                assert(head[i] == t);
            }
        }
    }
}

proof fn list_with_contains(items: Seq<JsonView>, t: Seq<char>, x: JsonView)
    ensures
        with_item(items, t).contains(x) <==> items.contains(x) || x == JsonView::Text(t),
{
    let all = with_item(items, t);
    if items.contains(x) {
        let i = choose|i: int| 0 <= i < items.len() && items[i] == x;
        assert(all[i] == x);
    }
    if !items.contains(JsonView::Text(t)) {
        assert(all[items.len() as int] == JsonView::Text(t));
    }
    if all.contains(x) {
        let i = choose|i: int| 0 <= i < all.len() && all[i] == x;
        if i < items.len() {
            assert(items[i] == x);
        }
    }
}

/// A descriptor with what the runtime adds lists the verbs of the module and the added ones, and
/// everything else as the module does.
pub proof fn descriptors_are_extended_by_the_runtime(f: Fields, verbs: Seq<JsonView>, x: JsonView, key: Seq<char>)
    requires
        field(f, "command_verbs"@) == Some(JsonView::Array(verbs)),
    ensures
        field(augmented_fields(f), "command_verbs"@) matches Some(JsonView::Array(all)) && (
        all.contains(x) <==> verbs.contains(x) || x == JsonView::Text("set-config"@) || x
            == JsonView::Text("define-device"@) || x == JsonView::Text("remove-device"@) || (x
            == JsonView::Text("write-batch"@) && verbs.contains(JsonView::Text("write"@)))),
        field(f, "features"@) matches Some(JsonView::Array(own)) ==> (field(
            augmented_fields(f),
            "features"@,
        ) matches Some(JsonView::Array(all)) && (all.contains(x) <==> own.contains(x) || x
            == JsonView::Text("management"@))),
        key != "command_verbs"@ && key != "features"@ ==> field(augmented_fields(f), key) == field(
            f,
            key,
        ),
{
    broadcast use crate::keyed::field_once_set;

    reveal_strlit("command_verbs");
    reveal_strlit("features");
    reveal_strlit("write");
    reveal_strlit("set-config");
    reveal_strlit("define-device");
    reveal_strlit("remove-device");
    assert("command_verbs"@.len() == 13 && "features"@.len() == 8);
    assert("write"@.len() == 5 && "set-config"@.len() == 10 && "define-device"@.len() == 13
        && "remove-device"@.len() == 13);
    let a = with_item(verbs, "set-config"@);
    let b = with_item(a, "define-device"@);
    let c = with_item(b, "remove-device"@);
    let write = JsonView::Text("write"@);
    list_with_contains(verbs, "set-config"@, x);
    list_with_contains(a, "define-device"@, x);
    list_with_contains(b, "remove-device"@, x);
    list_with_contains(c, "write-batch"@, x);
    list_with_contains(verbs, "set-config"@, write);
    list_with_contains(a, "define-device"@, write);
    list_with_contains(b, "remove-device"@, write);
    assert(c.contains(write) <==> verbs.contains(write));
    if let Some(JsonView::Array(own)) = field(f, "features"@) {
        list_with_contains(own, "management"@, x);
    }
}

} // verus!

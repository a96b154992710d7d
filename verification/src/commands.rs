//! The command types that thin-edge knows a connector's verbs by.
use crate::keyed::{field, TextMap};
use crate::text::{
    contains_text, push_distinct, same_text, str_of, texts, with_distinct,
    with_distinct_keeps_distinct,
};
use vstd::prelude::*;

verus! {

/// The command type of a verb.
pub open spec fn command_type(verb: Seq<char>) -> Option<Seq<char>> {
    if verb == "write"@ {
        Some("ot_write"@)
    } else if verb == "write-batch"@ {
        Some("ot_write_batch"@)
    } else if verb == "set-config"@ {
        Some("ot_set_config"@)
    } else if verb == "define-device"@ {
        Some("ot_define_device"@)
    } else if verb == "remove-device"@ {
        Some("ot_remove_device"@)
    } else {
        None
    }
}

/// The verb of a command type.
pub open spec fn command_verb(command_type: Seq<char>) -> Option<Seq<char>> {
    if command_type == "ot_write"@ {
        Some("write"@)
    } else if command_type == "ot_write_batch"@ {
        Some("write-batch"@)
    } else if command_type == "ot_set_config"@ {
        Some("set-config"@)
    } else if command_type == "ot_define_device"@ {
        Some("define-device"@)
    } else if command_type == "ot_remove_device"@ {
        Some("remove-device"@)
    } else {
        None
    }
}

/// A verb that changes the configuration of the connector.
pub open spec fn management_verb(verb: Seq<char>) -> bool {
    verb == "set-config"@ || verb == "define-device"@ || verb == "remove-device"@
}

/// What aliases stand for: an alias for a command type, in the order of the aliases.
pub type Aliases = Seq<(Seq<char>, String)>;

/// The verb of a command type or of an alias of one. An alias stands for a command type, never
/// for another alias.
pub open spec fn aliased_verb(command_type: Seq<char>, aliases: Aliases) -> Option<Seq<char>> {
    match field(aliases, command_type) {
        Some(canonical) => command_verb(canonical@),
        None => command_verb(command_type),
    }
}

/// The command type of a verb.
pub fn type_of_verb(verb: &str) -> (r: Option<&'static str>)
    ensures
        str_of(r) == command_type(verb@),
{
    if same_text(verb, "write") {
        Some("ot_write")
    } else if same_text(verb, "write-batch") {
        Some("ot_write_batch")
    } else if same_text(verb, "set-config") {
        Some("ot_set_config")
    } else if same_text(verb, "define-device") {
        Some("ot_define_device")
    } else if same_text(verb, "remove-device") {
        Some("ot_remove_device")
    } else {
        None
    }
}

fn canonical_verb(command_type: &str) -> (r: Option<&'static str>)
    ensures
        str_of(r) == command_verb(command_type@),
{
    if same_text(command_type, "ot_write") {
        Some("write")
    } else if same_text(command_type, "ot_write_batch") {
        Some("write-batch")
    } else if same_text(command_type, "ot_set_config") {
        Some("set-config")
    } else if same_text(command_type, "ot_define_device") {
        Some("define-device")
    } else if same_text(command_type, "ot_remove_device") {
        Some("remove-device")
    } else {
        None
    }
}

/// The verb that a command type stands for, by the aliases first.
pub fn verb_of_type(command_type: &str, aliases: &TextMap<String>) -> (r: Option<&'static str>)
    ensures
        str_of(r) == aliased_verb(command_type@, aliases@),
{
    match aliases.get(command_type) {
        Some(canonical) => canonical_verb(canonical.as_str()),
        None => canonical_verb(command_type),
    }
}

/// Whether a verb changes the configuration of the connector.
pub fn is_management_verb(verb: &str) -> (r: bool)
    ensures
        r == management_verb(verb@),
{
    same_text(verb, "set-config") || same_text(verb, "define-device") || same_text(
        verb,
        "remove-device",
    )
}

/// The command types of verbs, each once: none of a verb that changes the configuration.
pub open spec fn verb_types(verbs: Seq<Seq<char>>) -> Seq<Seq<char>>
    decreases verbs.len(),
{
    if verbs.len() == 0 {
        Seq::empty()
    } else {
        let head = verb_types(verbs.drop_last());
        match command_type(verbs.last()) {
            Some(t) => if management_verb(verbs.last()) {
                head
            } else {
                with_distinct(head, t)
            },
            None => head,
        }
    }
}

/// An alias that devices are commanded by: of the type of a verb that the module has, and that
/// does not change the configuration.
pub open spec fn device_alias(verbs: Seq<Seq<char>>, canonical: Seq<char>) -> bool {
    match command_verb(canonical) {
        Some(v) => !management_verb(v) && verbs.contains(v),
        None => false,
    }
}

/// `types` with the aliases that devices are commanded by.
pub open spec fn with_aliases(
    types: Seq<Seq<char>>,
    verbs: Seq<Seq<char>>,
    aliases: Aliases,
) -> Seq<Seq<char>>
    decreases aliases.len(),
{
    if aliases.len() == 0 {
        types
    } else {
        let head = with_aliases(types, verbs, aliases.drop_last());
        if device_alias(verbs, aliases.last().1@) {
            with_distinct(head, aliases.last().0)
        } else {
            head
        }
    }
}

/// The command types that a device is commanded by.
pub open spec fn device_types(verbs: Seq<Seq<char>>, aliases: Aliases) -> Seq<Seq<char>> {
    with_aliases(verb_types(verbs), verbs, aliases)
}

/// The command types that are answered for a device: those of the module's verbs, and their
/// aliases.
pub fn device_command_types(module_verbs: &Vec<String>, aliases: &TextMap<String>) -> (r: Vec<
    String,
>)
    ensures
        texts(r@) == device_types(texts(module_verbs@), aliases@),
{
    let ghost verbs = texts(module_verbs@);
    let mut types: Vec<String> = Vec::new();
    let mut i: usize = 0;
    assert(verbs.take(0) =~= Seq::<Seq<char>>::empty());
    assert(texts(types@) =~= Seq::<Seq<char>>::empty());
    while i < module_verbs.len()
        invariant
            i <= module_verbs@.len(),
            verbs == texts(module_verbs@),
            texts(types@) == verb_types(verbs.take(i as int)),
        decreases module_verbs@.len() - i,
    {
        let verb: &str = module_verbs[i].as_str();
        assert(verbs.take(i + 1).drop_last() =~= verbs.take(i as int));
        assert(verbs.take(i + 1).last() == verb@);
        if !is_management_verb(verb) {
            if let Some(t) = type_of_verb(verb) {
                push_distinct(&mut types, t);
            }
        }
        i = i + 1;
    }
    assert(verbs.take(verbs.len() as int) =~= verbs);
    let n: usize = aliases.len();
    let mut k: usize = 0;
    assert(aliases@.take(0) =~= Seq::empty());
    while k < n
        invariant
            k <= n,
            n == aliases@.len(),
            verbs == texts(module_verbs@),
            texts(types@) == with_aliases(verb_types(verbs), verbs, aliases@.take(k as int)),
        decreases n - k,
    {
        assert(aliases@.take(k + 1).drop_last() =~= aliases@.take(k as int));
        assert(aliases@.take(k + 1).last() == aliases@[k as int]);
        if let Some(verb) = canonical_verb(aliases.value_at(k).as_str()) {
            if !is_management_verb(verb) && contains_text(module_verbs, verb) {
                push_distinct(&mut types, aliases.key_at(k));
            }
        }
        k = k + 1;
    }
    assert(aliases@.take(n as int) =~= aliases@);
    types
}

/// The topic of the retained marker that says that a device has a command type.
pub fn capability_topic(device: &str, command_type: &str) -> (r: String)
    ensures
        r@ == "te/device/"@ + device@ + "///cmd/"@ + command_type@,
{
    let mut out: String = "te/device/".to_owned();
    out.append(device);
    out.append("///cmd/");
    out.append(command_type);
    out
}

/// Without aliases, the verb of a verb's command type is the verb, and the command type of a
/// command type's verb is the command type.
pub proof fn verbs_and_types_round_trip(x: Seq<char>)
    ensures
        command_type(x) is Some ==> command_verb(command_type(x)->0) == Some(x),
        command_verb(x) is Some ==> command_type(command_verb(x)->0) == Some(x),
{
    reveal_strlit("write");
    reveal_strlit("write-batch");
    reveal_strlit("set-config");
    reveal_strlit("define-device");
    reveal_strlit("remove-device");
    reveal_strlit("ot_write");
    reveal_strlit("ot_write_batch");
    reveal_strlit("ot_set_config");
    reveal_strlit("ot_define_device");
    reveal_strlit("ot_remove_device");
    assert("write"@[0] == 'w' && "write-batch"@.len() == 11 && "write"@.len() == 5);
    assert("set-config"@[0] == 's' && "define-device"@[0] == 'd' && "remove-device"@[0] == 'r');
    assert("ot_write"@.len() == 8 && "ot_write_batch"@.len() == 14 && "ot_set_config"@.len() == 13);
    assert("ot_define_device"@[3] == 'd' && "ot_remove_device"@[3] == 'r');
    assert("ot_define_device"@.len() == 16 && "ot_remove_device"@.len() == 16);
}

/// The command types that devices are commanded by are distinct, and each is the type of a verb
/// of the module that does not change the configuration, or an alias of such a type.
pub proof fn device_types_are_answered(verbs: Seq<Seq<char>>, aliases: Aliases)
    ensures
        device_types(verbs, aliases).no_duplicates(),
        forall|t: Seq<char>| #[trigger]
            device_types(verbs, aliases).contains(t) <==> answered_type(verbs, t)
                || answered_alias(verbs, aliases, t),
    decreases aliases.len(),
{
    verb_types_are_answered(verbs);
    if aliases.len() > 0 {
        let init = aliases.drop_last();
        let last = aliases.last();
        device_types_are_answered(verbs, init);
        let head = device_types(verbs, init);
        with_distinct_keeps_distinct(head, last.0);
        assert forall|t: Seq<char>| #[trigger]
            device_types(verbs, aliases).contains(t) <==> answered_type(verbs, t)
                || answered_alias(verbs, aliases, t) by {
            assert(head.contains(t) <==> answered_type(verbs, t) || answered_alias(verbs, init, t));
            if answered_alias(verbs, init, t) {
                let i = choose|i: int|
                    0 <= i < init.len() && (#[trigger] init[i]).0 == t && device_alias(
                        verbs,
                        init[i].1@,
                    );
                assert(aliases[i] == init[i]);
            }
            if answered_alias(verbs, aliases, t) {
                let i = choose|i: int|
                    0 <= i < aliases.len() && (#[trigger] aliases[i]).0 == t && device_alias(
                        verbs,
                        aliases[i].1@,
                    );
                if i < init.len() {
                    assert(init[i] == aliases[i]);
                }
            }
            if device_alias(verbs, last.1@) && t == last.0 {
                assert(aliases[aliases.len() - 1].0 == t);
            }
        }
    }
}

/// The command type of a verb of the module that does not change the configuration.
pub open spec fn answered_type(verbs: Seq<Seq<char>>, t: Seq<char>) -> bool {
    exists|i: int|
        0 <= i < verbs.len() && !management_verb(#[trigger] verbs[i]) && command_type(verbs[i])
            == Some(t)
}

/// An alias of such a command type.
pub open spec fn answered_alias(verbs: Seq<Seq<char>>, aliases: Aliases, t: Seq<char>) -> bool {
    exists|i: int|
        0 <= i < aliases.len() && (#[trigger] aliases[i]).0 == t && device_alias(
            verbs,
            aliases[i].1@,
        )
}

proof fn verb_types_are_answered(verbs: Seq<Seq<char>>)
    ensures
        verb_types(verbs).no_duplicates(),
        forall|t: Seq<char>| #[trigger] verb_types(verbs).contains(t) <==> answered_type(verbs, t),
    decreases verbs.len(),
{
    if verbs.len() > 0 {
        let init = verbs.drop_last();
        let last = verbs.last();
        verb_types_are_answered(init);
        let head = verb_types(init);
        let t0 = match command_type(last) {
            Some(t) => t,
            None => Seq::empty(),
        };
        with_distinct_keeps_distinct(head, t0);
        assert forall|t: Seq<char>| #[trigger]
            verb_types(verbs).contains(t) <==> answered_type(verbs, t) by {
            assert(head.contains(t) <==> answered_type(init, t));
            if answered_type(init, t) {
                let i = choose|i: int|
                    0 <= i < init.len() && !management_verb(#[trigger] init[i]) && command_type(
                        init[i],
                    ) == Some(t);
                assert(verbs[i] == init[i]);
            }
            if answered_type(verbs, t) {
                let i = choose|i: int|
                    0 <= i < verbs.len() && !management_verb(#[trigger] verbs[i]) && command_type(
                        verbs[i],
                    ) == Some(t);
                if i < init.len() {
                    assert(init[i] == verbs[i]);
                }
            }
            if command_type(last) == Some(t) && !management_verb(last) {
                assert(verbs[verbs.len() - 1] == last);
            }
        }
    }
}

/// Whether a command type is spelt as a verb is: behind a prefix, with `_` for `-`.
pub open spec fn spelt_like(command_type: Seq<char>, verb: Seq<char>) -> bool {
    &&& command_type.len() == verb.len() + 3
    &&& command_type[0] == 'o' && command_type[1] == 't' && command_type[2] == '_'
    &&& forall|i: int|
        0 <= i < verb.len() ==> #[trigger] command_type[i + 3] == if verb[i] == '-' {
            '_'
        } else {
            verb[i]
        }
}

/// A command type is spelt as its verb is.
pub proof fn command_types_are_spelt_like_their_verbs(x: Seq<char>)
    ensures
        command_type(x) matches Some(t) ==> spelt_like(t, x),
        command_verb(x) matches Some(v) ==> spelt_like(x, v),
{
    reveal_strlit("write");
    reveal_strlit("write-batch");
    reveal_strlit("set-config");
    reveal_strlit("define-device");
    reveal_strlit("remove-device");
    reveal_strlit("ot_write");
    reveal_strlit("ot_write_batch");
    reveal_strlit("ot_set_config");
    reveal_strlit("ot_define_device");
    reveal_strlit("ot_remove_device");
    assert(spelt_like("ot_write"@, "write"@));
    assert(spelt_like("ot_write_batch"@, "write-batch"@));
    assert(spelt_like("ot_set_config"@, "set-config"@));
    assert(spelt_like("ot_define_device"@, "define-device"@));
    assert(spelt_like("ot_remove_device"@, "remove-device"@));
}

/// An alias commands what the command type that it stands for commands; what is no alias
/// commands what it is.
pub proof fn aliases_command_what_they_stand_for(command_type: Seq<char>, aliases: Aliases)
    ensures
        field(aliases, command_type) matches Some(c) ==> aliased_verb(command_type, aliases)
            == aliased_verb(c@, Seq::empty()),
        field(aliases, command_type) is None ==> aliased_verb(command_type, aliases)
            == aliased_verb(command_type, Seq::empty()),
        aliased_verb(command_type, Seq::empty()) matches Some(v) ==> spelt_like(command_type, v),
{
    command_types_are_spelt_like_their_verbs(command_type);
    assert(forall|k: Seq<char>| #[trigger] field(Seq::<(Seq<char>, String)>::empty(), k) is None);
}

} // verus!

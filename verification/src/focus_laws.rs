//! What holds of reading the `focus-or-spawn` section.
use crate::focus_or_spawn::{
    diagnostics_of, first_entry_wins, first_of_each, has_trigger, is_action_decoded, is_added,
    is_bound, is_collected, is_head, plain_key, scan, Action, DecodeError, Diagnostic, EntryNode,
    FocusOrSpawnEntry, Keysym, Literal, Property, Trigger,
};
use vstd::prelude::*;

verus! {

/// The property at `i` is the last one with the name.
pub open spec fn is_last_named(properties: Seq<Property>, name: Seq<char>, i: int) -> bool {
    &&& 0 <= i < properties.len()
    &&& properties[i].name@ == name
    &&& forall|j: int| i < j < properties.len() ==> (#[trigger] properties[j]).name@ != name
}

/// No property has the name.
pub open spec fn none_is_named(properties: Seq<Property>, name: Seq<char>) -> bool {
    forall|j: int| 0 <= j < properties.len() ==> (#[trigger] properties[j]).name@ != name
}

proof fn lemma_names()
    ensures
        "app-id"@ != "all-workspaces"@,
        "app-id"@ != "all-outputs"@,
        "all-workspaces"@ != "all-outputs"@,
{
    reveal_strlit("app-id");
    reveal_strlit("all-workspaces");
    reveal_strlit("all-outputs");
    assert("app-id"@.len() != "all-workspaces"@.len());
    assert("app-id"@.len() != "all-outputs"@.len());
    assert("all-workspaces"@.len() != "all-outputs"@.len());
}

/// Of several properties with the same name the last one counts. Without one there is no
/// application, and windows of one workspace and of one output are gone through.
pub proof fn last_property_counts(properties: Seq<Property>, i: int)
    ensures
        none_is_named(properties, "app-id"@) ==> scan(properties).app_id is None,
        none_is_named(properties, "all-workspaces"@) ==> !scan(properties).all_workspaces,
        none_is_named(properties, "all-outputs"@) ==> !scan(properties).all_outputs,
        is_last_named(properties, "app-id"@, i) ==> {
            &&& scan(properties).app_id is Some
            &&& properties[i].value.literal matches Literal::Text(text) ==> scan(properties).app_id
                == Some(text@)
            &&& !(properties[i].value.literal is Text) ==> scan(properties).app_id == Some(
                Seq::<char>::empty(),
            )
        },
        is_last_named(properties, "all-workspaces"@, i) ==> (scan(properties).all_workspaces
            <==> properties[i].value.literal == Literal::Flag(true)),
        is_last_named(properties, "all-outputs"@, i) ==> (scan(properties).all_outputs
            <==> properties[i].value.literal == Literal::Flag(true)),
    decreases properties.len(),
{
    lemma_names();
    if properties.len() > 0 {
        let less = properties.drop_last();
        let n = less.len() as int;
        last_property_counts(less, i);
        assert(properties[n] == properties.last());
        assert forall|name: Seq<char>| #[trigger] none_is_named(properties, name) implies none_is_named(
            less,
            name,
        ) by {
            assert forall|j: int| 0 <= j < less.len() implies (#[trigger] less[j]).name@ != name by {
                assert(properties[j] == less[j]);
            }
        }
        assert forall|name: Seq<char>| #[trigger]
            is_last_named(properties, name, i) && i < n implies is_last_named(less, name, i)
            && properties.last().name@ != name && less[i] == properties[i] by {
            assert forall|j: int| i < j < less.len() implies (#[trigger] less[j]).name@ != name by {
                assert(properties[j] == less[j]);
            }
        }
    }
}

/// A diagnostic is about the property at `i`.
spec fn is_about(properties: Seq<Property>, i: int, d: Diagnostic) -> bool {
    let known = properties[i].name@ == "app-id"@ || properties[i].name@ == "all-workspaces"@
        || properties[i].name@ == "all-outputs"@;
    ||| d == Diagnostic::UnexpectedProperty(i as usize) && !known
    ||| d == Diagnostic::PropertyTypeName(i as usize) && known && properties[i].value.has_type_name
    ||| d == Diagnostic::NotText(i as usize) && properties[i].name@ == "app-id"@ && !(
    properties[i].value.literal is Text)
    ||| d == Diagnostic::NotFlag(i as usize) && known && properties[i].name@ != "app-id"@ && !(
    properties[i].value.literal is Flag)
}

proof fn lemma_diagnostics(properties: Seq<Property>, d: Diagnostic)
    requires
        properties.len() <= usize::MAX,
    ensures
        scan(properties).diagnostics.contains(d) <==> exists|i: int|
            0 <= i < properties.len() && #[trigger] is_about(properties, i, d),
    decreases properties.len(),
{
    lemma_names();
    if properties.len() > 0 {
        let less = properties.drop_last();
        let n = less.len() as int;
        lemma_diagnostics(less, d);
        let before = scan(less).diagnostics;
        let all = scan(properties).diagnostics;
        assert(properties[n] == properties.last());
        let added = all.skip(before.len() as int);
        assert(all =~= before + added);
        assert(all.contains(d) <==> before.contains(d) || added.contains(d)) by {
            if all.contains(d) {
                let k = all.index_of(d);
                if k < before.len() {
                    assert(before[k] == d);
                } else {
                    assert(added[k - before.len()] == d);
                }
            }
            if before.contains(d) {
                assert(all[before.index_of(d)] == d);
            }
            if added.contains(d) {
                assert(all[before.len() + added.index_of(d)] == d);
            }
        }
        let value = properties.last().value;
        let i = n as usize;
        let name = properties.last().name@;
        let known = name == "app-id"@ || name == "all-workspaces"@ || name == "all-outputs"@;
        let one = Diagnostic::PropertyTypeName(i);
        let two = if name == "app-id"@ {
            Diagnostic::NotText(i)
        } else {
            Diagnostic::NotFlag(i)
        };
        let wrong = if name == "app-id"@ {
            !(value.literal is Text)
        } else {
            !(value.literal is Flag)
        };
        if known {
            if value.has_type_name && wrong {
                assert(added =~= seq![one, two]);
                assert(added[0] == one && added[1] == two);
            } else if value.has_type_name {
                assert(added =~= seq![one]);
                assert(added[0] == one);
            } else if wrong {
                assert(added =~= seq![two]);
                assert(added[0] == two);
            } else {
                assert(added =~= Seq::empty());
            }
        } else {
            assert(added =~= seq![Diagnostic::UnexpectedProperty(i)]);
            assert(added[0] == Diagnostic::UnexpectedProperty(i));
        }
        assert(added.contains(d) <==> is_about(properties, n, d));
        assert forall|k: int| 0 <= k < n implies #[trigger] is_about(properties, k, d) == is_about(
            less,
            k,
            d,
        ) by {
            assert(properties[k] == less[k]);
        }
        if before.contains(d) {
            let k = choose|k: int| 0 <= k < less.len() && #[trigger] is_about(less, k, d);
            assert(is_about(properties, k, d));
        }
        if exists|k: int| 0 <= k < properties.len() && #[trigger] is_about(properties, k, d) {
            let k = choose|k: int| 0 <= k < properties.len() && #[trigger] is_about(properties, k, d);
            if k < n {
                assert(is_about(less, k, d));
            }
        }
    }
}

/// What is wrong with a property is reported: a name that is none of the three, a type name, an
/// `app-id` that is no string, one of the other two that is no boolean, and nothing else.
pub proof fn wrong_properties_are_reported(properties: Seq<Property>, i: usize)
    requires
        i < properties.len() <= usize::MAX,
    ensures
        ({
            let p = properties[i as int];
            let found = scan(properties).diagnostics;
            let text = p.name@ == "app-id"@;
            let flag = p.name@ == "all-workspaces"@ || p.name@ == "all-outputs"@;
            &&& found.contains(Diagnostic::UnexpectedProperty(i)) <==> !text && !flag
            &&& found.contains(Diagnostic::PropertyTypeName(i)) <==> (text || flag)
                && p.value.has_type_name
            &&& found.contains(Diagnostic::NotText(i)) <==> text && !(p.value.literal is Text)
            &&& found.contains(Diagnostic::NotFlag(i)) <==> flag && !(p.value.literal is Flag)
            &&& !found.contains(Diagnostic::TypeName)
        }),
{
    lemma_names();
    lemma_about(properties, i, Diagnostic::UnexpectedProperty(i));
    lemma_about(properties, i, Diagnostic::PropertyTypeName(i));
    lemma_about(properties, i, Diagnostic::NotText(i));
    lemma_about(properties, i, Diagnostic::NotFlag(i));
    lemma_diagnostics(properties, Diagnostic::TypeName);
}

proof fn lemma_about(properties: Seq<Property>, i: usize, d: Diagnostic)
    requires
        i < properties.len() <= usize::MAX,
        d == Diagnostic::UnexpectedProperty(i) || d == Diagnostic::PropertyTypeName(i) || d
            == Diagnostic::NotText(i) || d == Diagnostic::NotFlag(i),
    ensures
        scan(properties).diagnostics.contains(d) <==> is_about(properties, i as int, d),
{
    lemma_diagnostics(properties, d);
    if scan(properties).diagnostics.contains(d) {
        let k = choose|k: int| 0 <= k < properties.len() && #[trigger] is_about(properties, k, d);
        assert(k as usize == i);
        assert(k == i);
    }
}

/// An entry is read exactly where its name is a key on the keyboard without modifiers and it names
/// an application, and then it has that key, what its properties say, and no action yet. A name
/// that is no key is told from one that is another key.
pub proof fn entry_is_read_where_it_is_complete(
    node: EntryNode,
    head: Result<FocusOrSpawnEntry, DecodeError>,
)
    requires
        is_head(node, head),
    ensures
        node.key is None ==> head == Err::<FocusOrSpawnEntry, _>(DecodeError::NotAKey),
        node.key matches Some(key) ==> {
            &&& key.modifiers != 0 || !(key.trigger is Keysym) ==> head == Err::<
                FocusOrSpawnEntry,
                _,
            >(DecodeError::KeyNotPlain)
            &&& key.modifiers == 0 && key.trigger is Keysym ==> {
                &&& none_is_named(node.properties@, "app-id"@) ==> head == Err::<
                    FocusOrSpawnEntry,
                    _,
                >(DecodeError::MissingAppId)
                &&& !none_is_named(node.properties@, "app-id"@) ==> {
                    &&& head is Ok
                    &&& Trigger::Keysym(head->Ok_0.trigger) == key.trigger
                    &&& Some(head->Ok_0.app_id@) == scan(node.properties@).app_id
                    &&& head->Ok_0.spawn is None
                    &&& head->Ok_0.cycle_all_workspaces == scan(node.properties@).all_workspaces
                    &&& head->Ok_0.cycle_all_outputs == scan(node.properties@).all_outputs
                }
            }
        },
{
    last_property_counts(node.properties@, 0);
    if !none_is_named(node.properties@, "app-id"@) {
        let i = lemma_last(node.properties@, "app-id"@);
        last_property_counts(node.properties@, i);
    }
}

proof fn lemma_last(properties: Seq<Property>, name: Seq<char>) -> (i: int)
    requires
        !none_is_named(properties, name),
    ensures
        is_last_named(properties, name, i),
    decreases properties.len(),
{
    let n = properties.len() - 1;
    if properties[n].name@ == name {
        n
    } else {
        let less = properties.drop_last();
        assert(!none_is_named(less, name)) by {
            let j = choose|j: int|
                0 <= j < properties.len() && (#[trigger] properties[j]).name@ == name;
            assert(less[j].name@ == name);
        }
        let i = lemma_last(less, name);
        assert(properties[i] == less[i]);
        assert forall|j: int| i < j < properties.len() implies (#[trigger] properties[j]).name@
            != name by {
            if j < n {
                assert(properties[j] == less[j]);
            }
        }
        i
    }
}

/// A type name and every argument of the node are reported, whatever else is wrong. Where the entry
/// is complete, every child after the first one is reported too.
pub proof fn wrong_nodes_are_reported(node: EntryNode, i: usize)
    requires
        node.properties@.len() <= usize::MAX,
    ensures
        diagnostics_of(node).contains(Diagnostic::TypeName) <==> node.has_type_name,
        diagnostics_of(node).contains(Diagnostic::Argument(i)) <==> i < node.arguments,
        diagnostics_of(node).contains(Diagnostic::ExtraChild(i)) <==> 1 <= i < node.children
            && plain_key(node.key) is Ok && scan(node.properties@).app_id is Some,
{
    let all = diagnostics_of(node);
    let first = if node.has_type_name {
        seq![Diagnostic::TypeName]
    } else {
        Seq::<Diagnostic>::empty()
    };
    let second = Seq::new(node.arguments as nat, |k: int| Diagnostic::Argument(k as usize));
    let third = if plain_key(node.key) is Ok {
        scan(node.properties@).diagnostics
    } else {
        Seq::<Diagnostic>::empty()
    };
    let fourth = if plain_key(node.key) is Ok && scan(node.properties@).app_id is Some {
        Seq::new(
            if node.children > 1 {
                (node.children - 1) as nat
            } else {
                0
            },
            |k: int| Diagnostic::ExtraChild((k + 1) as usize),
        )
    } else {
        Seq::<Diagnostic>::empty()
    };
    assert(all =~= first + second + third + fourth);
    lemma_one_of(first, second, third, fourth, Diagnostic::TypeName);
    lemma_one_of(first, second, third, fourth, Diagnostic::Argument(i));
    lemma_one_of(first, second, third, fourth, Diagnostic::ExtraChild(i));
    lemma_diagnostics(node.properties@, Diagnostic::TypeName);
    lemma_diagnostics(node.properties@, Diagnostic::Argument(i));
    lemma_diagnostics(node.properties@, Diagnostic::ExtraChild(i));
    if node.has_type_name {
        assert(first[0] == Diagnostic::TypeName);
    }
    if i < node.arguments {
        assert(second[i as int] == Diagnostic::Argument(i));
    }
    if 1 <= i < node.children && fourth.len() > 0 {
        assert(fourth[i - 1] == Diagnostic::ExtraChild(i));
    }
}

proof fn lemma_one_of(
    a: Seq<Diagnostic>,
    b: Seq<Diagnostic>,
    c: Seq<Diagnostic>,
    e: Seq<Diagnostic>,
    d: Diagnostic,
)
    ensures
        (a + b + c + e).contains(d) <==> a.contains(d) || b.contains(d) || c.contains(d)
            || e.contains(d),
{
    let all = a + b + c + e;
    if all.contains(d) {
        let k = all.index_of(d);
        if k < a.len() {
            assert(a[k] == d);
        } else if k < a.len() + b.len() {
            assert(b[k - a.len()] == d);
        } else if k < a.len() + b.len() + c.len() {
            assert(c[k - a.len() - b.len()] == d);
        } else {
            assert(e[k - a.len() - b.len() - c.len()] == d);
        }
    }
    if a.contains(d) {
        assert(all[a.index_of(d)] == d);
    }
    if b.contains(d) {
        assert(all[a.len() + b.index_of(d)] == d);
    }
    if c.contains(d) {
        assert(all[a.len() + b.len() + c.index_of(d)] == d);
    }
    if e.contains(d) {
        assert(all[a.len() + b.len() + c.len() + e.index_of(d)] == d);
    }
}

/// An entry takes any action that spawns, or none, and stays as it is otherwise. Any other action
/// is refused.
pub proof fn only_spawning_is_taken(
    entry: FocusOrSpawnEntry,
    action: Option<Action>,
    result: Result<FocusOrSpawnEntry, DecodeError>,
)
    requires
        is_action_decoded(entry, action, result),
    ensures
        result is Err <==> action == Some(Action::Other),
        result matches Err(err) ==> err == DecodeError::UnsupportedAction,
        result matches Ok(decoded) ==> {
            &&& decoded.spawn == action
            &&& decoded.trigger == entry.trigger
            &&& decoded.app_id == entry.app_id
            &&& decoded.cycle_all_workspaces == entry.cycle_all_workspaces
            &&& decoded.cycle_all_outputs == entry.cycle_all_outputs
        },
{
}

/// After an entry was added its key is bound: to what it was bound before, or else to the entry.
/// What another key is bound to stays.
pub proof fn added_entry_is_found(
    before: Seq<FocusOrSpawnEntry>,
    entry: FocusOrSpawnEntry,
    after: Seq<FocusOrSpawnEntry>,
    added: bool,
    trigger: Keysym,
    first: Option<FocusOrSpawnEntry>,
    second: Option<FocusOrSpawnEntry>,
)
    requires
        is_added(before, entry, after, added),
        is_bound(before, trigger, first),
        is_bound(after, trigger, second),
    ensures
        first matches Some(found) ==> found.trigger == trigger && second == first,
        first is None && trigger == entry.trigger ==> added && second == Some(entry),
        first is None && trigger != entry.trigger ==> second is None,
        first is Some && trigger == entry.trigger ==> !added && after == before,
{
    if let Some(found) = first {
        let i = choose|i: int|
            0 <= i < before.len() && found == #[trigger] before[i] && found.trigger == trigger
                && forall|j: int| 0 <= j < i ==> (#[trigger] before[j]).trigger != trigger;
        assert(after[i] == before[i]);
        assert(has_trigger(before, trigger));
        assert(has_trigger(after, trigger));
        let k = choose|k: int|
            0 <= k < after.len() && second->0 == #[trigger] after[k] && second->0.trigger == trigger
                && forall|j: int| 0 <= j < k ==> (#[trigger] after[j]).trigger != trigger;
        assert(k == i) by {
            if k < i {
                assert(before[k] == after[k]);
            }
            if i < k {
                assert(after[i].trigger != trigger);
            }
        }
    } else {
        assert forall|j: int| 0 <= j < before.len() implies (#[trigger] before[j]).trigger
            != trigger by {}
        if trigger == entry.trigger {
            assert(after[before.len() as int] == entry);
        }
    }
}

/// The keys of what is kept are those of all entries.
proof fn lemma_kept_keys(entries: Seq<FocusOrSpawnEntry>, trigger: Keysym)
    ensures
        has_trigger(first_of_each(entries), trigger) <==> has_trigger(entries, trigger),
    decreases entries.len(),
{
    if entries.len() > 0 {
        let rest = entries.drop_last();
        let kept = first_of_each(rest);
        lemma_kept_keys(rest, trigger);
        lemma_kept_keys(rest, entries.last().trigger);
        if has_trigger(rest, trigger) {
            let i = choose|i: int| 0 <= i < rest.len() && (#[trigger] rest[i]).trigger == trigger;
            assert(entries[i] == rest[i]);
            let k = choose|k: int| 0 <= k < kept.len() && (#[trigger] kept[k]).trigger == trigger;
            assert(first_of_each(entries)[k] == kept[k]);
        } else if entries.last().trigger == trigger {
            assert(entries[entries.len() - 1].trigger == trigger);
            assert(first_of_each(entries)[kept.len() as int] == entries.last());
        } else {
            if has_trigger(first_of_each(entries), trigger) {
                let k = choose|k: int|
                    0 <= k < first_of_each(entries).len() && (#[trigger] first_of_each(
                        entries,
                    )[k]).trigger == trigger;
                if k < kept.len() {
                    assert(kept[k].trigger == trigger);
                }
            }
            if has_trigger(entries, trigger) {
                let i = choose|i: int| 0 <= i < entries.len() && (#[trigger] entries[i]).trigger
                    == trigger;
                if i < rest.len() {
                    assert(rest[i].trigger == trigger);
                }
            }
        }
    }
}

/// Each key is bound to the first of its entries in the section, and every later entry with the
/// same key is reported, and no other.
pub proof fn first_entry_of_a_key_counts(
    entries: Seq<FocusOrSpawnEntry>,
    kept: Seq<FocusOrSpawnEntry>,
    duplicates: Seq<usize>,
    i: usize,
    found: Option<FocusOrSpawnEntry>,
)
    requires
        i < entries.len(),
        is_collected(entries, kept, duplicates),
        is_bound(kept, entries[i as int].trigger, found),
    ensures
        duplicates.contains(i) <==> exists|j: int|
            0 <= j < i && (#[trigger] entries[j]).trigger == entries[i as int].trigger,
        !duplicates.contains(i) ==> found == Some(entries[i as int]),
        found is Some,
{
    let trigger = entries[i as int].trigger;
    let before = entries.take(i as int);
    lemma_kept_keys(before, trigger);
    lemma_kept_keys(entries, trigger);
    if has_trigger(before, trigger) {
        let j = choose|j: int| 0 <= j < before.len() && (#[trigger] before[j]).trigger == trigger;
        assert(entries[j].trigger == trigger);
    }
    if exists|j: int| 0 <= j < i && (#[trigger] entries[j]).trigger == trigger {
        let j = choose|j: int| 0 <= j < i && (#[trigger] entries[j]).trigger == trigger;
        assert(before[j].trigger == trigger);
    } else {
        first_entry_wins(entries, i as int);
        let k = kept.index_of(entries[i as int]);
        assert(kept[k].trigger == trigger);
        let m = choose|m: int|
            0 <= m < kept.len() && found->0 == #[trigger] kept[m] && found->0.trigger == trigger
                && forall|j: int| 0 <= j < m ==> (#[trigger] kept[j]).trigger != trigger;
        assert(m == k);
    }
}

} // verus!

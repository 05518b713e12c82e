//! Laws of event databases: what is read of a property list, and what a name
//! means.

use vstd::prelude::*;

use crate::aliases::{alias_target, lemma_alias_target, pair_texts, with_alias};
use crate::document::{
    dictionary_field, distinct_keys, entry_trees, lemma_lookup, lookup, text_field, unsigned_field, Plist,
    Tree,
};
use crate::kpep::{
    aliases_of, borrowed_models, configurable_of, cpu_of, database_of, event_meant, event_models, event_named,
    event_of, events_of, fixed_of, law_aliases_are_texts, CpuInfo, DatabaseModel,
    EventModel, KpepEvent,
};
use crate::order::{by_number, insert_by_number, law_by_number_orders, number_le};

verus! {

/// Law: a field of a dictionary is what the first entry under its key holds,
/// and is there only where that is of the kind asked for.
pub proof fn law_field_is_the_first(entries: Seq<(Seq<char>, Tree)>, key: Seq<char>, at: int)
    requires
        0 <= at < entries.len(),
        entries[at].0 == key,
        forall|k: int| 0 <= k < at ==> (#[trigger] entries[k]).0 != key,
    ensures
        text_field(entries, key) == match entries[at].1 {
            Tree::Text(text) => Some(text),
            _ => None,
        },
        unsigned_field(entries, key) == match entries[at].1 {
            Tree::Unsigned(number) => Some(number),
            _ => None,
        },
        dictionary_field(entries, key) == match entries[at].1 {
            Tree::Dictionary(fields) => Some(fields),
            _ => None,
        },
{
    lemma_lookup(entries, key, at);
}

/// Law: a dictionary without an entry under a key has no field of that name.
pub proof fn law_no_field(entries: Seq<(Seq<char>, Tree)>, key: Seq<char>)
    requires
        forall|k: int| 0 <= k < entries.len() ==> (#[trigger] entries[k]).0 != key,
    ensures
        text_field(entries, key) is None,
        unsigned_field(entries, key) is None,
        dictionary_field(entries, key) is None,
{
    lemma_lookup(entries, key, entries.len() as int);
}

/// Where no key occurs twice, an entry is in a dictionary exactly where a lookup
/// of its key gives its value.
proof fn lemma_lookup_contains(entries: Seq<(Seq<char>, Tree)>, key: Seq<char>)
    requires
        distinct_keys(entries),
    ensures
        forall|value: Tree|
            #![trigger entries.contains((key, value))]
            entries.contains((key, value)) <==> lookup(entries, key) == Some(value),
{
    if exists|k: int| 0 <= k < entries.len() && (#[trigger] entries[k]).0 == key {
        let at = choose|k: int| 0 <= k < entries.len() && (#[trigger] entries[k]).0 == key;
        assert forall|k: int| 0 <= k < at implies (#[trigger] entries[k]).0 != key by {
            assert(entries[k].0 != entries[at].0);
        }
        lemma_lookup(entries, key, at);
        assert forall|value: Tree| #[trigger] entries.contains((key, value)) implies lookup(
            entries,
            key,
        ) == Some(value) by {
            let k = choose|k: int| 0 <= k < entries.len() && entries[k] == (key, value);
            if k < at {
                assert(entries[k].0 != entries[at].0);
            } else if k > at {
                assert(entries[at].0 != entries[k].0);
            }
        }
        assert forall|value: Tree| lookup(entries, key) == Some(value) implies #[trigger] entries.contains(
            (key, value),
        ) by {
            assert(entries[at] == (key, value));
        }
    } else {
        assert forall|k: int| 0 <= k < entries.len() implies (#[trigger] entries[k]).0 != key by {}
        lemma_lookup(entries, key, entries.len() as int);
        assert forall|value: Tree| !(#[trigger] entries.contains((key, value))) by {
            if entries.contains((key, value)) {
                let k = choose|k: int| 0 <= k < entries.len() && entries[k] == (key, value);
                assert(entries[k].0 == key);
            }
        }
    }
}

/// Law: the event that a dictionary under a name defines has that name, and
/// each other field is what the dictionary holds under the key of that very
/// name, whatever else it holds: a number or a text, and nothing where there is
/// none of the kind.
pub proof fn law_event_is_read(name: Seq<char>, fields: Seq<(Seq<char>, Tree)>)
    requires
        forall|i: int, j: int|
            0 <= i < j < fields.len() ==> (#[trigger] fields[i]).0 != (#[trigger] fields[j]).0,
    ensures
        event_of(name, fields).name == name,
        forall|n: u64| #[trigger]
            fields.contains(("number"@, Tree::Unsigned(n))) <==> event_of(name, fields).number
                == Some(n),
        forall|n: u64| #[trigger]
            fields.contains(("counters_mask"@, Tree::Unsigned(n))) <==> event_of(
                name,
                fields,
            ).counters_mask == Some(n),
        forall|n: u64| #[trigger]
            fields.contains(("pc_capture_counters_mask"@, Tree::Unsigned(n))) <==> event_of(
                name,
                fields,
            ).pc_capture_counters_mask == Some(n),
        forall|n: u64| #[trigger]
            fields.contains(("fixed_counter"@, Tree::Unsigned(n))) <==> event_of(
                name,
                fields,
            ).fixed_counter == Some(n),
        forall|text: Seq<char>| #[trigger]
            fields.contains(("fallback"@, Tree::Text(text))) <==> event_of(name, fields).fallback
                == Some(text),
        forall|text: Seq<char>| #[trigger]
            fields.contains(("description"@, Tree::Text(text))) ==> event_of(
                name,
                fields,
            ).description == text,
        (forall|text: Seq<char>| !(#[trigger] fields.contains(("description"@, Tree::Text(text)))))
            ==> event_of(name, fields).description.len() == 0,
{
    reveal_strlit("");
    lemma_lookup_contains(fields, "number"@);
    lemma_lookup_contains(fields, "counters_mask"@);
    lemma_lookup_contains(fields, "pc_capture_counters_mask"@);
    lemma_lookup_contains(fields, "fixed_counter"@);
    lemma_lookup_contains(fields, "fallback"@);
    lemma_lookup_contains(fields, "description"@);
    match lookup(fields, "description"@) {
        Some(Tree::Text(text)) => {
            assert(fields.contains(("description"@, Tree::Text(text))));
        },
        _ => {},
    }
}

proof fn lemma_events_of_at(entries: Seq<(Seq<char>, Tree)>, p: int) -> (i: int)
    requires
        0 <= p < events_of(entries).len(),
    ensures
        0 <= i < entries.len(),
        entries[i].1 is Dictionary,
        events_of(entries)[p] == event_of(entries[i].0, entries[i].1->Dictionary_0),
    decreases entries.len(),
{
    let front = entries.drop_last();
    if p < events_of(front).len() {
        let i = lemma_events_of_at(front, p);
        assert(front[i] == entries[i]);
        i
    } else {
        entries.len() - 1
    }
}

proof fn lemma_events_of_pair(entries: Seq<(Seq<char>, Tree)>, p: int, q: int) -> (at: (int, int))
    requires
        0 <= p < q < events_of(entries).len(),
    ensures
        0 <= at.0 < at.1 < entries.len(),
        events_of(entries)[p].name == entries[at.0].0,
        events_of(entries)[q].name == entries[at.1].0,
    decreases entries.len(),
{
    let front = entries.drop_last();
    if q < events_of(front).len() {
        let at = lemma_events_of_pair(front, p, q);
        assert(front[at.0] == entries[at.0] && front[at.1] == entries[at.1]);
        at
    } else {
        let i = lemma_events_of_at(front, p);
        assert(front[i] == entries[i]);
        (i, entries.len() - 1)
    }
}

proof fn lemma_events_of_from(entries: Seq<(Seq<char>, Tree)>, i: int) -> (p: int)
    requires
        0 <= i < entries.len(),
        entries[i].1 is Dictionary,
    ensures
        0 <= p < events_of(entries).len(),
        events_of(entries)[p] == event_of(entries[i].0, entries[i].1->Dictionary_0),
    decreases entries.len(),
{
    let front = entries.drop_last();
    if i < front.len() {
        assert(front[i] == entries[i]);
        lemma_events_of_from(front, i)
    } else {
        events_of(front).len() as int
    }
}

proof fn lemma_events_of_count(entries: Seq<(Seq<char>, Tree)>)
    ensures
        events_of(entries).len() == entries.filter(
            |entry: (Seq<char>, Tree)| entry.1 is Dictionary,
        ).len(),
    decreases entries.len(),
{
    reveal(Seq::filter);
    if entries.len() > 0 {
        lemma_events_of_count(entries.drop_last());
    }
}

proof fn lemma_insert_at(events: Seq<EventModel>, event: EventModel, a: int) -> (p: int)
    requires
        0 <= a < insert_by_number(events, event).len(),
    ensures
        0 <= p <= events.len(),
        insert_by_number(events, event)[a] == events.push(event)[p],
    decreases events.len(),
{
    if events.len() == 0 || number_le(events.last().number, event.number) {
        a
    } else {
        let shorter = events.drop_last();
        if a < insert_by_number(shorter, event).len() {
            let p = lemma_insert_at(shorter, event, a);
            if p == shorter.len() {
                events.len() as int
            } else {
                p
            }
        } else {
            events.len() - 1
        }
    }
}

proof fn lemma_insert_pair(events: Seq<EventModel>, event: EventModel, a: int, b: int) -> (at: (
    int,
    int,
))
    requires
        0 <= a < b < insert_by_number(events, event).len(),
        insert_by_number(events, event)[a].number == insert_by_number(events, event)[b].number,
    ensures
        0 <= at.0 < at.1 <= events.len(),
        insert_by_number(events, event)[a] == events.push(event)[at.0],
        insert_by_number(events, event)[b] == events.push(event)[at.1],
    decreases events.len(),
{
    if events.len() == 0 || number_le(events.last().number, event.number) {
        (a, b)
    } else {
        let shorter = events.drop_last();
        let front = insert_by_number(shorter, event);
        if b < front.len() {
            let at = lemma_insert_pair(shorter, event, a, b);
            if at.1 == shorter.len() {
                (at.0, events.len() as int)
            } else {
                at
            }
        } else {
            let p = lemma_insert_at(shorter, event, a);
            assert(front[a].number == events.last().number);
            assert(p < shorter.len());
            (p, events.len() - 1)
        }
    }
}

proof fn lemma_by_number_at(events: Seq<EventModel>, a: int) -> (p: int)
    requires
        0 <= a < by_number(events).len(),
    ensures
        0 <= p < events.len(),
        by_number(events)[a] == events[p],
    decreases events.len(),
{
    if events.len() == 0 {
        a
    } else {
        let shorter = events.drop_last();
        law_by_number_orders(shorter);
        let p = lemma_insert_at(by_number(shorter), events.last(), a);
        if p == shorter.len() {
            events.len() - 1
        } else {
            lemma_by_number_at(shorter, p)
        }
    }
}

proof fn lemma_by_number_pair(events: Seq<EventModel>, a: int, b: int) -> (at: (int, int))
    requires
        0 <= a < b < by_number(events).len(),
        by_number(events)[a].number == by_number(events)[b].number,
    ensures
        0 <= at.0 < at.1 < events.len(),
        by_number(events)[a] == events[at.0],
        by_number(events)[b] == events[at.1],
    decreases events.len(),
{
    if events.len() == 0 {
        (a, b)
    } else {
        let shorter = events.drop_last();
        law_by_number_orders(shorter);
        let at = lemma_insert_pair(by_number(shorter), events.last(), a, b);
        if at.1 == shorter.len() {
            (lemma_by_number_at(shorter, at.0), events.len() - 1)
        } else {
            lemma_by_number_pair(shorter, at.0, at.1)
        }
    }
}

proof fn lemma_path(
    entries: Seq<(Seq<char>, Tree)>,
    system: Seq<(Seq<char>, Tree)>,
    cpu: Seq<(Seq<char>, Tree)>,
    events: Seq<(Seq<char>, Tree)>,
)
    requires
        Tree::Dictionary(entries).well_keyed(),
        entries.contains(("system"@, Tree::Dictionary(system))),
        system.contains(("cpu"@, Tree::Dictionary(cpu))),
        cpu.contains(("events"@, Tree::Dictionary(events))),
    ensures
        Tree::Dictionary(system).well_keyed(),
        Tree::Dictionary(cpu).well_keyed(),
        Tree::Dictionary(events).well_keyed(),
        database_of(Tree::Dictionary(entries)) is Ok,
        database_of(Tree::Dictionary(entries))->Ok_0.events == by_number(events_of(events)),
        database_of(Tree::Dictionary(entries))->Ok_0.cpu == cpu_of(
            database_of(Tree::Dictionary(entries))->Ok_0.name,
            cpu,
        ),
{
    lemma_entry_well_keyed(entries, "system"@, system);
    lemma_entry_well_keyed(system, "cpu"@, cpu);
    lemma_entry_well_keyed(cpu, "events"@, events);
    lemma_lookup_contains(entries, "system"@);
    lemma_lookup_contains(system, "cpu"@);
    lemma_lookup_contains(cpu, "events"@);
}

proof fn lemma_entry_well_keyed(
    entries: Seq<(Seq<char>, Tree)>,
    key: Seq<char>,
    fields: Seq<(Seq<char>, Tree)>,
)
    requires
        Tree::Dictionary(entries).well_keyed(),
        entries.contains((key, Tree::Dictionary(fields))),
    ensures
        Tree::Dictionary(fields).well_keyed(),
{
    let k = choose|k: int| 0 <= k < entries.len() && entries[k] == (key, Tree::Dictionary(fields));
    assert(entries[k].1.well_keyed());
}

/// Law: each event of a database comes from a dictionary under
/// `system.cpu.events` of its property list. It has the name of its entry, and
/// each other field is what that dictionary holds under the key of that very
/// name, whatever else it holds.
pub proof fn law_event_has_an_entry(
    entries: Seq<(Seq<char>, Tree)>,
    system: Seq<(Seq<char>, Tree)>,
    cpu: Seq<(Seq<char>, Tree)>,
    events: Seq<(Seq<char>, Tree)>,
    at: int,
) -> (i: int)
    requires
        Tree::Dictionary(entries).well_keyed(),
        entries.contains(("system"@, Tree::Dictionary(system))),
        system.contains(("cpu"@, Tree::Dictionary(cpu))),
        cpu.contains(("events"@, Tree::Dictionary(events))),
        0 <= at < database_of(Tree::Dictionary(entries))->Ok_0.events.len(),
    ensures
        0 <= i < events.len(),
        events[i].1 is Dictionary,
        ({
            let event = database_of(Tree::Dictionary(entries))->Ok_0.events[at];
            let fields = events[i].1->Dictionary_0;
            &&& event.name == events[i].0
            &&& forall|n: u64| #[trigger]
                fields.contains(("number"@, Tree::Unsigned(n))) <==> event.number == Some(n)
            &&& forall|n: u64| #[trigger]
                fields.contains(("counters_mask"@, Tree::Unsigned(n))) <==> event.counters_mask
                    == Some(n)
            &&& forall|n: u64| #[trigger]
                fields.contains(("pc_capture_counters_mask"@, Tree::Unsigned(n)))
                    <==> event.pc_capture_counters_mask == Some(n)
            &&& forall|n: u64| #[trigger]
                fields.contains(("fixed_counter"@, Tree::Unsigned(n))) <==> event.fixed_counter
                    == Some(n)
            &&& forall|text: Seq<char>| #[trigger]
                fields.contains(("fallback"@, Tree::Text(text))) <==> event.fallback == Some(text)
            &&& forall|text: Seq<char>| #[trigger]
                fields.contains(("description"@, Tree::Text(text))) ==> event.description == text
            &&& (forall|text: Seq<char>|
                !(#[trigger] fields.contains(("description"@, Tree::Text(text)))))
                ==> event.description.len() == 0
        }),
{
    lemma_path(entries, system, cpu, events);
    let p = lemma_by_number_at(events_of(events), at);
    let i = lemma_events_of_at(events, p);
    assert(events[i].1.well_keyed());
    law_event_is_read(events[i].0, events[i].1->Dictionary_0);
    i
}

/// Law: each dictionary under `system.cpu.events` of a property list gives an
/// event of its name to the database, and there are no other events.
pub proof fn law_entry_gives_an_event(
    entries: Seq<(Seq<char>, Tree)>,
    system: Seq<(Seq<char>, Tree)>,
    cpu: Seq<(Seq<char>, Tree)>,
    events: Seq<(Seq<char>, Tree)>,
)
    requires
        Tree::Dictionary(entries).well_keyed(),
        entries.contains(("system"@, Tree::Dictionary(system))),
        system.contains(("cpu"@, Tree::Dictionary(cpu))),
        cpu.contains(("events"@, Tree::Dictionary(events))),
    ensures
        database_of(Tree::Dictionary(entries)) is Ok,
        forall|i: int|
            0 <= i < events.len() && (#[trigger] events[i]).1 is Dictionary ==> exists|at: int|
                0 <= at < database_of(Tree::Dictionary(entries))->Ok_0.events.len() && (
                #[trigger] database_of(Tree::Dictionary(entries))->Ok_0.events[at]).name
                    == events[i].0,
        database_of(Tree::Dictionary(entries))->Ok_0.events.len() == events.filter(
            |entry: (Seq<char>, Tree)| entry.1 is Dictionary,
        ).len(),
{
    broadcast use vstd::seq_lib::group_to_multiset_ensures;

    lemma_path(entries, system, cpu, events);
    lemma_events_of_count(events);
    let defined = events_of(events);
    let all = by_number(defined);
    law_by_number_orders(defined);
    assert forall|i: int|
        0 <= i < events.len() && (#[trigger] events[i]).1 is Dictionary implies exists|at: int|
        0 <= at < all.len() && (#[trigger] all[at]).name == events[i].0 by {
        let p = lemma_events_of_from(events, i);
        assert(defined.to_multiset().count(defined[p]) > 0);
        assert(all.contains(defined[p]));
        let at = choose|at: int| 0 <= at < all.len() && all[at] == defined[p];
        assert(all[at].name == events[i].0);
    }
}

/// Law: of two events of a database the one without a number stands first, then
/// the one of the lower number, and of two events of the same number, or
/// without one, the one that stands first in the property list.
pub proof fn law_events_stand_in_order(
    entries: Seq<(Seq<char>, Tree)>,
    system: Seq<(Seq<char>, Tree)>,
    cpu: Seq<(Seq<char>, Tree)>,
    events: Seq<(Seq<char>, Tree)>,
    a: int,
    b: int,
)
    requires
        Tree::Dictionary(entries).well_keyed(),
        entries.contains(("system"@, Tree::Dictionary(system))),
        system.contains(("cpu"@, Tree::Dictionary(cpu))),
        cpu.contains(("events"@, Tree::Dictionary(events))),
        0 <= a < b < database_of(Tree::Dictionary(entries))->Ok_0.events.len(),
    ensures
        ({
            let all = database_of(Tree::Dictionary(entries))->Ok_0.events;
            &&& all[a].number is None || (all[b].number is Some && all[a].number->0
                <= all[b].number->0)
            &&& all[a].number == all[b].number ==> exists|i: int, j: int|
                0 <= i < j < events.len() && (#[trigger] events[i]).0 == all[a].name && (
                #[trigger] events[j]).0 == all[b].name
        }),
{
    lemma_path(entries, system, cpu, events);
    let defined = events_of(events);
    let all = by_number(defined);
    law_by_number_orders(defined);
    assert(number_le(all[a].number, all[b].number));
    if all[a].number == all[b].number {
        let at = lemma_by_number_pair(defined, a, b);
        let (i, j) = lemma_events_of_pair(events, at.0, at.1);
        assert(events[i].0 == all[a].name && events[j].0 == all[b].name);
    }
}

/// Law: a database has the name that its property list says, and its CPU the
/// architecture, the marketing name and the numbers of counters that the
/// dictionary `system.cpu` says, each under the key of that very name. A name or
/// an architecture that is not said is `unknown`, a marketing name that is not
/// said is the name of the database, and a number that is not said is zero.
pub proof fn law_cpu_is_read(
    entries: Seq<(Seq<char>, Tree)>,
    system: Seq<(Seq<char>, Tree)>,
    cpu: Seq<(Seq<char>, Tree)>,
    events: Seq<(Seq<char>, Tree)>,
)
    requires
        Tree::Dictionary(entries).well_keyed(),
        entries.contains(("system"@, Tree::Dictionary(system))),
        system.contains(("cpu"@, Tree::Dictionary(cpu))),
        cpu.contains(("events"@, Tree::Dictionary(events))),
    ensures
        database_of(Tree::Dictionary(entries)) is Ok,
        ({
            let database = database_of(Tree::Dictionary(entries))->Ok_0;
            &&& forall|text: Seq<char>| #[trigger]
                entries.contains(("name"@, Tree::Text(text))) ==> database.name == text
            &&& (forall|text: Seq<char>| !(#[trigger] entries.contains(("name"@, Tree::Text(text)))))
                ==> database.name == "unknown"@
            &&& forall|text: Seq<char>| #[trigger]
                cpu.contains(("architecture"@, Tree::Text(text))) ==> database.cpu.architecture
                    == text
            &&& (forall|text: Seq<char>|
                !(#[trigger] cpu.contains(("architecture"@, Tree::Text(text)))))
                ==> database.cpu.architecture == "unknown"@
            &&& forall|text: Seq<char>| #[trigger]
                cpu.contains(("marketing_name"@, Tree::Text(text))) ==> database.cpu.marketing_name
                    == text
            &&& (forall|text: Seq<char>|
                !(#[trigger] cpu.contains(("marketing_name"@, Tree::Text(text)))))
                ==> database.cpu.marketing_name == database.name
            &&& forall|n: u64| #[trigger]
                cpu.contains(("fixed_counters"@, Tree::Unsigned(n)))
                    ==> database.cpu.fixed_counters == n
            &&& (forall|n: u64| !(#[trigger] cpu.contains(("fixed_counters"@, Tree::Unsigned(n)))))
                ==> database.cpu.fixed_counters == 0
            &&& forall|n: u64| #[trigger]
                cpu.contains(("config_counters"@, Tree::Unsigned(n)))
                    ==> database.cpu.config_counters == n
            &&& (forall|n: u64| !(#[trigger] cpu.contains(("config_counters"@, Tree::Unsigned(n)))))
                ==> database.cpu.config_counters == 0
        }),
{
    lemma_path(entries, system, cpu, events);
    lemma_lookup_contains(entries, "name"@);
    lemma_lookup_contains(cpu, "architecture"@);
    lemma_lookup_contains(cpu, "marketing_name"@);
    lemma_lookup_contains(cpu, "fixed_counters"@);
    lemma_lookup_contains(cpu, "config_counters"@);
    lemma_values(entries, "name"@);
    lemma_values(cpu, "architecture"@);
    lemma_values(cpu, "marketing_name"@);
    lemma_values(cpu, "fixed_counters"@);
    lemma_values(cpu, "config_counters"@);
}

/// A field that is there is in its dictionary.
proof fn lemma_values(entries: Seq<(Seq<char>, Tree)>, key: Seq<char>)
    requires
        distinct_keys(entries),
    ensures
        text_field(entries, key) matches Some(text) ==> entries.contains((key, Tree::Text(text))),
        unsigned_field(entries, key) matches Some(n) ==> entries.contains((key, Tree::Unsigned(n))),
        dictionary_field(entries, key) matches Some(fields) ==> entries.contains(
            (key, Tree::Dictionary(fields)),
        ),
{
    lemma_lookup_contains(entries, key);
}

/// Law: the aliases of a database are the texts under `system.cpu.aliases` of
/// its property list, each under its key, in the order of the property list;
/// and there are none where that is no dictionary.
pub proof fn law_aliases_are_read(
    entries: Seq<(Seq<char>, Tree)>,
    system: Seq<(Seq<char>, Tree)>,
    cpu: Seq<(Seq<char>, Tree)>,
    events: Seq<(Seq<char>, Tree)>,
)
    requires
        Tree::Dictionary(entries).well_keyed(),
        entries.contains(("system"@, Tree::Dictionary(system))),
        system.contains(("cpu"@, Tree::Dictionary(cpu))),
        cpu.contains(("events"@, Tree::Dictionary(events))),
    ensures
        forall|aliases: Seq<(Seq<char>, Tree)>| #[trigger]
            cpu.contains(("aliases"@, Tree::Dictionary(aliases))) ==> database_of(
                Tree::Dictionary(entries),
            )->Ok_0.cpu.aliases == aliases.filter(
                |entry: (Seq<char>, Tree)| entry.1 is Text,
            ).map_values(|entry: (Seq<char>, Tree)| (entry.0, entry.1->Text_0)),
        (forall|aliases: Seq<(Seq<char>, Tree)>|
            !(#[trigger] cpu.contains(("aliases"@, Tree::Dictionary(aliases))))) ==> database_of(
            Tree::Dictionary(entries),
        )->Ok_0.cpu.aliases.len() == 0,
{
    lemma_path(entries, system, cpu, events);
    lemma_lookup_contains(cpu, "aliases"@);
    lemma_values(cpu, "aliases"@);
    assert forall|aliases: Seq<(Seq<char>, Tree)>| #[trigger]
        cpu.contains(("aliases"@, Tree::Dictionary(aliases))) implies database_of(
        Tree::Dictionary(entries),
    )->Ok_0.cpu.aliases == aliases.filter(|entry: (Seq<char>, Tree)| entry.1 is Text).map_values(
        |entry: (Seq<char>, Tree)| (entry.0, entry.1->Text_0),
    ) by {
        lemma_entry_well_keyed(cpu, "aliases"@, aliases);
        lemma_aliases_of(aliases);
    }
}

proof fn lemma_aliases_of(entries: Seq<(Seq<char>, Tree)>)
    requires
        distinct_keys(entries),
    ensures
        aliases_of(entries) == entries.filter(
            |entry: (Seq<char>, Tree)| entry.1 is Text,
        ).map_values(|entry: (Seq<char>, Tree)| (entry.0, entry.1->Text_0)),
    decreases entries.len(),
{
    reveal(Seq::filter);
    let is_text = |entry: (Seq<char>, Tree)| entry.1 is Text;
    let pair = |entry: (Seq<char>, Tree)| (entry.0, entry.1->Text_0);
    if entries.len() == 0 {
        assert(entries.filter(is_text).map_values(pair) =~= Seq::empty());
    } else {
        let front = entries.drop_last();
        let (key, value) = entries.last();
        assert forall|i: int, j: int| 0 <= i < j < front.len() implies (#[trigger] front[i]).0 != (
        #[trigger] front[j]).0 by {
            assert(front[i] == entries[i] && front[j] == entries[j]);
        }
        lemma_aliases_of(front);
        if value is Text {
            assert forall|k: int| 0 <= k < front.len() implies (#[trigger] front[k]).0 != key by {
                assert(entries[k].0 != entries[entries.len() - 1].0);
            }
            lemma_lookup(front, key, front.len() as int);
            law_aliases_are_texts(front, key);
            assert(aliases_of(entries) == aliases_of(front).push((key, value->Text_0)));
            assert(entries.filter(is_text) == front.filter(is_text).push(entries.last()));
            assert(front.filter(is_text).push(entries.last()).map_values(pair)
                =~= front.filter(is_text).map_values(pair).push(pair(entries.last())));
        }
    }
}

/// Law: what is no dictionary, or lacks one of the dictionaries `system`,
/// `system.cpu` and `system.cpu.events`, is no database, and the first that it
/// lacks is named.
pub proof fn law_what_is_missing(entries: Seq<(Seq<char>, Tree)>)
    requires
        Tree::Dictionary(entries).well_keyed(),
    ensures
        (forall|system: Seq<(Seq<char>, Tree)>|
            !(#[trigger] entries.contains(("system"@, Tree::Dictionary(system)))))
            ==> database_of(Tree::Dictionary(entries)) == Err::<DatabaseModel, Seq<char>>(
            "missing system"@,
        ),
        forall|system: Seq<(Seq<char>, Tree)>|
            {
                &&& #[trigger] entries.contains(("system"@, Tree::Dictionary(system)))
                &&& forall|cpu: Seq<(Seq<char>, Tree)>|
                    !(#[trigger] system.contains(("cpu"@, Tree::Dictionary(cpu))))
            } ==> database_of(Tree::Dictionary(entries)) == Err::<DatabaseModel, Seq<char>>(
                "missing system.cpu"@,
            ),
        forall|system: Seq<(Seq<char>, Tree)>, cpu: Seq<(Seq<char>, Tree)>|
            {
                &&& #[trigger] entries.contains(("system"@, Tree::Dictionary(system)))
                &&& #[trigger] system.contains(("cpu"@, Tree::Dictionary(cpu)))
                &&& forall|events: Seq<(Seq<char>, Tree)>|
                    !(#[trigger] cpu.contains(("events"@, Tree::Dictionary(events))))
            } ==> database_of(Tree::Dictionary(entries)) == Err::<DatabaseModel, Seq<char>>(
                "missing system.cpu.events"@,
            ),
        database_of(Tree::Other) == Err::<DatabaseModel, Seq<char>>("root is not a dict"@),
        forall|text: Seq<char>| #[trigger]
            database_of(Tree::Text(text)) == Err::<DatabaseModel, Seq<char>>("root is not a dict"@),
        forall|n: u64| #[trigger]
            database_of(Tree::Unsigned(n)) == Err::<DatabaseModel, Seq<char>>("root is not a dict"@),
{
    lemma_lookup_contains(entries, "system"@);
    lemma_values(entries, "system"@);
    assert forall|system: Seq<(Seq<char>, Tree)>|
        {
            &&& #[trigger] entries.contains(("system"@, Tree::Dictionary(system)))
            &&& forall|cpu: Seq<(Seq<char>, Tree)>|
                !(#[trigger] system.contains(("cpu"@, Tree::Dictionary(cpu))))
        } implies database_of(Tree::Dictionary(entries)) == Err::<DatabaseModel, Seq<char>>(
        "missing system.cpu"@,
    ) by {
        lemma_entry_well_keyed(entries, "system"@, system);
        lemma_values(system, "cpu"@);
    }
    assert forall|system: Seq<(Seq<char>, Tree)>, cpu: Seq<(Seq<char>, Tree)>|
        {
            &&& #[trigger] entries.contains(("system"@, Tree::Dictionary(system)))
            &&& #[trigger] system.contains(("cpu"@, Tree::Dictionary(cpu)))
            &&& forall|events: Seq<(Seq<char>, Tree)>|
                !(#[trigger] cpu.contains(("events"@, Tree::Dictionary(events))))
        } implies database_of(Tree::Dictionary(entries)) == Err::<DatabaseModel, Seq<char>>(
        "missing system.cpu.events"@,
    ) by {
        lemma_entry_well_keyed(entries, "system"@, system);
        lemma_entry_well_keyed(system, "cpu"@, cpu);
        lemma_lookup_contains(system, "cpu"@);
        lemma_values(cpu, "events"@);
    }
}

/// Law: a name means the first event that is called so, or, where it is an
/// alias, the first that is called as the alias says, whatever is called as the
/// alias itself; and nothing where there is no such event.
///
/// `at` is where the alias stands, or the number of aliases where the name is
/// none of them.
pub proof fn law_meaning_of_a_name(
    database: DatabaseModel,
    name: Seq<char>,
    target: Seq<char>,
    at: int,
)
    requires
        0 <= at <= database.cpu.aliases.len(),
        forall|k: int| 0 <= k < at ==> (#[trigger] database.cpu.aliases[k]).0 != name,
        if at < database.cpu.aliases.len() {
            database.cpu.aliases[at] == (name, target)
        } else {
            target == name
        },
    ensures
        match event_meant(database, name) {
            Some(event) => exists|k: int|
                0 <= k < database.events.len() && #[trigger] database.events[k] == event
                    && event.name == target && forall|m: int|
                    0 <= m < k ==> (#[trigger] database.events[m]).name != target,
            None => forall|k: int|
                0 <= k < database.events.len() ==> (#[trigger] database.events[k]).name != target,
        },
{
    lemma_alias_target(database.cpu.aliases, name, at);
    lemma_first_event(database.events, target);
}

proof fn lemma_first_event(events: Seq<EventModel>, name: Seq<char>)
    ensures
        match event_named(events, name) {
            Some(event) => exists|k: int|
                0 <= k < events.len() && #[trigger] events[k] == event && event.name == name
                    && forall|m: int| 0 <= m < k ==> (#[trigger] events[m]).name != name,
            None => forall|k: int| 0 <= k < events.len() ==> (#[trigger] events[k]).name != name,
        },
    decreases events.len(),
{
    if events.len() > 0 {
        if events[0].name == name {
            assert(events[0] == event_named(events, name)->0);
        } else {
            let rest = events.drop_first();
            lemma_first_event(rest, name);
            match event_named(rest, name) {
                Some(event) => {
                    let k = choose|k: int|
                        0 <= k < rest.len() && #[trigger] rest[k] == event && event.name == name
                            && forall|m: int| 0 <= m < k ==> (#[trigger] rest[m]).name != name;
                    assert(events[k + 1] == event);
                    assert forall|m: int| 0 <= m < k + 1 implies (#[trigger] events[m]).name
                        != name by {
                        if m > 0 {
                            assert(events[m] == rest[m - 1]);
                        }
                    }
                },
                None => {
                    assert forall|k: int| 0 <= k < events.len() implies (#[trigger] events[k]).name
                        != name by {
                        if k > 0 {
                            assert(events[k] == rest[k - 1]);
                        }
                    }
                },
            }
        }
    }
}

/// Law: the fixed events are those with a fixed counter, and the configurable
/// ones those with a number and without a fixed counter, both in the order that
/// they have among all events.
pub proof fn law_two_kinds_of_events(a: Seq<EventModel>, event: EventModel, b: Seq<EventModel>)
    ensures
        fixed_of(a + b) == fixed_of(a) + fixed_of(b),
        configurable_of(a + b) == configurable_of(a) + configurable_of(b),
        fixed_of(seq![event]) == if event.fixed_counter is Some {
            seq![event]
        } else {
            Seq::empty()
        },
        configurable_of(seq![event]) == if event.fixed_counter is None && event.number is Some {
            seq![event]
        } else {
            Seq::empty()
        },
{
    let fixed = |event: EventModel| event.is_fixed();
    let configurable = |event: EventModel| event.is_configurable();
    Seq::filter_distributes_over_add(a, b, fixed);
    Seq::filter_distributes_over_add(a, b, configurable);
    reveal(Seq::filter);
    let none = seq![event].drop_last();
    assert(none =~= Seq::<EventModel>::empty());
    assert(none.filter(fixed) =~= Seq::empty());
    assert(none.filter(configurable) =~= Seq::empty());
    assert(seq![event].filter(fixed) =~= if event.fixed_counter is Some {
        seq![event]
    } else {
        Seq::empty()
    });
    assert(seq![event].filter(configurable) =~= if event.fixed_counter is None && event.number is Some {
        seq![event]
    } else {
        Seq::empty()
    });
}

/// Law: an event is fixed exactly where it has a fixed counter, and configurable
/// exactly where it has a number and no fixed counter.
pub proof fn law_kind_of_an_event(event: EventModel)
    ensures
        event.is_fixed() <==> event.fixed_counter is Some,
        event.is_configurable() <==> event.number is Some && event.fixed_counter is None,
{
}

/// Law: an alias stands for the target that the first entry of its name says,
/// and a name without an entry is no alias.
///
/// `at` is where the entry stands, or the number of aliases where there is none.
pub proof fn law_alias_target(aliases: Seq<(Seq<char>, Seq<char>)>, name: Seq<char>, at: int)
    requires
        0 <= at <= aliases.len(),
        forall|k: int| 0 <= k < at ==> (#[trigger] aliases[k]).0 != name,
        at < aliases.len() ==> aliases[at].0 == name,
    ensures
        at < aliases.len() ==> alias_target(aliases, name) == Some(aliases[at].1),
        at == aliases.len() ==> alias_target(aliases, name) is None,
{
    lemma_alias_target(aliases, name, at);
}

/// Law: a new alias goes to the end of the others, and an alias that is there
/// gets its new target in its place; no other alias changes.
pub proof fn law_alias_insert(
    aliases: Seq<(Seq<char>, Seq<char>)>,
    alias: Seq<char>,
    target: Seq<char>,
    at: int,
)
    requires
        forall|i: int, j: int|
            0 <= i < j < aliases.len() ==> (#[trigger] aliases[i]).0 != (#[trigger] aliases[j]).0,
        0 <= at <= aliases.len(),
        forall|k: int| 0 <= k < at ==> (#[trigger] aliases[k]).0 != alias,
        at < aliases.len() ==> aliases[at].0 == alias,
    ensures
        at < aliases.len() ==> with_alias(aliases, alias, target) == aliases.update(
            at,
            (alias, target),
        ),
        at == aliases.len() ==> with_alias(aliases, alias, target) == aliases.push((alias, target)),
{
    lemma_alias_target(aliases, alias, at);
    if at < aliases.len() {
        assert forall|k: int| at < k < aliases.len() implies (#[trigger] aliases[k]).0 != alias by {
            assert(aliases[at].0 != aliases[k].0);
        }
        assert(with_alias(aliases, alias, target) =~= aliases.update(at, (alias, target)));
    }
}

/// Law: what is said of an event and of a CPU is what their fields hold.
pub proof fn law_models_say_the_fields(event: KpepEvent, cpu: CpuInfo)
    ensures
        event@.name == event.name@,
        event@.description == event.description@,
        event@.number == event.number,
        event@.counters_mask == event.counters_mask,
        event@.pc_capture_counters_mask == event.pc_capture_counters_mask,
        event@.fixed_counter == event.fixed_counter,
        event@.fallback is Some <==> event.fallback is Some,
        event.fallback matches Some(name) ==> event@.fallback == Some(name@),
        cpu@.architecture == cpu.architecture@,
        cpu@.marketing_name == cpu.marketing_name@,
        cpu@.fixed_counters == cpu.fixed_counters,
        cpu@.config_counters == cpu.config_counters,
        cpu@.aliases == cpu.aliases@,
{
}

/// Law: a list says of each of its elements what the element says, in their
/// order.
pub proof fn law_lists_say_their_elements(
    events: Seq<KpepEvent>,
    borrowed: Seq<&KpepEvent>,
    pairs: Seq<(String, String)>,
    entries: Vec<(String, Plist)>,
    i: int,
)
    ensures
        event_models(events).len() == events.len(),
        0 <= i < events.len() ==> event_models(events)[i] == events[i]@,
        borrowed_models(borrowed).len() == borrowed.len(),
        0 <= i < borrowed.len() ==> borrowed_models(borrowed)[i] == borrowed[i]@,
        pair_texts(pairs).len() == pairs.len(),
        0 <= i < pairs.len() ==> pair_texts(pairs)[i] == (pairs[i].0@, pairs[i].1@),
        entry_trees(entries@).len() == entries@.len(),
        0 <= i < entries@.len() ==> entry_trees(entries@)[i] == (
            entries@[i].0@,
            entries@[i].1.tree(),
        ),
        Plist::Dictionary(entries).tree() == Tree::Dictionary(entry_trees(entries@)),
        Plist::Other.tree() == Tree::Other,
        forall|text: String| #[trigger] Plist::Text(text).tree() == Tree::Text(text@),
        forall|n: u64| #[trigger] Plist::Unsigned(n).tree() == Tree::Unsigned(n),
{
    crate::document::lemma_dictionary_tree(entries);
}

} // verus!

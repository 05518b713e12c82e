//! The list of a CPU's events.

use vstd::prelude::*;
use vstd::string::*;

use crate::aliases::AliasTable;
use crate::kpep::{
    borrowed_models, configurable_of, fixed_of, number_or_zero, DatabaseModel, EventModel,
    KpepDatabase, KpepEvent,
};
use crate::text::{
    ascii_lower, ascii_lowercase, contains, contains_text, decimal, decimal_text, hexadecimal, hexadecimal_text, is_ascii, left_aligned,
    occurs_at, push_left_aligned,
};

verus! {

/// The lower case form of a text that is not ASCII, by the rules of Unicode.
pub uninterp spec fn unicode_lowercase(text: Seq<char>) -> Seq<char>;

/// `str::to_lowercase` gives the lower case equivalent of a text by the rules
/// of Unicode, as a new string. An ASCII text has its letters `A` to `Z`
/// replaced by `a` to `z`; what any other text gives depends on the text alone.
pub assume_specification[ str::to_lowercase ](text: &str) -> (result: String)
    ensures
        is_ascii(text@) ==> result@ == ascii_lowercase(text@),
        !is_ascii(text@) ==> result@ == unicode_lowercase(text@),
;

/// The lower case form of a text.
pub open spec fn lowercase(text: Seq<char>) -> Seq<char> {
    if is_ascii(text) {
        ascii_lowercase(text)
    } else {
        unicode_lowercase(text)
    }
}

/// Whether `pattern` stands in a name or in a description.
pub open spec fn mentions(name: Seq<char>, description: Seq<char>, pattern: Seq<char>) -> bool {
    contains_text(name, pattern) || contains_text(description, pattern)
}

/// Whether an event passes a filter, which stands in its name or description,
/// upper or lower case.
pub open spec fn passes(event: EventModel, filter: Option<Seq<char>>) -> bool {
    match filter {
        Some(pattern) => mentions(
            lowercase(event.name),
            lowercase(event.description),
            lowercase(pattern),
        ),
        None => true,
    }
}

/// Those of `events` that pass a filter, in their order.
pub open spec fn passing(events: Seq<EventModel>, filter: Option<Seq<char>>) -> Seq<EventModel> {
    events.filter(|event: EventModel| passes(event, filter))
}

/// `n` in base sixteen behind `0x`, with at least two digits.
pub open spec fn event_number_text(n: nat) -> Seq<char> {
    if hexadecimal(n).len() < 2 {
        "0x0"@ + hexadecimal(n)
    } else {
        "0x"@ + hexadecimal(n)
    }
}

/// The counter slots that can count an event.
pub open spec fn mask_text(mask: Option<u64>) -> Seq<char> {
    match mask {
        Some(mask) => "mask=0x"@ + hexadecimal(mask as nat),
        None => "any slot"@,
    }
}

/// The line of a fixed counter.
pub open spec fn fixed_line(event: EventModel) -> Seq<char> {
    "  [fixed "@ + decimal(number_or_zero(event.fixed_counter) as nat) + "] "@ + left_aligned(
        event.name,
        35,
    ) + " "@ + event.description + "\n"@
}

/// The line of a configurable event.
pub open spec fn configurable_line(event: EventModel) -> Seq<char> {
    "  ["@ + event_number_text(number_or_zero(event.number) as nat) + "] "@ + left_aligned(
        event.name,
        35,
    ) + " ("@ + mask_text(event.counters_mask) + ") "@ + event.description + "\n"@
}

/// The lines of fixed counters.
pub open spec fn fixed_lines(events: Seq<EventModel>) -> Seq<char>
    decreases events.len(),
{
    if events.len() == 0 {
        Seq::empty()
    } else {
        fixed_lines(events.drop_last()) + fixed_line(events.last())
    }
}

/// The lines of configurable events.
pub open spec fn configurable_lines(events: Seq<EventModel>) -> Seq<char>
    decreases events.len(),
{
    if events.len() == 0 {
        Seq::empty()
    } else {
        configurable_lines(events.drop_last()) + configurable_line(events.last())
    }
}

/// The lines of aliases.
pub open spec fn alias_lines(aliases: Seq<(Seq<char>, Seq<char>)>) -> Seq<char>
    decreases aliases.len(),
{
    if aliases.len() == 0 {
        Seq::empty()
    } else {
        alias_lines(aliases.drop_last()) + "  "@ + aliases.last().0 + " -> "@ + aliases.last().1
            + "\n"@
    }
}

/// What is said of the CPU.
pub open spec fn cpu_lines(database: DatabaseModel) -> Seq<char> {
    "CPU: "@ + database.cpu.marketing_name + " ("@ + database.cpu.architecture + ")\n"@
        + "Fixed counters: "@ + decimal(database.cpu.fixed_counters as nat)
        + ", Configurable counters: "@ + decimal(database.cpu.config_counters as nat) + "\n"@
}

/// `lines` under a heading, or nothing where there are none.
pub open spec fn section(heading: Seq<char>, present: bool, lines: Seq<char>) -> Seq<char> {
    if present {
        heading + lines
    } else {
        Seq::empty()
    }
}

/// The list of a database's events: the CPU, the aliases, the fixed counters
/// and the configurable events that pass the filter, and how many of the latter
/// there are.
pub open spec fn list_text(database: DatabaseModel, filter: Option<Seq<char>>) -> Seq<char> {
    let fixed = passing(fixed_of(database.events), filter);
    let listed = passing(configurable_of(database.events), filter);
    cpu_lines(database) + section(
        "\nAliases:\n"@,
        database.cpu.aliases.len() > 0,
        alias_lines(database.cpu.aliases),
    ) + section(
        "\nFixed counters:\n"@,
        fixed.len() > 0,
        fixed_lines(fixed),
    ) + "\nConfigurable events:\n"@ + configurable_lines(listed) + "\n"@ + decimal(listed.len())
        + " events listed.\n"@
}

/// Whether a pattern stands in a name or in a description.
pub fn is_mentioned(name: &str, description: &str, pattern: &str) -> (result: bool)
    ensures
        result == mentions(name@, description@, pattern@),
{
    contains(name, pattern) || contains(description, pattern)
}

/// The optional text that a filter is.
pub open spec fn filter_text(filter: Option<&str>) -> Option<Seq<char>> {
    match filter {
        Some(pattern) => Some(pattern@),
        None => None,
    }
}

/// Whether an event passes a filter, upper or lower case.
pub fn passes_filter(event: &KpepEvent, filter: Option<&str>) -> (result: bool)
    ensures
        result == passes(event@, filter_text(filter)),
{
    match filter {
        Some(pattern) => {
            let pattern_lower = pattern.to_lowercase();
            let name_lower = event.name.as_str().to_lowercase();
            let description_lower = event.description.as_str().to_lowercase();
            is_mentioned(name_lower.as_str(), description_lower.as_str(), pattern_lower.as_str())
        },
        None => true,
    }
}

/// Writes an event number: `0x` and at least two digits in base sixteen.
pub fn format_event_number(n: u64) -> (text: String)
    ensures
        text@ == event_number_text(n as nat),
{
    let digits = hexadecimal_text(n);
    if digits.as_str().unicode_len() < 2 {
        "0x0".to_owned().concat(digits.as_str())
    } else {
        "0x".to_owned().concat(digits.as_str())
    }
}

/// Writes the counter slots that can count an event.
pub fn format_mask(mask: Option<u64>) -> (text: String)
    ensures
        text@ == mask_text(mask),
{
    match mask {
        Some(mask) => "mask=0x".to_owned().concat(hexadecimal_text(mask).as_str()),
        None => "any slot".to_owned(),
    }
}

/// A number, or zero.
fn or_zero(number: Option<u64>) -> (result: u64)
    ensures
        result == number_or_zero(number),
{
    match number {
        Some(number) => number,
        None => 0,
    }
}

/// Makes the line of a fixed counter.
fn make_fixed_line(event: &KpepEvent) -> (line: String)
    ensures
        line@ == fixed_line(event@),
{
    let mut line = "  [fixed ".to_owned();
    line.append(decimal_text(or_zero(event.fixed_counter)).as_str());
    line.append("] ");
    push_left_aligned(&mut line, event.name.as_str(), 35);
    line.append(" ");
    line.append(event.description.as_str());
    line.append("\n");
    line
}

/// Makes the line of a configurable event.
fn make_configurable_line(event: &KpepEvent) -> (line: String)
    ensures
        line@ == configurable_line(event@),
{
    let mut line = "  [".to_owned();
    line.append(format_event_number(or_zero(event.number)).as_str());
    line.append("] ");
    push_left_aligned(&mut line, event.name.as_str(), 35);
    line.append(" (");
    line.append(format_mask(event.counters_mask).as_str());
    line.append(") ");
    line.append(event.description.as_str());
    line.append("\n");
    line
}

/// Makes the lines of fixed counters.
fn make_fixed_lines(events: &Vec<&KpepEvent>) -> (lines: String)
    ensures
        lines@ == fixed_lines(borrowed_models(events@)),
{
    let ghost models = borrowed_models(events@);
    let mut lines = String::new();
    let mut i: usize = 0;
    assert(models.take(0) =~= Seq::<EventModel>::empty());
    while i < events.len()
        invariant
            i <= events@.len(),
            models == borrowed_models(events@),
            lines@ == fixed_lines(models.take(i as int)),
        decreases events@.len() - i,
    {
        lines.append(make_fixed_line(events[i]).as_str());
        i += 1;
        assert(models.take(i as int).drop_last() =~= models.take(i - 1));
        assert(models.take(i as int).last() == events@[i - 1]@);
    }
    assert(models.take(i as int) =~= models);
    lines
}

/// Makes the lines of aliases.
fn make_alias_lines(aliases: &AliasTable) -> (lines: String)
    ensures
        lines@ == alias_lines(aliases@),
{
    let count = aliases.len();
    let mut lines = String::new();
    let mut i: usize = 0;
    assert(aliases@.take(0) =~= Seq::<(Seq<char>, Seq<char>)>::empty());
    while i < count
        invariant
            i <= count == aliases@.len(),
            lines@ == alias_lines(aliases@.take(i as int)),
        decreases count - i,
    {
        let (alias, target) = aliases.entry(i);
        lines.append("  ");
        lines.append(alias);
        lines.append(" -> ");
        lines.append(target);
        lines.append("\n");
        i += 1;
        assert(aliases@.take(i as int).drop_last() =~= aliases@.take(i - 1));
    }
    assert(aliases@.take(i as int) =~= aliases@);
    lines
}

/// Picks the events that pass a filter.
fn pick_passing<'a>(events: &Vec<&'a KpepEvent>, filter: Option<&str>) -> (result: Vec<
    &'a KpepEvent,
>)
    ensures
        borrowed_models(result@) == passing(borrowed_models(events@), filter_text(filter)),
{
    let ghost models = borrowed_models(events@);
    let ghost keep = |event: EventModel| passes(event, filter_text(filter));
    let mut result: Vec<&'a KpepEvent> = Vec::new();
    let mut i: usize = 0;
    reveal(Seq::filter);
    assert(borrowed_models(result@) =~= models.take(0).filter(keep));
    while i < events.len()
        invariant
            i <= events@.len(),
            models == borrowed_models(events@),
            keep == (|event: EventModel| passes(event, filter_text(filter))),
            borrowed_models(result@) == models.take(i as int).filter(keep),
        decreases events@.len() - i,
    {
        let ghost before = borrowed_models(result@);
        assert(models.take(i + 1).drop_last() =~= models.take(i as int));
        reveal(Seq::filter);
        if passes_filter(events[i], filter) {
            result.push(events[i]);
            assert(borrowed_models(result@) =~= before.push(models[i as int]));
        }
        i += 1;
    }
    assert(models.take(i as int) =~= models);
    result
}

/// Makes the lines of configurable events.
fn make_configurable_lines(events: &Vec<&KpepEvent>) -> (lines: String)
    ensures
        lines@ == configurable_lines(borrowed_models(events@)),
{
    let ghost models = borrowed_models(events@);
    let mut lines = String::new();
    let mut i: usize = 0;
    assert(models.take(0) =~= Seq::<EventModel>::empty());
    while i < events.len()
        invariant
            i <= events@.len(),
            models == borrowed_models(events@),
            lines@ == configurable_lines(models.take(i as int)),
        decreases events@.len() - i,
    {
        lines.append(make_configurable_line(events[i]).as_str());
        i += 1;
        assert(models.take(i as int).drop_last() =~= models.take(i - 1));
        assert(models.take(i as int).last() == events@[i - 1]@);
    }
    assert(models.take(i as int) =~= models);
    lines
}

/// Lists all events of a database.
///
/// Shows the CPU, aliases, fixed counters, and configurable events with their
/// counter slot masks. With a filter, only events whose name or description
/// matches (case-insensitive) are shown.
pub fn format_list(database: &KpepDatabase, filter: Option<&str>) -> (text: String)
    ensures
        text@ == list_text(database@, filter_text(filter)),
{
    let cpu = database.cpu();
    let mut text = "CPU: ".to_owned();
    text.append(cpu.marketing_name.as_str());
    text.append(" (");
    text.append(cpu.architecture.as_str());
    text.append(")\n");
    text.append("Fixed counters: ");
    text.append(decimal_text(cpu.fixed_counters).as_str());
    text.append(", Configurable counters: ");
    text.append(decimal_text(cpu.config_counters).as_str());
    text.append("\n");

    let mut aliases = String::new();
    if !cpu.aliases.is_empty() {
        aliases = "\nAliases:\n".to_owned().concat(make_alias_lines(&cpu.aliases).as_str());
    }
    text.append(aliases.as_str());

    let fixed_events = pick_passing(&database.fixed_events(), filter);
    let mut fixed = String::new();
    if fixed_events.len() > 0 {
        fixed = "\nFixed counters:\n".to_owned().concat(make_fixed_lines(&fixed_events).as_str());
    }
    text.append(fixed.as_str());

    let configurable_events = database.configurable_events();
    let listed = pick_passing(&configurable_events, filter);
    text.append("\nConfigurable events:\n");
    text.append(make_configurable_lines(&listed).as_str());
    text.append("\n");
    text.append(decimal_text(listed.len() as u64).as_str());
    text.append(" events listed.\n");
    proof {
        assert(borrowed_models(fixed_events@).len() == fixed_events@.len());
        assert(borrowed_models(listed@).len() == listed@.len());
    }
    text
}

/// Law: a filter narrows a list of events: what passes it are the events that
/// match, no others, in their order, and without a filter all pass.
pub proof fn law_filter_narrows(events: Seq<EventModel>, filter: Option<Seq<char>>)
    ensures
        passing(events, filter).len() <= events.len(),
        passing(events, None) == events,
        forall|event: EventModel| #[trigger]
            passing(events, filter).contains(event) <==> events.contains(event) && passes(
                event,
                filter,
            ),
{
    lemma_filter_all(events, |event: EventModel| passes(event, None));
    let keep = |event: EventModel| passes(event, filter);
    events.lemma_filter_len(keep);
    assert forall|event: EventModel| #[trigger] passing(events, filter).contains(event) <==> (
    events.contains(event) && passes(event, filter)) by {
        if passing(events, filter).contains(event) {
            let k = choose|k: int|
                0 <= k < passing(events, filter).len() && passing(events, filter)[k] == event;
            events.lemma_filter_contains_rev(keep, event);
            events.lemma_filter_pred(keep, k);
        }
        if events.contains(event) && passes(event, filter) {
            let k = choose|k: int| 0 <= k < events.len() && events[k] == event;
            events.lemma_filter_contains(keep, k);
        }
    }
}

proof fn lemma_filter_all(events: Seq<EventModel>, keep: spec_fn(EventModel) -> bool)
    requires
        forall|event: EventModel| #[trigger] keep(event),
    ensures
        events.filter(keep) == events,
    decreases events.len(),
{
    reveal(Seq::filter);
    if events.len() > 0 {
        lemma_filter_all(events.drop_last(), keep);
        assert(events.drop_last().push(events.last()) =~= events);
    }
}

/// Law: an empty filter lists the same as none.
pub proof fn law_empty_filter_lists_all(database: DatabaseModel)
    ensures
        list_text(database, Some(Seq::empty())) == list_text(database, None),
{
    let none = Seq::<char>::empty();
    assert(lowercase(none) =~= none);
    assert forall|text: Seq<char>| #[trigger] contains_text(text, lowercase(none)) by {
        assert(text.subrange(0, 0) =~= none);
        assert(occurs_at(text, lowercase(none), 0));
    }
    assert((|event: EventModel| passes(event, Some(none))) =~= (|event: EventModel|
        passes(event, None)));
}

/// Law: upper and lower case do not matter to a filter: two filters with the
/// same lower case form list the same.
pub proof fn law_filter_ignores_case(database: DatabaseModel, p: Seq<char>, q: Seq<char>)
    requires
        lowercase(p) == lowercase(q),
    ensures
        list_text(database, Some(p)) == list_text(database, Some(q)),
{
    assert((|event: EventModel| passes(event, Some(p))) =~= (|event: EventModel|
        passes(event, Some(q))));
}

/// Law: two ASCII filters that differ in upper and lower case alone list the
/// same.
pub proof fn law_filter_ignores_ascii_case(database: DatabaseModel, p: Seq<char>, q: Seq<char>)
    requires
        is_ascii(p),
        p.len() == q.len(),
        forall|i: int| 0 <= i < p.len() ==> ascii_lower(#[trigger] p[i]) == ascii_lower(q[i]),
    ensures
        list_text(database, Some(p)) == list_text(database, Some(q)),
{
    assert forall|i: int| 0 <= i < q.len() implies #[trigger] q[i] < '\u{80}' by {
        assert(p[i] < '\u{80}');
        assert(ascii_lower(p[i]) == ascii_lower(q[i]));
    }
    assert(lowercase(p) =~= lowercase(q));
    law_filter_ignores_case(database, p, q);
}

/// Law: where no event matches, the list shows the CPU and the aliases, and no
/// events.
pub proof fn law_no_match_lists_nothing(database: DatabaseModel, filter: Option<Seq<char>>)
    requires
        forall|k: int|
            0 <= k < database.events.len() ==> !passes(#[trigger] database.events[k], filter),
    ensures
        list_text(database, filter) == cpu_lines(database) + section(
            "\nAliases:\n"@,
            database.cpu.aliases.len() > 0,
            alias_lines(database.cpu.aliases),
        ) + "\nConfigurable events:\n"@ + "\n"@ + decimal(0) + " events listed.\n"@,
{
    let events = database.events;
    lemma_none_pass(events, |event: EventModel| event.is_fixed(), filter);
    lemma_none_pass(events, |event: EventModel| event.is_configurable(), filter);
    let head = cpu_lines(database) + section(
        "\nAliases:\n"@,
        database.cpu.aliases.len() > 0,
        alias_lines(database.cpu.aliases),
    );
    assert(head + Seq::<char>::empty() =~= head);
    let heading = head + "\nConfigurable events:\n"@;
    assert(heading + Seq::<char>::empty() =~= heading);
}

proof fn lemma_none_pass(
    events: Seq<EventModel>,
    keep: spec_fn(EventModel) -> bool,
    filter: Option<Seq<char>>,
)
    requires
        forall|k: int| 0 <= k < events.len() ==> !passes(#[trigger] events[k], filter),
    ensures
        passing(events.filter(keep), filter).len() == 0,
{
    let kept = events.filter(keep);
    law_filter_narrows(kept, filter);
    if passing(kept, filter).len() > 0 {
        let event = passing(kept, filter)[0];
        assert(passing(kept, filter).contains(event));
        events.lemma_filter_contains_rev(keep, event);
        let k = choose|k: int| 0 <= k < events.len() && events[k] == event;
        assert(!passes(events[k], filter));
    }
}

} // verus!

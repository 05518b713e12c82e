//! Laws of the event list: which events it has, and what their lines show.

use vstd::prelude::*;

use crate::kpep::{configurable_of, fixed_of, DatabaseModel, EventModel};
use crate::laws::numbers::{law_contained_is_inside, law_contains_what_is_inside, law_hexadecimal};
use crate::list::{
    alias_lines, configurable_line, configurable_lines, event_number_text, filter_text, fixed_line, fixed_lines,
    list_text, lowercase, mask_text, mentions, passes, passing,
};
use crate::text::{ascii_lowercase, decimal, hexadecimal, is_ascii, left_aligned};

verus! {

/// Law: a pattern is mentioned where a name or a description is any text, the
/// pattern and any text.
pub proof fn law_mentioned(
    before: Seq<char>,
    pattern: Seq<char>,
    after: Seq<char>,
    other: Seq<char>,
)
    ensures
        mentions(before + pattern + after, other, pattern),
        mentions(other, before + pattern + after, pattern),
{
    law_contains_what_is_inside(before, pattern, after);
}

/// Law: a pattern is mentioned only where the name or the description is some
/// text, the pattern and some text.
pub proof fn law_mentioned_only_inside(
    name: Seq<char>,
    description: Seq<char>,
    pattern: Seq<char>,
) -> (around: (Seq<char>, Seq<char>))
    requires
        mentions(name, description, pattern),
    ensures
        name == around.0 + pattern + around.1 || description == around.0 + pattern + around.1,
{
    if crate::text::contains_text(name, pattern) {
        let at = law_contained_is_inside(name, pattern);
        (name.take(at as int), name.skip((at + pattern.len()) as int))
    } else {
        let at = law_contained_is_inside(description, pattern);
        (description.take(at as int), description.skip((at + pattern.len()) as int))
    }
}

/// Law: an event passes a filter exactly where the lower case form of its name
/// or that of its description is some text, the lower case form of the filter
/// and some text; and without a filter every event passes.
pub proof fn law_passes(event: EventModel, pattern: Seq<char>)
    ensures
        passes(event, Some(pattern)) <==> exists|before: Seq<char>, after: Seq<char>|
            lowercase(event.name) == #[trigger] (before + lowercase(pattern) + after) || lowercase(
                event.description,
            ) == before + lowercase(pattern) + after,
        passes(event, None),
{
    let (name, description) = (lowercase(event.name), lowercase(event.description));
    let lower = lowercase(pattern);
    if passes(event, Some(pattern)) {
        let (before, after) = law_mentioned_only_inside(name, description, lower);
        assert(name == before + lower + after || description == before + lower + after);
    }
    if exists|before: Seq<char>, after: Seq<char>|
        name == #[trigger] (before + lower + after) || description == before + lower + after {
        let (before, after) = choose|before: Seq<char>, after: Seq<char>|
            name == #[trigger] (before + lower + after) || description == before + lower + after;
        law_mentioned(before, lower, after, name);
        law_mentioned(before, lower, after, description);
    }
}

/// Law: the lower case form of an ASCII text has `a` to `z` in place of `A` to
/// `Z`, and is the same otherwise.
pub proof fn law_lowercase(text: Seq<char>, i: int)
    requires
        forall|k: int| 0 <= k < text.len() ==> (#[trigger] text[k]) as int <= 127,
        0 <= i < text.len(),
    ensures
        lowercase(text).len() == text.len(),
        lowercase(text)[i] == if 'A' <= text[i] <= 'Z' {
            (text[i] as int - 'A' as int + 'a' as int) as char
        } else {
            text[i]
        },
{
    assert(is_ascii(text));
    assert(lowercase(text) == ascii_lowercase(text));
}

/// Law: of events, and then more events, those pass a filter that pass it of
/// each, in their order; and a single event stays exactly where it passes.
pub proof fn law_passing(
    a: Seq<EventModel>,
    event: EventModel,
    b: Seq<EventModel>,
    filter: Option<Seq<char>>,
)
    ensures
        passing(a + b, filter) == passing(a, filter) + passing(b, filter),
        passing(seq![event], filter) == if passes(event, filter) {
            seq![event]
        } else {
            Seq::empty()
        },
{
    let keep = |event: EventModel| passes(event, filter);
    Seq::filter_distributes_over_add(a, b, keep);
    reveal(Seq::filter);
    let none = seq![event].drop_last();
    assert(none =~= Seq::<EventModel>::empty());
    assert(none.filter(keep) =~= Seq::empty());
    assert(seq![event].filter(keep) =~= if passes(event, filter) {
        seq![event]
    } else {
        Seq::empty()
    });
}

/// Law: a filter is the text that it is.
pub proof fn law_filter_text(pattern: &str)
    ensures
        filter_text(Some(pattern)) == Some(pattern@),
        filter_text(None) is None,
{
}

/// Law: an event number is shown behind `0x` with two digits in base sixteen or
/// more, which are the number, and with no leading zero where there are more
/// than two.
pub proof fn law_event_number(n: nat) -> (digits: Seq<char>)
    ensures
        event_number_text(n) == "0x"@ + digits,
        digits.len() >= 2,
        digits.len() > 2 ==> digits[0] != '0',
        forall|i: int|
            0 <= i < digits.len() ==> '0' <= #[trigger] digits[i] <= '9' || 'a' <= digits[i] <= 'f',
        digits.fold_left(
            0int,
            |v: int, c: char|
                16 * v + (if c <= '9' {
                    c as int - '0' as int
                } else {
                    c as int - 'a' as int + 10
                }),
        ) == n,
{
    let f = |v: int, c: char|
        16 * v + (if c <= '9' {
            c as int - '0' as int
        } else {
            c as int - 'a' as int + 10
        });
    law_hexadecimal(n);
    reveal_strlit("0x");
    reveal_strlit("0x0");
    let digits = hexadecimal(n);
    if digits.len() < 2 {
        let padded = seq!['0'] + digits;
        assert(event_number_text(n) =~= "0x"@ + padded);
        assert(padded.drop_last() =~= seq!['0']);
        assert(seq!['0'].drop_last() =~= Seq::<char>::empty());
        assert(seq!['0'].fold_left(0int, f) == 0) by {
            assert(seq!['0'].drop_last().fold_left(0int, f) == 0);
        }
        assert(digits.drop_last() =~= Seq::<char>::empty());
        assert(digits.drop_last().fold_left(0int, f) == 0);
        padded
    } else {
        digits
    }
}

/// Law: the slots of an event are its mask in base sixteen, and any where it has
/// none.
pub proof fn law_mask(mask: u64) -> (digits: Seq<char>)
    ensures
        mask_text(None) == "any slot"@,
        mask_text(Some(mask)) == "mask=0x"@ + digits,
        if mask == 0 {
            digits.len() == 1
        } else {
            digits.len() > 0 && digits[0] != '0'
        },
        forall|i: int|
            0 <= i < digits.len() ==> '0' <= #[trigger] digits[i] <= '9' || 'a' <= digits[i] <= 'f',
        digits.fold_left(
            0int,
            |v: int, c: char|
                16 * v + (if c <= '9' {
                    c as int - '0' as int
                } else {
                    c as int - 'a' as int + 10
                }),
        ) == mask,
{
    law_hexadecimal(mask as nat);
    hexadecimal(mask as nat)
}

proof fn lemma_fixed_lines(events: Seq<EventModel>, lines: Seq<Seq<char>>)
    requires
        lines.len() == events.len(),
        forall|k: int| 0 <= k < lines.len() ==> #[trigger] lines[k] == fixed_line(events[k]),
    ensures
        fixed_lines(events) == lines.fold_left(
            Seq::<char>::empty(),
            |text: Seq<char>, line: Seq<char>| text + line,
        ),
    decreases events.len(),
{
    if events.len() > 0 {
        let (front, fewer) = (events.drop_last(), lines.drop_last());
        assert forall|k: int| 0 <= k < fewer.len() implies #[trigger] fewer[k] == fixed_line(
            front[k],
        ) by {
            assert(fewer[k] == lines[k]);
        }
        lemma_fixed_lines(front, fewer);
        assert(lines.last() == lines[events.len() - 1]);
    }
}

proof fn lemma_configurable_lines(events: Seq<EventModel>, lines: Seq<Seq<char>>)
    requires
        lines.len() == events.len(),
        forall|k: int| 0 <= k < lines.len() ==> #[trigger] lines[k] == configurable_line(events[k]),
    ensures
        configurable_lines(events) == lines.fold_left(
            Seq::<char>::empty(),
            |text: Seq<char>, line: Seq<char>| text + line,
        ),
    decreases events.len(),
{
    if events.len() > 0 {
        let (front, fewer) = (events.drop_last(), lines.drop_last());
        assert forall|k: int| 0 <= k < fewer.len() implies #[trigger] fewer[k] == configurable_line(
            front[k],
        ) by {
            assert(fewer[k] == lines[k]);
        }
        lemma_configurable_lines(front, fewer);
        assert(lines.last() == lines[events.len() - 1]);
    }
}

proof fn lemma_alias_lines(aliases: Seq<(Seq<char>, Seq<char>)>, lines: Seq<Seq<char>>)
    requires
        lines.len() == aliases.len(),
        forall|k: int|
            0 <= k < lines.len() ==> #[trigger] lines[k] == "  "@ + aliases[k].0 + " -> "@
                + aliases[k].1 + "\n"@,
    ensures
        alias_lines(aliases) == lines.fold_left(
            Seq::<char>::empty(),
            |text: Seq<char>, line: Seq<char>| text + line,
        ),
    decreases aliases.len(),
{
    if aliases.len() > 0 {
        let (front, fewer) = (aliases.drop_last(), lines.drop_last());
        assert forall|k: int| 0 <= k < fewer.len() implies #[trigger] fewer[k] == "  "@ + front[k].0
            + " -> "@ + front[k].1 + "\n"@ by {
            assert(fewer[k] == lines[k]);
        }
        lemma_alias_lines(front, fewer);
        assert(lines.last() == lines[aliases.len() - 1]);
        let before = alias_lines(front);
        let (alias, target) = aliases.last();
        assert(before + ("  "@ + alias + " -> "@ + target + "\n"@) =~= before + "  "@ + alias
            + " -> "@ + target + "\n"@);
    }
}

/// Law: the list of a database shows the CPU with its counters, a line for each
/// alias under a heading where there are any, a line for each fixed counter that
/// passes the filter under a heading where there are any, a line for each
/// configurable event that passes the filter, and the number of the latter, each
/// in the order of the database.
///
/// The line of a fixed counter has its number, name and description, that of a
/// configurable event its number, name, slots and description.
#[verifier::rlimit(40)]
pub proof fn law_list(database: DatabaseModel, filter: Option<Seq<char>>) -> (lines: (
    Seq<Seq<char>>,
    Seq<Seq<char>>,
    Seq<Seq<char>>,
))
    ensures
        ({
            let together = |text: Seq<char>, line: Seq<char>| text + line;
            let none = Seq::<char>::empty();
            let fixed = passing(fixed_of(database.events), filter);
            let listed = passing(configurable_of(database.events), filter);
            &&& list_text(database, filter) == ("CPU: "@ + database.cpu.marketing_name + " ("@
                + database.cpu.architecture + ")\n"@ + "Fixed counters: "@ + decimal(
                database.cpu.fixed_counters as nat,
            ) + ", Configurable counters: "@ + decimal(database.cpu.config_counters as nat)
                + "\n"@) + (if database.cpu.aliases.len() > 0 {
                "\nAliases:\n"@ + lines.0.fold_left(none, together)
            } else {
                none
            }) + (if fixed.len() > 0 {
                "\nFixed counters:\n"@ + lines.1.fold_left(none, together)
            } else {
                none
            }) + "\nConfigurable events:\n"@ + lines.2.fold_left(none, together) + "\n"@ + decimal(
                listed.len(),
            ) + " events listed.\n"@
            &&& lines.0.len() == database.cpu.aliases.len()
            &&& lines.1.len() == fixed.len()
            &&& lines.2.len() == listed.len()
            &&& forall|k: int|
                0 <= k < lines.0.len() ==> #[trigger] lines.0[k] == "  "@
                    + database.cpu.aliases[k].0 + " -> "@ + database.cpu.aliases[k].1 + "\n"@
            &&& forall|k: int|
                0 <= k < lines.1.len() ==> #[trigger] lines.1[k] == "  [fixed "@ + decimal(
                    fixed[k].fixed_counter->0 as nat,
                ) + "] "@ + left_aligned(fixed[k].name, 35) + " "@ + fixed[k].description + "\n"@
            &&& forall|k: int|
                0 <= k < lines.2.len() ==> #[trigger] lines.2[k] == "  ["@ + event_number_text(
                    listed[k].number->0 as nat,
                ) + "] "@ + left_aligned(listed[k].name, 35) + " ("@ + mask_text(
                    listed[k].counters_mask,
                ) + ") "@ + listed[k].description + "\n"@
        }),
{
    let aliases = database.cpu.aliases;
    let fixed = passing(fixed_of(database.events), filter);
    let listed = passing(configurable_of(database.events), filter);
    let first = Seq::new(
        aliases.len(),
        |k: int| "  "@ + aliases[k].0 + " -> "@ + aliases[k].1 + "\n"@,
    );
    let second = Seq::new(fixed.len(), |k: int| fixed_line(fixed[k]));
    let third = Seq::new(listed.len(), |k: int| configurable_line(listed[k]));
    lemma_alias_lines(aliases, first);
    lemma_fixed_lines(fixed, second);
    lemma_configurable_lines(listed, third);
    assert forall|k: int| 0 <= k < fixed.len() implies (#[trigger] fixed[k]).fixed_counter is Some by {
        let keep = |event: EventModel| passes(event, filter);
        let kind = |event: EventModel| event.is_fixed();
        fixed_of(database.events).lemma_filter_contains_rev(keep, fixed[k]);
        let i = choose|i: int|
            0 <= i < fixed_of(database.events).len() && fixed_of(database.events)[i] == fixed[k];
        database.events.lemma_filter_pred(kind, i);
    }
    assert forall|k: int| 0 <= k < listed.len() implies (#[trigger] listed[k]).number is Some by {
        let keep = |event: EventModel| passes(event, filter);
        let kind = |event: EventModel| event.is_configurable();
        configurable_of(database.events).lemma_filter_contains_rev(keep, listed[k]);
        let i = choose|i: int|
            0 <= i < configurable_of(database.events).len() && configurable_of(database.events)[i]
                == listed[k];
        database.events.lemma_filter_pred(kind, i);
    }
    (first, second, third)
}

} // verus!

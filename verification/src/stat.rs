//! What the `stat` command decides: its style, its events, and how the measured
//! command is run.

use vstd::prelude::*;
use vstd::string::*;

use crate::aliases::pair_texts;
use crate::inject::CounterSnapshot;
use crate::kpep::{
    borrowed_models, event_meant, DatabaseModel, EventModel, KpepDatabase, KpepEvent,
};
use crate::text::{
    characters, decimal, decimal_text, digit_char, digit_text, signed_decimal, signed_decimal_text,
};

verus! {

/// The texts of strings.
pub open spec fn texts(strings: Seq<String>) -> Seq<Seq<char>> {
    Seq::new(strings.len(), |i: int| strings[i]@)
}

/// The last three digits of `n`.
pub open spec fn three_digits(n: nat) -> Seq<char> {
    seq![digit_char(n / 100 % 10), digit_char(n / 10 % 10), digit_char(n % 10)]
}

/// `n` in base ten, with a comma before every three digits from the right.
pub open spec fn comma_grouped(n: nat) -> Seq<char>
    decreases n,
{
    if n < 1000 {
        decimal(n)
    } else {
        comma_grouped(n / 1000) + ","@ + three_digits(n % 1000)
    }
}

/// Format a `u64` with comma-separated thousands (e.g., `1,234,567`).
pub fn fmt_comma(value: u64) -> (text: String)
    ensures
        text@ == comma_grouped(value as nat),
    decreases value,
{
    if value < 1000 {
        decimal_text(value)
    } else {
        let mut text = fmt_comma(value / 1000);
        let ghost front = text@;
        let group = value % 1000;
        text.append(",");
        text.append(digit_text((group / 100 % 10) as u8));
        text.append(digit_text((group / 10 % 10) as u8));
        text.append(digit_text((group % 10) as u8));
        assert(text@ =~= front + ","@ + three_digits(group as nat));
        text
    }
}

proof fn lemma_decimal_digits(n: nat)
    ensures
        decimal(n).len() > 0,
        forall|i: int| 0 <= i < decimal(n).len() ==> '0' <= #[trigger] decimal(n)[i] <= '9',
        n < 10 ==> decimal(n).len() == 1,
        10 <= n < 100 ==> decimal(n).len() == 2,
        100 <= n < 1000 ==> decimal(n).len() == 3,
    decreases n,
{
    if n >= 10 {
        lemma_decimal_digits(n / 10);
    }
}

proof fn lemma_decimal_thousands(n: nat)
    requires
        n >= 1000,
    ensures
        decimal(n) == decimal(n / 1000) + three_digits(n % 1000),
{
    let a = n / 10;
    let b = a / 10;
    assert(b / 10 == n / 1000);
    assert(n % 1000 % 10 == n % 10);
    assert(n % 1000 / 10 % 10 == a % 10);
    assert(n % 1000 / 100 % 10 == b % 10);
    assert(decimal(n) == decimal(a) + seq![digit_char(n % 10)]);
    assert(decimal(a) == decimal(b) + seq![digit_char(a % 10)]);
    assert(decimal(b) == decimal(b / 10) + seq![digit_char(b % 10)]);
    assert(decimal(n) =~= decimal(n / 1000) + three_digits(n % 1000));
}

proof fn lemma_no_commas(digits: Seq<char>)
    requires
        forall|i: int| 0 <= i < digits.len() ==> '0' <= #[trigger] digits[i] <= '9',
    ensures
        without_commas(digits) == digits,
    decreases digits.len(),
{
    reveal(Seq::filter);
    if digits.len() > 0 {
        let front = digits.drop_last();
        assert forall|i: int| 0 <= i < front.len() implies '0' <= #[trigger] front[i] <= '9' by {
            assert(front[i] == digits[i]);
        }
        lemma_no_commas(front);
        assert(digits.last() == digits[digits.len() - 1]);
        assert(front.push(digits.last()) =~= digits);
    }
}

/// `text` without its commas.
pub open spec fn without_commas(text: Seq<char>) -> Seq<char> {
    text.filter(|c: char| c != ',')
}

/// Law: without its commas, a grouped number is the number in base ten.
pub proof fn law_commas_only_added(n: nat)
    ensures
        without_commas(comma_grouped(n)) == decimal(n),
    decreases n,
{
    lemma_decimal_digits(n);
    if n < 1000 {
        lemma_no_commas(decimal(n));
    } else {
        reveal_strlit(",");
        law_commas_only_added(n / 1000);
        lemma_decimal_thousands(n);
        let group = three_digits(n % 1000);
        lemma_no_commas(group);
        let keep = |c: char| c != ',';
        let front = comma_grouped(n / 1000);
        Seq::filter_distributes_over_add(front, ","@, keep);
        Seq::filter_distributes_over_add(front + ","@, group, keep);
        assert(","@.filter(keep) =~= Seq::<char>::empty()) by {
            reveal(Seq::filter);
            assert(","@.drop_last() =~= Seq::<char>::empty());
        }
        assert(without_commas(front) + Seq::<char>::empty() + group =~= decimal(n));
    }
}

/// Law: a comma stands before every three digits from the right, and nowhere
/// else; in particular not at the beginning.
pub proof fn law_commas_every_third(n: nat)
    ensures
        comma_grouped(n).len() > 0,
        comma_grouped(n)[0] != ',',
        forall|i: int|
            0 <= i < comma_grouped(n).len() ==> (#[trigger] comma_grouped(n)[i] == ',' <==> (
            comma_grouped(n).len() - 1 - i) % 4 == 3),
    decreases n,
{
    lemma_decimal_digits(n);
    let text = comma_grouped(n);
    if n < 1000 {
        assert(text.len() <= 3);
    } else {
        reveal_strlit(",");
        law_commas_every_third(n / 1000);
        let front = comma_grouped(n / 1000);
        let group = three_digits(n % 1000);
        assert(text.len() == front.len() + 4);
        assert forall|i: int| 0 <= i < text.len() implies (#[trigger] text[i] == ',' <==> (
        text.len() - 1 - i) % 4 == 3) by {
            if i < front.len() {
                assert(text[i] == front[i]);
                assert((text.len() - 1 - i) % 4 == (front.len() - 1 - i) % 4);
            } else if i > front.len() {
                assert(text[i] == group[i - front.len() - 1]);
            }
        }
        assert(text[0] == front[0]);
    }
}

/// ANSI color/style codes. All are empty when color is disabled.
#[derive(Debug, Clone, Copy)]
pub struct Style {
    pub dim: &'static str,
    pub blue: &'static str,
    pub bold: &'static str,
    pub red: &'static str,
    pub reset: &'static str,
}

/// Whether a style has these codes.
pub open spec fn is_style(
    style: Style,
    dim: Seq<char>,
    blue: Seq<char>,
    bold: Seq<char>,
    red: Seq<char>,
    reset: Seq<char>,
) -> bool {
    &&& style.dim@ == dim
    &&& style.blue@ == blue
    &&& style.bold@ == bold
    &&& style.red@ == red
    &&& style.reset@ == reset
}

/// Picks the style of a report: colored where the user has not asked for no
/// color, by option or by environment, and the report goes to a terminal.
pub fn pick_style(no_color: bool, no_color_in_environment: bool, terminal: bool) -> (style: Style)
    ensures
        if !no_color && !no_color_in_environment && terminal {
            is_style(style, "\x1b[2m"@, "\x1b[34m"@, "\x1b[1m"@, "\x1b[31m"@, "\x1b[0m"@)
        } else {
            is_style(style, ""@, ""@, ""@, ""@, ""@)
        },
{
    if no_color || no_color_in_environment || !terminal {
        Style { dim: "", blue: "", bold: "", red: "", reset: "" }
    } else {
        Style {
            dim: "\x1b[2m",
            blue: "\x1b[34m",
            bold: "\x1b[1m",
            red: "\x1b[31m",
            reset: "\x1b[0m",
        }
    }
}

/// The events measured when none are asked for.
pub open spec fn default_event_names() -> Seq<Seq<char>> {
    seq![
        "L1D_CACHE_MISS_LD"@,
        "L1D_CACHE_MISS_ST"@,
        "ATOMIC_OR_EXCLUSIVE_FAIL"@,
        "MAP_STALL"@,
        "LDST_X64_UOP"@,
        "BRANCH_MISPRED_NONSPEC"@,
        "MAP_SIMD_UOP"@,
        "SCHEDULE_EMPTY"@,
    ]
}

/// The names of the events to measure: those asked for, or the default ones
/// where none are.
///
/// The defaults cover the most common performance bottlenecks on Apple Silicon:
/// cache misses, branch mispredictions, pipeline stalls, and SIMD utilization.
pub fn events_or_default(event_names: Vec<String>) -> (names: Vec<String>)
    ensures
        event_names@.len() > 0 ==> names == event_names,
        event_names@.len() == 0 ==> texts(names@) == default_event_names(),
{
    if event_names.len() > 0 {
        return event_names;
    }
    let mut names: Vec<String> = Vec::new();
    names.push("L1D_CACHE_MISS_LD".to_owned());
    names.push("L1D_CACHE_MISS_ST".to_owned());
    names.push("ATOMIC_OR_EXCLUSIVE_FAIL".to_owned());
    names.push("MAP_STALL".to_owned());
    names.push("LDST_X64_UOP".to_owned());
    names.push("BRANCH_MISPRED_NONSPEC".to_owned());
    names.push("MAP_SIMD_UOP".to_owned());
    names.push("SCHEDULE_EMPTY".to_owned());
    assert(texts(names@) =~= default_event_names());
    names
}

/// The events that `names` mean, in the order of the names.
pub open spec fn known_events(database: DatabaseModel, names: Seq<Seq<char>>) -> Seq<EventModel>
    decreases names.len(),
{
    if names.len() == 0 {
        Seq::empty()
    } else {
        let before = known_events(database, names.drop_last());
        match event_meant(database, names.last()) {
            Some(event) => before.push(event),
            None => before,
        }
    }
}

/// A warning for each name that means no event, in the order of the names.
pub open spec fn unknown_warnings(database: DatabaseModel, names: Seq<Seq<char>>) -> Seq<Seq<char>>
    decreases names.len(),
{
    if names.len() == 0 {
        Seq::empty()
    } else {
        let before = unknown_warnings(database, names.drop_last());
        match event_meant(database, names.last()) {
            Some(_) => before,
            None => before.push("Warning: unknown event '"@ + names.last() + "', skipping"@),
        }
    }
}

/// The events to measure, and what to say of the names that mean none.
#[derive(Debug)]
pub struct Selection<'a> {
    pub events: Vec<&'a KpepEvent>,
    pub warnings: Vec<String>,
}

/// Looks up the events to measure.
pub fn select_events<'a>(database: &'a KpepDatabase, names: &Vec<String>) -> (selection: Selection<
    'a,
>)
    ensures
        borrowed_models(selection.events@) == known_events(database@, texts(names@)),
        texts(selection.warnings@) == unknown_warnings(database@, texts(names@)),
{
    let ghost all = texts(names@);
    let mut events: Vec<&'a KpepEvent> = Vec::new();
    let mut warnings: Vec<String> = Vec::new();
    let mut i: usize = 0;
    assert(borrowed_models(events@) =~= known_events(database@, all.take(0)));
    assert(texts(warnings@) =~= unknown_warnings(database@, all.take(0)));
    while i < names.len()
        invariant
            i <= names@.len(),
            all == texts(names@),
            borrowed_models(events@) == known_events(database@, all.take(i as int)),
            texts(warnings@) == unknown_warnings(database@, all.take(i as int)),
        decreases names@.len() - i,
    {
        let ghost events_before = borrowed_models(events@);
        let ghost warnings_before = texts(warnings@);
        assert(all.take(i + 1).drop_last() =~= all.take(i as int));
        assert(all.take(i + 1).last() == names@[i as int]@);
        match database.event_by_name(names[i].as_str()) {
            Some(event) => {
                events.push(event);
                assert(borrowed_models(events@) =~= events_before.push(event@));
            },
            None => {
                let mut warning = "Warning: unknown event '".to_owned();
                warning.append(names[i].as_str());
                warning.append("', skipping");
                let ghost text = warning@;
                warnings.push(warning);
                assert(texts(warnings@) =~= warnings_before.push(text));
            },
        }
        i += 1;
    }
    assert(all.take(i as int) =~= all);
    Selection { events, warnings }
}

impl<'a> Selection<'a> {
    /// What a measurement is refused with, and the exit status that goes with
    /// it: it is refused where there are no events to measure.
    pub fn refusal(&self) -> (result: Option<(&'static str, i32)>)
        ensures
            match result {
                Some((message, status)) => self.events@.len() == 0 && message@
                    == "No valid events to monitor."@ && status == 1,
                None => self.events@.len() > 0,
            },
    {
        if self.events.len() == 0 {
            Some(("No valid events to monitor.", 1))
        } else {
            None
        }
    }
}

/// Law: each name gives either an event or a warning.
pub proof fn law_selection_is_complete(database: DatabaseModel, names: Seq<Seq<char>>)
    ensures
        known_events(database, names).len() + unknown_warnings(database, names).len() == names.len(),
    decreases names.len(),
{
    if names.len() > 0 {
        law_selection_is_complete(database, names.drop_last());
    }
}

/// What is said of a CPU before a measurement.
pub open spec fn cpu_text(
    marketing_name: Seq<char>,
    n_fixed: nat,
    n_configurable: nat,
    ncpu: nat,
) -> Seq<char> {
    "CPU: "@ + marketing_name + " ("@ + decimal(n_fixed) + " fixed + "@ + decimal(n_configurable)
        + " configurable counters, "@ + decimal(ncpu) + " CPUs)"@
}

/// Says what is measured on: the CPU, its counters and its cores.
pub fn describe_cpu(marketing_name: &str, n_fixed: usize, n_configurable: usize, ncpu: usize) -> (text:
    String)
    ensures
        text@ == cpu_text(marketing_name@, n_fixed as nat, n_configurable as nat, ncpu as nat),
{
    let mut text = "CPU: ".to_owned();
    text.append(marketing_name);
    text.append(" (");
    text.append(decimal_text(n_fixed as u64).as_str());
    text.append(" fixed + ");
    text.append(decimal_text(n_configurable as u64).as_str());
    text.append(" configurable counters, ");
    text.append(decimal_text(ncpu as u64).as_str());
    text.append(" CPUs)");
    text
}

/// The number that a sequence of decimal digits is.
pub open spec fn digits_value(digits: Seq<char>) -> Option<nat>
    decreases digits.len(),
{
    if digits.len() == 0 {
        Some(0)
    } else {
        match digits_value(digits.drop_last()) {
            Some(value) if '0' <= digits.last() <= '9' => Some(
                (value * 10 + (digits.last() as int - '0' as int)) as nat,
            ),
            _ => None,
        }
    }
}

/// The digits of a number, which a `+` may stand before.
pub open spec fn unsigned_digits(text: Seq<char>) -> Seq<char> {
    if text.len() > 0 && text[0] == '+' {
        text.drop_first()
    } else {
        text
    }
}

/// The number that `text` is: one or more decimal digits, which a `+` may stand
/// before, and no more than 32 bits can hold.
pub open spec fn parsed_u32(text: Seq<char>) -> Option<u32> {
    match digits_value(unsigned_digits(text)) {
        Some(value) if unsigned_digits(text).len() > 0 && value <= u32::MAX => Some(value as u32),
        _ => None,
    }
}

proof fn lemma_digits_grow(digits: Seq<char>, length: int)
    requires
        0 <= length <= digits.len(),
        digits_value(digits.take(length)) matches Some(value) ==> value > u32::MAX,
    ensures
        digits_value(digits) matches Some(value) ==> value > u32::MAX,
    decreases digits.len() - length,
{
    if length == digits.len() {
        assert(digits.take(length) =~= digits);
    } else {
        assert(digits.take(length + 1).drop_last() =~= digits.take(length));
        lemma_digits_grow(digits, length + 1);
    }
}

/// Parses an unsigned number.
pub fn parse_u32(text: &str) -> (result: Option<u32>)
    ensures
        result == parsed_u32(text@),
{
    let all = characters(text);
    let start: usize = if all.len() > 0 && all[0] == '+' {
        1
    } else {
        0
    };
    if all.len() == start {
        return None;
    }
    let ghost digits = unsigned_digits(text@);
    assert(digits =~= all@.skip(start as int));
    let mut value: u64 = 0;
    let mut i: usize = start;
    assert(digits.take(0) =~= Seq::<char>::empty());
    while i < all.len()
        invariant
            all@ == text@,
            digits == unsigned_digits(text@),
            digits == all@.skip(start as int),
            start <= i <= all@.len(),
            start < all@.len(),
            value <= u32::MAX,
            digits_value(digits.take(i - start)) == Some(value as nat),
        decreases all@.len() - i,
    {
        let c = all[i];
        let ghost next = digits.take(i - start + 1);
        assert(next.drop_last() =~= digits.take(i - start));
        assert(next.last() == c);
        if c < '0' || c > '9' {
            proof {
                lemma_digits_grow(digits, i - start + 1);
            }
            return None;
        }
        value = value * 10 + (c as u32 - '0' as u32) as u64;
        if value > 0xffff_ffff {
            proof {
                lemma_digits_grow(digits, i - start + 1);
            }
            return None;
        }
        i += 1;
    }
    assert(digits.take(i - start) =~= digits);
    Some(value as u32)
}

/// The user and group that a system-wide measurement runs its command as: those
/// that `sudo` was called by, where the environment names both.
pub open spec fn caller_ids(sudo_uid: Option<Seq<char>>, sudo_gid: Option<Seq<char>>) -> Option<
    (u32, u32),
> {
    match (sudo_uid, sudo_gid) {
        (Some(uid), Some(gid)) => match (parsed_u32(uid), parsed_u32(gid)) {
            (Some(uid), Some(gid)) => Some((uid, gid)),
            _ => None,
        },
        _ => None,
    }
}

/// The text of an optional string.
pub open spec fn optional_text(text: Option<String>) -> Option<Seq<char>> {
    match text {
        Some(text) => Some(text@),
        None => None,
    }
}

/// The user and group to run the command of a system-wide measurement as, for
/// the values of `SUDO_UID` and `SUDO_GID`.
pub fn drop_privileges(sudo_uid: Option<String>, sudo_gid: Option<String>) -> (ids: Option<
    (u32, u32),
>)
    ensures
        ids == caller_ids(optional_text(sudo_uid), optional_text(sudo_gid)),
{
    match (sudo_uid, sudo_gid) {
        (Some(uid), Some(gid)) => match (parse_u32(uid.as_str()), parse_u32(gid.as_str())) {
            (Some(uid), Some(gid)) => Some((uid, gid)),
            _ => None,
        },
        _ => None,
    }
}

/// The environment variables of a measured process: the library that is loaded
/// into it, where it sends its results, and that it measures marked regions
/// only, where it does.
pub open spec fn child_variables(
    dylib: Seq<char>,
    result_fd: int,
    region: bool,
) -> Seq<(Seq<char>, Seq<char>)> {
    let variables = seq![
        ("DYLD_INSERT_LIBRARIES"@, dylib),
        ("KPC_RESULT_FD"@, signed_decimal(result_fd)),
    ];
    if region {
        variables.push(("APMC_REGION_MODE"@, "1"@))
    } else {
        variables
    }
}

/// The environment variables that load the library at `dylib` into a measured
/// process, and tell it where to send its results and whether to measure marked
/// regions only.
pub fn child_environment(dylib: String, result_fd: i32, region: bool) -> (variables: Vec<
    (String, String),
>)
    ensures
        pair_texts(variables@) == child_variables(dylib@, result_fd as int, region),
{
    let mut variables: Vec<(String, String)> = Vec::new();
    let ghost path = dylib@;
    variables.push(("DYLD_INSERT_LIBRARIES".to_owned(), dylib));
    variables.push(("KPC_RESULT_FD".to_owned(), signed_decimal_text(result_fd)));
    if region {
        variables.push(("APMC_REGION_MODE".to_owned(), "1".to_owned()));
    }
    assert(pair_texts(variables@) =~= child_variables(path, result_fd as int, region));
    variables
}

/// Whether `interval` is the two snapshots that `results` are the difference
/// of, or the error that says that there are none.
pub open spec fn is_per_process_interval(
    results: Option<CounterSnapshot>,
    interval: Result<(CounterSnapshot, CounterSnapshot), String>,
) -> bool {
    match results {
        Some(snapshot) => interval matches Ok((start, end)) && end == snapshot && start.n_fixed
            == snapshot.n_fixed && start.values@ == Seq::new(
            snapshot.values@.len(),
            |i: int| 0u64,
        ),
        None => interval matches Err(text) && text@
            == "per-process counting failed: no results from inject dylib"@,
    }
}

/// The two snapshots that a per-process measurement is the difference of.
///
/// The results of the measured processes are differences already, so the first
/// snapshot is all zeros.
pub fn per_process_interval(results: Option<CounterSnapshot>) -> (interval: Result<
    (CounterSnapshot, CounterSnapshot),
    String,
>)
    ensures
        is_per_process_interval(results, interval),
{
    match results {
        Some(snapshot) => {
            let mut values: Vec<u64> = Vec::new();
            let mut i: usize = 0;
            while i < snapshot.values.len()
                invariant
                    i <= snapshot.values@.len(),
                    values@ == Seq::new(i as nat, |i: int| 0u64),
                decreases snapshot.values@.len() - i,
            {
                values.push(0);
                i += 1;
                assert(values@ =~= Seq::new(i as nat, |i: int| 0u64));
            }
            let zero = CounterSnapshot { values, n_fixed: snapshot.n_fixed };
            Ok((zero, snapshot))
        },
        None => Err("per-process counting failed: no results from inject dylib".to_owned()),
    }
}

} // verus!

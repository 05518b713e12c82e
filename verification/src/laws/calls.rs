//! Laws of the functions themselves: what a call that has returned gave back.

use vstd::prelude::*;

use crate::aliases::{alias_target, AliasTable};
use crate::dates::{check_dates, dates_in_range};
use crate::document::{
    dictionary_field, entry_trees, get, get_dictionary, get_text, get_unsigned, lookup, read_tree, text_field,
    unsigned_field, value_tree, Plist, Tree,
};
use crate::inject::{
    is_native_order, messages, read_all_inject_results, sum_inject_results, total, ByteOrder, CounterSnapshot,
};
use crate::kpep::{
    borrowed_models, configurable_of, database_of, event_meant, event_models, fixed_of, is_error_text, CpuInfo,
    KpepDatabase, KpepError, KpepEvent,
};
use crate::laws::counting::{law_received, law_results};
use crate::laws::listing::law_passes;
use crate::laws::loading::{law_loaded, law_read};
use crate::laws::numbers::{
    law_contained_is_inside, law_contains_what_is_inside, law_decimal, law_grouped, law_hexadecimal,
};
use crate::laws::reporting::law_cycles_are_shown;
use crate::laws::selection::law_selection_follows_the_names;
use crate::list::{
    event_number_text, filter_text, format_event_number, format_list, format_mask, is_mentioned, list_text,
    lowercase, mask_text, passes_filter,
};
use crate::load::{
    file_name, find_database_path, finds, is_substitute, load_step, read_cpu_info, CpuId, CpuLoad, CpuLoadEvent,
    DatabaseFile,
};
use crate::report::{
    format_results, is_valid_report, report_text, short_comment, shorten, Decimal, Report,
};
use crate::session::{begin_stat, cmd_stat, stat_step, StatEvent, StatState};
use crate::stat::{
    caller_ids, child_environment, child_variables, cpu_text, describe_cpu, drop_privileges, events_or_default,
    fmt_comma, known_events, optional_text, parse_u32, parsed_u32, per_process_interval, pick_style,
    select_events, texts, unknown_warnings, Selection, Style,
};
use crate::text::{
    contains, decimal_text, ends_with, find, hexadecimal_text, same_text, signed_decimal, signed_decimal_text,
    starts_with, trim_end, trimmed_end, white_space,
};

verus! {

/// Law: a number is formatted as digits and commas that are the number.
pub proof fn law_fmt_comma(value: u64, text: String)
    requires
        call_ensures(fmt_comma, (value,), text),
    ensures
        text@.fold_left(
            0int,
            |v: int, c: char|
                if c == ',' {
                    v
                } else {
                    10 * v + (c as int - '0' as int)
                },
        ) == value,
        forall|i: int|
            0 <= i < text@.len() ==> if (text@.len() - i) % 4 == 0 {
                #[trigger] text@[i] == ','
            } else {
                '0' <= text@[i] <= '9'
            },
{
    law_grouped(value as nat);
}

/// Law: a number is written in base ten or sixteen as digits that are the number.
pub proof fn law_number_texts(n: u64, ten: String, sixteen: String)
    requires
        call_ensures(decimal_text, (n,), ten),
        call_ensures(hexadecimal_text, (n,), sixteen),
    ensures
        ten@.fold_left(0int, |v: int, c: char| 10 * v + (c as int - '0' as int)) == n,
        sixteen@.fold_left(
            0int,
            |v: int, c: char|
                16 * v + (if c <= '9' {
                    c as int - '0' as int
                } else {
                    c as int - 'a' as int + 10
                }),
        ) == n,
{
    law_decimal(n as nat);
    law_hexadecimal(n as nat);
}

/// Law: a number with a sign is written as it is in base ten.
pub proof fn law_signed_text(n: i32, text: String)
    requires
        call_ensures(signed_decimal_text, (n,), text),
    ensures
        text@ == signed_decimal(n as int),
{
}

/// Law: two texts are the same exactly where their characters are; a text begins
/// and ends with what stands at its beginning and at its end; and it is trimmed
/// as [`trimmed_end`] says.
pub proof fn law_text_tests(
    left: &str,
    right: &str,
    same: bool,
    begins: bool,
    ends: bool,
    c: char,
    blank: bool,
)
    requires
        call_ensures(same_text, (left, right), same),
        call_ensures(starts_with, (left, right), begins),
        call_ensures(ends_with, (left, right), ends),
        call_ensures(white_space, (c,), blank),
    ensures
        same <==> left@ == right@,
        begins <==> right@.len() <= left@.len() && left@.subrange(0, right@.len() as int) == right@,
        ends <==> right@.len() <= left@.len() && left@.subrange(
            left@.len() - right@.len(),
            left@.len() as int,
        ) == right@,
        blank <==> crate::text::is_white_space(c),
{
}

/// Law: a trimmed text is the first characters of the text without the white
/// space at their end.
pub proof fn law_trim_end(text: &str, length: usize, result: &str)
    requires
        length <= text@.len(),
        call_ensures(trim_end, (text, length), result),
    ensures
        result@ == trimmed_end(text@.subrange(0, length as int)),
{
    assert(text@.take(length as int) =~= text@.subrange(0, length as int));
}

/// Law: a search says yes exactly where the pattern stands somewhere in the text,
/// and finds its first place.
pub proof fn law_search(text: &str, pattern: &str, found: bool, position: Option<usize>)
    requires
        call_ensures(contains, (text, pattern), found),
        call_ensures(find, (text, pattern), position),
    ensures
        found <==> exists|before: Seq<char>, after: Seq<char>|
            text@ == #[trigger] (before + pattern@ + after),
        position matches Some(at) ==> at + pattern@.len() <= text@.len() && text@.subrange(
            at as int,
            at + pattern@.len(),
        ) == pattern@ && forall|k: int|
            #![trigger text@.subrange(k, k + pattern@.len())]
            0 <= k < at ==> text@.subrange(k, k + pattern@.len()) != pattern@,
        position is Some <==> found,
{
    if exists|before: Seq<char>, after: Seq<char>|
        text@ == #[trigger] (before + pattern@ + after) {
        let (before, after) = choose|before: Seq<char>, after: Seq<char>|
            text@ == #[trigger] (before + pattern@ + after);
        law_contains_what_is_inside(before, pattern@, after);
    }
    crate::text::lemma_find_from(text@, pattern@, 0);
    if found {
        let at = law_contained_is_inside(text@, pattern@);
        let (before, after) = (text@.take(at as int), text@.skip((at + pattern@.len()) as int));
        assert(text@ == before + pattern@ + after);
        assert(text@.subrange(at as int, (at + pattern@.len()) as int) =~= pattern@);
    }
    if position is Some {
        assert(crate::text::occurs_at(text@, pattern@, position->0 as int));
    }
}

/// Law: a report is colored exactly where it goes to a terminal and neither an
/// option nor the environment asks for no color; the codes are those of ANSI
/// terminals, and where there is no color there are none.
pub proof fn law_pick_style(no_color: bool, environment: bool, terminal: bool, style: Style)
    requires
        call_ensures(pick_style, (no_color, environment, terminal), style),
    ensures
        terminal && !no_color && !environment ==> style.dim@ == "\x1b[2m"@ && style.blue@
            == "\x1b[34m"@ && style.bold@ == "\x1b[1m"@ && style.red@ == "\x1b[31m"@ && style.reset@
            == "\x1b[0m"@,
        !terminal || no_color || environment ==> style.dim@.len() == 0 && style.blue@.len() == 0
            && style.bold@.len() == 0 && style.red@.len() == 0 && style.reset@.len() == 0,
{
    reveal_strlit("");
}

/// Law: the names that are asked for are kept, and only where there are none the
/// eight default ones take their place.
pub proof fn law_events_or_default(asked: Vec<String>, names: Vec<String>)
    requires
        call_ensures(events_or_default, (asked,), names),
    ensures
        asked@.len() > 0 ==> names@ == asked@,
        asked@.len() == 0 ==> names@.len() == 8 && names@[0]@ == "L1D_CACHE_MISS_LD"@ && names@[1]@
            == "L1D_CACHE_MISS_ST"@ && names@[2]@ == "ATOMIC_OR_EXCLUSIVE_FAIL"@ && names@[3]@
            == "MAP_STALL"@ && names@[4]@ == "LDST_X64_UOP"@ && names@[5]@
            == "BRANCH_MISPRED_NONSPEC"@ && names@[6]@ == "MAP_SIMD_UOP"@ && names@[7]@
            == "SCHEDULE_EMPTY"@,
{
    if asked@.len() == 0 {
        let all = texts(names@);
        assert(all.len() == 8);
        assert forall|i: int| 0 <= i < 8 implies #[trigger] names@[i]@ == all[i] by {}
    }
}

/// Law: the selected events are those that the names mean, in the order of the
/// names, and the warnings name the others. Where every name means an event, the
/// event at each place is the one that the name there means.
pub proof fn law_select_events<'a>(
    database: &'a KpepDatabase,
    names: &Vec<String>,
    selection: Selection<'a>,
)
    requires
        call_ensures(select_events, (database, names), selection),
    ensures
        borrowed_models(selection.events@) == known_events(database@, texts(names@)),
        texts(selection.warnings@) == unknown_warnings(database@, texts(names@)),
        (forall|i: int|
            0 <= i < names@.len() ==> event_meant(database@, (#[trigger] names@[i])@) is Some)
            ==> selection.events@.len() == names@.len() && selection.warnings@.len() == 0 && (forall|
            i: int,
        |
            0 <= i < names@.len() ==> event_meant(database@, (#[trigger] names@[i])@) == Some(
                selection.events@[i]@,
            )),
{
    if forall|i: int|
        0 <= i < names@.len() ==> event_meant(database@, (#[trigger] names@[i])@) is Some {
        let all = texts(names@);
        assert forall|i: int| 0 <= i < all.len() implies event_meant(
            database@,
            #[trigger] all[i],
        ) is Some by {
            assert(all[i] == names@[i]@);
        }
        law_selection_follows_the_names(database@, all);
        assert(borrowed_models(selection.events@).len() == selection.events@.len());
        assert(texts(selection.warnings@).len() == selection.warnings@.len());
        assert forall|i: int| 0 <= i < names@.len() implies event_meant(
            database@,
            (#[trigger] names@[i])@,
        ) == Some(selection.events@[i]@) by {
            assert(all[i] == names@[i]@);
            assert(borrowed_models(selection.events@)[i] == selection.events@[i]@);
        }
    }
}

/// Law: a measurement is refused exactly where no event is selected, with a
/// message and the exit status 1.
pub proof fn law_refusal<'a>(selection: &Selection<'a>, result: Option<(&'static str, i32)>)
    requires
        call_ensures(Selection::<'a>::refusal, (selection,), result),
    ensures
        result is Some <==> selection.events@.len() == 0,
        result matches Some((text, status)) ==> text@ == "No valid events to monitor."@ && status
            == 1,
{
}

/// Law: a lookup gives the event that the name means, and nothing where it means
/// none.
pub proof fn law_event_by_name<'a>(
    database: &'a KpepDatabase,
    name: &str,
    result: Option<&'a KpepEvent>,
)
    requires
        call_ensures(KpepDatabase::event_by_name, (database, name), result),
    ensures
        result is Some <==> event_meant(database@, name@) is Some,
        result matches Some(event) ==> event_meant(database@, name@) == Some(event@),
{
}

/// Law: a database gives out its name, its CPU and its events, and of these the
/// configurable and the fixed ones.
pub proof fn law_database_parts<'a>(
    database: &'a KpepDatabase,
    name: &str,
    cpu: &CpuInfo,
    events: &[KpepEvent],
    configurable: Vec<&'a KpepEvent>,
    fixed: Vec<&'a KpepEvent>,
)
    requires
        call_ensures(KpepDatabase::name, (database,), name),
        call_ensures(KpepDatabase::cpu, (database,), cpu),
        call_ensures(KpepDatabase::events, (database,), events),
        call_ensures(KpepDatabase::configurable_events, (database,), configurable),
        call_ensures(KpepDatabase::fixed_events, (database,), fixed),
    ensures
        name@ == database@.name,
        cpu@ == database@.cpu,
        event_models(events@) == database@.events,
        borrowed_models(configurable@) == configurable_of(database@.events),
        borrowed_models(fixed@) == fixed_of(database@.events),
{
}

/// Law: an event says of itself that it is fixed where it has a fixed counter,
/// and configurable where it has a number and no fixed counter.
pub proof fn law_event_kinds(event: &KpepEvent, fixed: bool, configurable: bool)
    requires
        call_ensures(KpepEvent::is_fixed, (event,), fixed),
        call_ensures(KpepEvent::is_configurable, (event,), configurable),
    ensures
        fixed <==> event.fixed_counter is Some,
        configurable <==> event.number is Some && event.fixed_counter is None,
{
}

/// Law: what is parsed is the database that the property list value describes,
/// and a structure error says what it lacks otherwise.
pub proof fn law_parse(
    value: plist::Value,
    parsed: Result<KpepDatabase, KpepError>,
    root: &Plist,
    read: Result<KpepDatabase, KpepError>,
)
    requires
        call_ensures(KpepDatabase::parse, (value,), parsed),
        call_ensures(KpepDatabase::from_plist, (root,), read),
    ensures
        parsed is Ok <==> database_of(value_tree(value)) is Ok,
        parsed matches Ok(database) ==> database@ == database_of(value_tree(value))->Ok_0,
        parsed matches Err(error) ==> (error matches KpepError::StructureError(message) && message@
            == database_of(value_tree(value))->Err_0),
        read is Ok <==> database_of(root.tree()) is Ok,
        read matches Ok(database) ==> database@ == database_of(root.tree())->Ok_0,
        read matches Err(error) ==> (error matches KpepError::StructureError(message) && message@
            == database_of(root.tree())->Err_0),
{
    law_read(value_tree(value), parsed);
    law_read(root.tree(), read);
}

/// Law: a document is taken over as what it reads as, or its error is given.
pub proof fn law_from_bytes(
    bytes: &[u8],
    result: Result<Plist, String>,
    value: &plist::Value,
    taken: Plist,
    fine: bool,
)
    requires
        call_ensures(Plist::from_bytes, (bytes,), result),
        call_ensures(Plist::from_value, (value,), taken),
        call_ensures(check_dates, (bytes,), fine),
    ensures
        result matches Ok(root) ==> read_tree(bytes@) == Ok::<Tree, Seq<char>>(root.tree()),
        result matches Err(text) ==> read_tree(bytes@) == Err::<Tree, Seq<char>>(text@),
        taken.tree() == value_tree(*value),
        fine <==> dates_in_range(bytes@),
{
}

/// Law: what is asked for in a dictionary is what it holds under the key, where
/// that is of the kind asked for.
pub proof fn law_fields<'a>(
    entries: &'a Vec<(String, Plist)>,
    key: &str,
    value: Option<&'a Plist>,
    text: Option<&'a str>,
    number: Option<u64>,
    dictionary: Option<&'a Vec<(String, Plist)>>,
)
    requires
        call_ensures(get, (entries, key), value),
        call_ensures(get_text, (entries, key), text),
        call_ensures(get_unsigned, (entries, key), number),
        call_ensures(get_dictionary, (entries, key), dictionary),
    ensures
        value is Some <==> lookup(entry_trees(entries@), key@) is Some,
        value matches Some(found) ==> lookup(entry_trees(entries@), key@) == Some(found.tree()),
        text is Some <==> text_field(entry_trees(entries@), key@) is Some,
        text matches Some(found) ==> text_field(entry_trees(entries@), key@) == Some(found@),
        number == unsigned_field(entry_trees(entries@), key@),
        dictionary is Some <==> dictionary_field(entry_trees(entries@), key@) is Some,
        dictionary matches Some(found) ==> dictionary_field(entry_trees(entries@), key@) == Some(
            entry_trees(found@),
        ),
{
}

/// Law: a value gives out its entries exactly where it is a dictionary.
pub proof fn law_as_dictionary<'a>(value: &'a Plist, entries: Option<&'a Vec<(String, Plist)>>)
    requires
        call_ensures(Plist::as_dictionary, (value,), entries),
    ensures
        entries is Some <==> value.tree() is Dictionary,
        entries matches Some(found) ==> value.tree() == Tree::Dictionary(entry_trees(found@)),
{
}

/// Law: an alias table gives what a name stands for, and nothing for a name that
/// is no alias.
pub proof fn law_alias_table<'a>(
    table: &'a AliasTable,
    alias: &str,
    target: Option<&'a str>,
    length: usize,
    empty: bool,
    index: usize,
    entry: (&'a str, &'a str),
)
    requires
        call_ensures(AliasTable::get, (table, alias), target),
        call_ensures(AliasTable::len, (table,), length),
        call_ensures(AliasTable::is_empty, (table,), empty),
        index < table@.len(),
        call_ensures(AliasTable::entry, (table, index), entry),
    ensures
        target is Some <==> alias_target(table@, alias@) is Some,
        target matches Some(found) ==> alias_target(table@, alias@) == Some(found@),
        length == table@.len(),
        empty <==> table@.len() == 0,
        entry.0@ == table@[index as int].0,
        entry.1@ == table@[index as int].1,
{
}

/// Law: the message of an error is its text.
pub proof fn law_message(error: &KpepError, text: String)
    requires
        call_ensures(KpepError::message, (error,), text),
    ensures
        is_error_text(*error, text@),
{
}

/// Law: the CPU is described as [`cpu_text`] says.
pub proof fn law_describe_cpu(
    name: &str,
    n_fixed: usize,
    n_configurable: usize,
    ncpu: usize,
    text: String,
)
    requires
        call_ensures(describe_cpu, (name, n_fixed, n_configurable, ncpu), text),
    ensures
        text@ == cpu_text(name@, n_fixed as nat, n_configurable as nat, ncpu as nat),
{
}

/// Law: a text is parsed as the number that it is, and the command runs as the
/// user and the group that two such texts name.
pub proof fn law_ids(
    text: &str,
    number: Option<u32>,
    uid: Option<String>,
    gid: Option<String>,
    ids: Option<(u32, u32)>,
)
    requires
        call_ensures(parse_u32, (text,), number),
        call_ensures(drop_privileges, (uid, gid), ids),
    ensures
        number == parsed_u32(text@),
        ids == caller_ids(optional_text(uid), optional_text(gid)),
{
}

/// Law: the environment of a measured process is the variables that
/// [`child_variables`] says, in their order.
pub proof fn law_child_environment(
    dylib: String,
    result_fd: i32,
    region: bool,
    variables: Vec<(String, String)>,
)
    requires
        call_ensures(child_environment, (dylib, result_fd, region), variables),
    ensures
        variables@.len() == child_variables(dylib@, result_fd as int, region).len(),
        forall|i: int|
            0 <= i < variables@.len() ==> ((#[trigger] variables@[i]).0@, variables@[i].1@)
                == child_variables(dylib@, result_fd as int, region)[i],
{
    let pairs = crate::aliases::pair_texts(variables@);
    assert(pairs.len() == variables@.len());
    assert forall|i: int| 0 <= i < variables@.len() implies (
        (#[trigger] variables@[i]).0@,
        variables@[i].1@,
    ) == pairs[i] by {}
}

/// Law: the interval of per-process results is from zero to the results, and
/// there is none without results.
pub proof fn law_interval(
    results: Option<CounterSnapshot>,
    interval: Result<(CounterSnapshot, CounterSnapshot), String>,
)
    requires
        call_ensures(per_process_interval, (results,), interval),
    ensures
        interval is Ok <==> results is Some,
        interval matches Ok((start, end)) ==> results == Some(end) && start.n_fixed == end.n_fixed
            && start.values@.len() == end.values@.len() && (forall|i: int|
            0 <= i < start.values@.len() ==> #[trigger] start.values@[i] == 0),
{
}

/// Law: the results in bytes are at each index the sum over all messages, modulo
/// 2^64, and there are none where no message can be read.
pub proof fn law_sum_inject_results(
    order: ByteOrder,
    bytes: &[u8],
    n_fixed: usize,
    result: Option<CounterSnapshot>,
)
    requires
        call_ensures(sum_inject_results, (order, bytes, n_fixed), result),
    ensures
        result is None <==> messages(order, bytes@).len() == 0,
        result matches Some(snapshot) ==> snapshot.n_fixed == n_fixed && snapshot.values@.len()
            == messages(order, bytes@)[0].len() && forall|j: int|
            0 <= j < snapshot.values@.len() ==> (#[trigger] snapshot.values@[j]) == messages(
                order,
                bytes@,
            ).fold_left(
                0int,
                |sum: int, message: Seq<u64>|
                    if message.len() == messages(order, bytes@)[0].len() {
                        sum + message[j]
                    } else {
                        sum
                    },
            ) % 0x1_0000_0000_0000_0000,
{
    law_results(order, bytes@, n_fixed, result);
}

/// Law: what measured processes sent is summed up in a byte order of the
/// machine.
pub proof fn law_read_all_inject_results(
    bytes: &[u8],
    n_fixed: usize,
    result: Option<CounterSnapshot>,
) -> (order: ByteOrder)
    requires
        call_ensures(read_all_inject_results, (bytes, n_fixed), result),
    ensures
        is_native_order(order),
        result is None <==> messages(order, bytes@).len() == 0,
        result matches Some(snapshot) ==> snapshot.n_fixed == n_fixed && Some(snapshot.values@)
            == total(messages(order, bytes@)),
{
    law_received(bytes@, n_fixed, result)
}

/// Law: a measurement takes the steps that [`stat_step`] says.
pub proof fn law_cmd_stat(
    region: bool,
    n_fixed: usize,
    state: StatState,
    event: StatEvent,
    next: StatState,
    system_wide: bool,
    first: StatState,
)
    requires
        call_ensures(cmd_stat, (region, n_fixed, state, event), next),
        call_ensures(begin_stat, (system_wide,), first),
    ensures
        stat_step(region, n_fixed, state, event, next),
        system_wide ==> first == StatState::ReadCaller,
        !system_wide ==> first == StatState::OpenPipe,
{
}

/// Law: the CPU is identified by the three replies, and the first failure among
/// them is the error.
pub proof fn law_read_cpu_info(
    cpu_type: Result<u32, String>,
    cpu_subtype: Result<u32, String>,
    cpu_family: Result<u32, String>,
    result: Result<CpuId, KpepError>,
)
    requires
        call_ensures(read_cpu_info, (cpu_type, cpu_subtype, cpu_family), result),
    ensures
        result is Ok <==> cpu_type is Ok && cpu_subtype is Ok && cpu_family is Ok,
        result matches Ok(cpu) ==> cpu_type == Ok::<u32, String>(cpu.cpu_type) && cpu_subtype == Ok::<
            u32,
            String,
        >(cpu.cpu_subtype) && cpu_family == Ok::<u32, String>(cpu.cpu_family),
        cpu_type matches Err(text) ==> result == Err::<CpuId, KpepError>(
            KpepError::SysctlError(text),
        ),
        cpu_type is Ok ==> (cpu_subtype matches Err(text) ==> result == Err::<CpuId, KpepError>(
            KpepError::SysctlError(text),
        )),
        cpu_type is Ok && cpu_subtype is Ok ==> (cpu_family matches Err(text) ==> result == Err::<
            CpuId,
            KpepError,
        >(KpepError::SysctlError(text))),
{
}

/// Law: the file that is looked for is the CPU's own, and without it the first
/// that can stand in for it.
pub proof fn law_find_database_path(
    cpu: CpuId,
    exact: bool,
    names: &Vec<String>,
    result: Result<DatabaseFile, KpepError>,
    own: String,
)
    requires
        call_ensures(find_database_path, (cpu, exact, names), result),
        call_ensures(CpuId::file_name, (&cpu,), own),
    ensures
        own@ == file_name(cpu),
        result == finds(cpu, exact, names@),
        exact ==> result == Ok::<DatabaseFile, KpepError>(DatabaseFile::Exact),
        !exact ==> match result {
            Ok(DatabaseFile::Listed(at)) => at < names@.len() && is_substitute(
                cpu,
                names@[at as int]@,
            ),
            Ok(DatabaseFile::Exact) => false,
            Err(_) => forall|k: int|
                0 <= k < names@.len() ==> !is_substitute(cpu, (#[trigger] names@[k])@),
        },
{
    crate::laws::loading::law_found_file(cpu, *names);
}

/// Law: a file is loaded as the database that it describes, and what goes wrong
/// is said; the loading for the running CPU takes the steps that [`load_step`]
/// says.
pub proof fn law_load(
    path: String,
    contents: Result<Vec<u8>, String>,
    result: Result<KpepDatabase, KpepError>,
    state: CpuLoad,
    event: CpuLoadEvent,
    next: CpuLoad,
)
    requires
        call_ensures(KpepDatabase::load_from_path, (path, contents), result),
        call_ensures(KpepDatabase::load_current_cpu, (state, event), next),
    ensures
        contents matches Err(cause) ==> (result matches Err(
            KpepError::ReadError { path: p, source },
        ) && p@ == path@ && source@ == cause@),
        contents matches Ok(bytes) ==> match read_tree(bytes@) {
            Err(cause) => result matches Err(KpepError::ReadError { path: p, source }) && p@
                == path@ && source@ == cause,
            Ok(root) => match database_of(root) {
                Ok(model) => result matches Ok(database) && database@ == model,
                Err(text) => result matches Err(KpepError::StructureError(message)) && message@
                    == text,
            },
        },
        load_step(state, event, next),
{
    law_loaded(path@, contents, result);
}

/// Law: a number with a fraction is taken exactly where each character is a
/// digit or a dot, and is given back as it was.
pub proof fn law_decimal_fractions(
    text: String,
    result: Option<Decimal>,
    number: &Decimal,
    shown: &str,
)
    requires
        call_ensures(Decimal::new, (text,), result),
        call_ensures(Decimal::as_str, (number,), shown),
    ensures
        result is Some <==> forall|i: int|
            0 <= i < text@.len() ==> '0' <= #[trigger] text@[i] <= '9' || text@[i] == '.',
        result matches Some(taken) ==> taken@ == text@,
        shown@ == number@,
{
}

/// Law: a formatted report is the text of the report, and shows the measured
/// cycles: what stands before the name `cycles` is their number.
pub proof fn law_format_results(
    report: &Report,
    events: &Vec<&KpepEvent>,
    style: &Style,
    text: String,
) -> (parts: (Seq<char>, Seq<char>, Seq<char>))
    requires
        call_ensures(format_results, (report, events, style), text),
    ensures
        text@ == report_text(*report, borrowed_models(events@), *style),
        is_valid_report(*report),
        text@ == parts.0 + ("  "@ + style.blue@) + parts.1 + (style.reset@ + "  "@ + style.bold@
            + "cycles"@ + style.reset@) + parts.2,
        parts.1.fold_left(
            0int,
            |v: int, c: char|
                if c == ' ' || c == ',' {
                    v
                } else {
                    10 * v + (c as int - '0' as int)
                },
        ) == report.cycles,
{
    law_cycles_are_shown(*report, borrowed_models(events@), *style)
}

/// Law: a comment is shortened as [`short_comment`] says.
pub proof fn law_shorten<'a>(comment: &'a str, short: &'a str)
    requires
        call_ensures(shorten, (comment,), short),
    ensures
        short@ == short_comment(comment@),
{
}

/// Law: a pattern is mentioned exactly where the name or the description is some
/// text, the pattern and some text.
pub proof fn law_is_mentioned(name: &str, description: &str, pattern: &str, result: bool)
    requires
        call_ensures(is_mentioned, (name, description, pattern), result),
    ensures
        result <==> exists|before: Seq<char>, after: Seq<char>|
            name@ == #[trigger] (before + pattern@ + after) || description@ == before + pattern@
                + after,
{
    if result {
        let (before, after) = crate::laws::listing::law_mentioned_only_inside(
            name@,
            description@,
            pattern@,
        );
        assert(name@ == before + pattern@ + after || description@ == before + pattern@ + after);
    }
    if exists|before: Seq<char>, after: Seq<char>|
        name@ == #[trigger] (before + pattern@ + after) || description@ == before + pattern@
            + after {
        let (before, after) = choose|before: Seq<char>, after: Seq<char>|
            name@ == #[trigger] (before + pattern@ + after) || description@ == before + pattern@
                + after;
        crate::laws::listing::law_mentioned(before, pattern@, after, name@);
        crate::laws::listing::law_mentioned(before, pattern@, after, description@);
    }
}

/// Law: an event passes a filter exactly where the lower case form of its name
/// or that of its description is some text, the lower case form of the filter
/// and some text; without a filter every event passes.
pub proof fn law_passes_filter(event: &KpepEvent, pattern: &str, filtered: bool, unfiltered: bool)
    requires
        call_ensures(passes_filter, (event, Some(pattern)), filtered),
        call_ensures(passes_filter, (event, None::<&str>), unfiltered),
    ensures
        filtered <==> exists|before: Seq<char>, after: Seq<char>|
            lowercase(event.name@) == #[trigger] (before + lowercase(pattern@) + after)
                || lowercase(event.description@) == before + lowercase(pattern@) + after,
        unfiltered,
{
    law_passes(event@, pattern@);
}

/// Law: an event number and a mask are written as [`event_number_text`] and
/// [`mask_text`] say.
pub proof fn law_event_texts(n: u64, number: String, mask: Option<u64>, slots: String)
    requires
        call_ensures(format_event_number, (n,), number),
        call_ensures(format_mask, (mask,), slots),
    ensures
        number@ == event_number_text(n as nat),
        slots@ == mask_text(mask),
{
}

/// Law: a formatted list is the text of the list.
pub proof fn law_format_list(database: &KpepDatabase, filter: Option<&str>, text: String)
    requires
        call_ensures(format_list, (database, filter), text),
    ensures
        text@ == list_text(database@, filter_text(filter)),
{
}

} // verus!

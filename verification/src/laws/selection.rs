//! Laws of what a measurement is set up with: the events that are selected, the
//! environment of the measured process, and what is said of the CPU.

use vstd::prelude::*;

use crate::inject::CounterSnapshot;
use crate::kpep::{event_meant, DatabaseModel};
use crate::laws::numbers::law_decimal;
use crate::stat::{
    caller_ids, child_variables, cpu_text, default_event_names, is_per_process_interval, is_style, known_events,
    optional_text, parsed_u32, texts, unknown_warnings, Style,
};
use crate::text::{decimal, signed_decimal};

verus! {

/// Law: the selection for names, and then for more names, is the selection for
/// all of them, in their order; so are the warnings.
pub proof fn law_selections_join(
    database: DatabaseModel,
    a: Seq<Seq<char>>,
    b: Seq<Seq<char>>,
)
    ensures
        known_events(database, a + b) == known_events(database, a) + known_events(database, b),
        unknown_warnings(database, a + b) == unknown_warnings(database, a) + unknown_warnings(
            database,
            b,
        ),
    decreases b.len(),
{
    if b.len() == 0 {
        assert(a + b =~= a);
        assert(known_events(database, a) + known_events(database, b) =~= known_events(database, a));
        assert(unknown_warnings(database, a) + unknown_warnings(database, b) =~= unknown_warnings(
            database,
            a,
        ));
    } else {
        law_selections_join(database, a, b.drop_last());
        assert((a + b).drop_last() =~= a + b.drop_last());
        assert((a + b).last() == b.last());
        assert(known_events(database, a + b) =~= known_events(database, a) + known_events(
            database,
            b,
        ));
        assert(unknown_warnings(database, a + b) =~= unknown_warnings(database, a)
            + unknown_warnings(database, b));
    }
}

/// Law: a name that means an event selects that event and nothing else, without
/// a warning; a name that means none selects nothing, and is warned of by name.
pub proof fn law_selection_of_one(database: DatabaseModel, name: Seq<char>)
    ensures
        match event_meant(database, name) {
            Some(event) => {
                &&& known_events(database, seq![name]) == seq![event]
                &&& unknown_warnings(database, seq![name]).len() == 0
            },
            None => {
                &&& known_events(database, seq![name]).len() == 0
                &&& unknown_warnings(database, seq![name]) == seq![
                    "Warning: unknown event '"@ + name + "', skipping"@,
                ]
            },
        },
{
    let none = seq![name].drop_last();
    assert(none =~= Seq::<Seq<char>>::empty());
    assert(known_events(database, none) =~= Seq::empty());
    assert(unknown_warnings(database, none) =~= Seq::<Seq<char>>::empty());
    assert(seq![name].last() == name);
}

/// Law: where every name means an event, there are as many events as names, each
/// the one that the name at its place means, and no warnings.
pub proof fn law_selection_follows_the_names(database: DatabaseModel, names: Seq<Seq<char>>)
    requires
        forall|i: int| 0 <= i < names.len() ==> event_meant(database, #[trigger] names[i]) is Some,
    ensures
        known_events(database, names).len() == names.len(),
        forall|i: int|
            #![trigger names[i]]
            #![trigger known_events(database, names)[i]]
            0 <= i < names.len() ==> event_meant(database, names[i]) == Some(
                known_events(database, names)[i],
            ),
        unknown_warnings(database, names).len() == 0,
    decreases names.len(),
{
    if names.len() > 0 {
        let front = names.drop_last();
        assert forall|i: int| 0 <= i < front.len() implies event_meant(
            database,
            #[trigger] front[i],
        ) is Some by {
            assert(front[i] == names[i]);
        }
        law_selection_follows_the_names(database, front);
        assert(event_meant(database, names[names.len() - 1]) is Some);
        assert forall|i: int| 0 <= i < names.len() implies event_meant(
            database,
            #[trigger] names[i],
        ) == Some(known_events(database, names)[i]) by {
            if i < front.len() {
                assert(front[i] == names[i]);
            }
        }
    }
}

/// Law: the text on the CPU has its name and, as digits, the number of its fixed
/// counters, of its configurable counters and of its cores, in this order.
pub proof fn law_cpu_text(name: Seq<char>, n_fixed: nat, n_configurable: nat, ncpu: nat) -> (shown: (
    Seq<char>,
    Seq<char>,
    Seq<char>,
))
    ensures
        cpu_text(name, n_fixed, n_configurable, ncpu) == "CPU: "@ + name + " ("@ + shown.0
            + " fixed + "@ + shown.1 + " configurable counters, "@ + shown.2 + " CPUs)"@,
        shown.0.fold_left(0int, |v: int, c: char| 10 * v + (c as int - '0' as int)) == n_fixed,
        shown.1.fold_left(0int, |v: int, c: char| 10 * v + (c as int - '0' as int))
            == n_configurable,
        shown.2.fold_left(0int, |v: int, c: char| 10 * v + (c as int - '0' as int)) == ncpu,
        forall|i: int| 0 <= i < shown.0.len() ==> '0' <= #[trigger] shown.0[i] <= '9',
        forall|i: int| 0 <= i < shown.1.len() ==> '0' <= #[trigger] shown.1[i] <= '9',
        forall|i: int| 0 <= i < shown.2.len() ==> '0' <= #[trigger] shown.2[i] <= '9',
{
    law_decimal(n_fixed);
    law_decimal(n_configurable);
    law_decimal(ncpu);
    (decimal(n_fixed), decimal(n_configurable), decimal(ncpu))
}

/// Law: the user and the group to run as are known exactly where both texts are
/// there and are numbers, and then they are these numbers, the user first.
pub proof fn law_caller(uid: Seq<char>, gid: Seq<char>)
    ensures
        caller_ids(Some(uid), Some(gid)) is Some <==> parsed_u32(uid) is Some && parsed_u32(
            gid,
        ) is Some,
        caller_ids(Some(uid), Some(gid)) matches Some(ids) ==> parsed_u32(uid) == Some(ids.0)
            && parsed_u32(gid) == Some(ids.1),
        caller_ids(None, Some(gid)) is None,
        caller_ids(Some(uid), None) is None,
        caller_ids(None, None) is None,
{
}

/// Law: the environment of a measured process has the path of the library, the
/// number of the descriptor in base ten and, only where regions are measured,
/// the mark that says so, each under its name.
pub proof fn law_child_variables(dylib: Seq<char>, result_fd: int)
    ensures
        child_variables(dylib, result_fd, false).len() == 2,
        child_variables(dylib, result_fd, true).len() == 3,
        forall|region: bool|
            {
                let variables = #[trigger] child_variables(dylib, result_fd, region);
                &&& variables[0] == ("DYLD_INSERT_LIBRARIES"@, dylib)
                &&& variables[1] == ("KPC_RESULT_FD"@, signed_decimal(result_fd))
            },
        child_variables(dylib, result_fd, true)[2] == ("APMC_REGION_MODE"@, "1"@),
{
}

/// Law: the interval of a per-process measurement starts at zero and ends at the
/// results, counter by counter, so that its difference is the results; and
/// without results there is no interval.
pub proof fn law_per_process_interval(
    results: Option<CounterSnapshot>,
    interval: Result<(CounterSnapshot, CounterSnapshot), String>,
)
    requires
        is_per_process_interval(results, interval),
    ensures
        match interval {
            Ok((start, end)) => {
                &&& results == Some(end)
                &&& start.n_fixed == end.n_fixed
                &&& start.values@.len() == end.values@.len()
                &&& forall|i: int|
                    0 <= i < start.values@.len() ==> #[trigger] start.values@[i] == 0
            },
            Err(text) => results is None && text@
                == "per-process counting failed: no results from inject dylib"@,
        },
{
}

/// Law: a style has the five codes that it is said to have, each in its place.
pub proof fn law_style(
    style: Style,
    dim: Seq<char>,
    blue: Seq<char>,
    bold: Seq<char>,
    red: Seq<char>,
    reset: Seq<char>,
)
    ensures
        is_style(style, dim, blue, bold, red, reset) <==> (style.dim@ == dim && style.blue@ == blue
            && style.bold@ == bold && style.red@ == red && style.reset@ == reset),
{
}

/// Law: strings say their texts, one by one in their order.
pub proof fn law_texts(strings: Seq<String>, text: String)
    ensures
        texts(strings).len() == strings.len(),
        forall|i: int| 0 <= i < strings.len() ==> #[trigger] texts(strings)[i] == strings[i]@,
        optional_text(Some(text)) == Some(text@),
        optional_text(None) is None,
{
}

/// Law: without a choice eight events are measured: cache misses of loads and
/// stores, failed exclusives, stalls, load and store operations, mispredicted
/// branches, vector operations and empty schedules.
pub proof fn law_default_events()
    ensures
        default_event_names().len() == 8,
        default_event_names()[0] == "L1D_CACHE_MISS_LD"@,
        default_event_names()[1] == "L1D_CACHE_MISS_ST"@,
        default_event_names()[2] == "ATOMIC_OR_EXCLUSIVE_FAIL"@,
        default_event_names()[3] == "MAP_STALL"@,
        default_event_names()[4] == "LDST_X64_UOP"@,
        default_event_names()[5] == "BRANCH_MISPRED_NONSPEC"@,
        default_event_names()[6] == "MAP_SIMD_UOP"@,
        default_event_names()[7] == "SCHEDULE_EMPTY"@,
{
}

} // verus!

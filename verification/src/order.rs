//! The order of events in a database: by event number, fixed counters without
//! a number first.

use vstd::prelude::*;

use crate::kpep::{event_models, EventModel, KpepEvent};

verus! {

/// Whether an event numbered `a` may stand before one numbered `b`.
pub open spec fn number_le(a: Option<u64>, b: Option<u64>) -> bool {
    match (a, b) {
        (None, _) => true,
        (Some(_), None) => false,
        (Some(x), Some(y)) => x <= y,
    }
}

/// `events` with `event` put behind the last one that may stand before it.
pub open spec fn insert_by_number(events: Seq<EventModel>, event: EventModel) -> Seq<EventModel>
    decreases events.len(),
{
    if events.len() == 0 || number_le(events.last().number, event.number) {
        events.push(event)
    } else {
        insert_by_number(events.drop_last(), event).push(events.last())
    }
}

/// `events` ordered by number, those of the same number in the order they had.
pub open spec fn by_number(events: Seq<EventModel>) -> Seq<EventModel>
    decreases events.len(),
{
    if events.len() == 0 {
        events
    } else {
        insert_by_number(by_number(events.drop_last()), events.last())
    }
}

/// Whether `events` stand in the order of their numbers.
pub open spec fn ordered_by_number(events: Seq<EventModel>) -> bool {
    forall|i: int, j: int|
        0 <= i <= j < events.len() ==> number_le(
            (#[trigger] events[i]).number,
            (#[trigger] events[j]).number,
        )
}

/// The events that have the number `number`, in their order.
pub open spec fn numbered(events: Seq<EventModel>, number: Option<u64>) -> Seq<EventModel> {
    events.filter(|event: EventModel| event.number == number)
}

/// Inserting puts the event behind everything that may stand before it.
proof fn lemma_insert_position(events: Seq<EventModel>, event: EventModel, at: int)
    requires
        0 <= at <= events.len(),
        at > 0 ==> number_le(events[at - 1].number, event.number),
        forall|k: int|
            at <= k < events.len() ==> !number_le((#[trigger] events[k]).number, event.number),
    ensures
        insert_by_number(events, event) == events.insert(at, event),
    decreases events.len(),
{
    if at == events.len() {
        assert(events.insert(at, event) =~= events.push(event));
    } else {
        assert(!number_le(events[events.len() - 1].number, event.number));
        let shorter = events.drop_last();
        assert forall|k: int| at <= k < shorter.len() implies !number_le(
            (#[trigger] shorter[k]).number,
            event.number,
        ) by {
            assert(shorter[k] == events[k]);
        }
        lemma_insert_position(shorter, event, at);
        assert(shorter.insert(at, event).push(events.last()) =~= events.insert(at, event));
    }
}

proof fn lemma_insert_orders(events: Seq<EventModel>, event: EventModel)
    requires
        ordered_by_number(events),
    ensures
        ordered_by_number(insert_by_number(events, event)),
        insert_by_number(events, event).len() == events.len() + 1,
        insert_by_number(events, event).to_multiset() == events.to_multiset().insert(event),
        forall|k: int|
            0 <= k < insert_by_number(events, event).len() ==> (#[trigger] insert_by_number(
                events,
                event,
            )[k]) == event || events.contains(insert_by_number(events, event)[k]),
    decreases events.len(),
{
    broadcast use vstd::seq_lib::group_to_multiset_ensures;

    let result = insert_by_number(events, event);
    if events.len() == 0 || number_le(events.last().number, event.number) {
        assert forall|i: int, j: int| 0 <= i <= j < result.len() implies number_le(
            (#[trigger] result[i]).number,
            (#[trigger] result[j]).number,
        ) by {
            if j == events.len() && i < j {
                assert(number_le(events[i].number, events[events.len() - 1].number));
            }
        }
        assert forall|k: int| 0 <= k < result.len() implies (#[trigger] result[k]) == event
            || events.contains(result[k]) by {
            if k < events.len() {
                assert(events[k] == result[k]);
            }
        }
    } else {
        let shorter = events.drop_last();
        assert(ordered_by_number(shorter)) by {
            assert forall|i: int, j: int| 0 <= i <= j < shorter.len() implies number_le(
                (#[trigger] shorter[i]).number,
                (#[trigger] shorter[j]).number,
            ) by {
                assert(shorter[i] == events[i] && shorter[j] == events[j]);
            }
        }
        lemma_insert_orders(shorter, event);
        let front = insert_by_number(shorter, event);
        assert forall|k: int| 0 <= k < front.len() implies number_le(
            (#[trigger] front[k]).number,
            events.last().number,
        ) && (front[k] == event || events.contains(front[k])) by {
            if front[k] != event {
                let i = choose|i: int| 0 <= i < shorter.len() && shorter[i] == front[k];
                assert(events[i] == front[k]);
                assert(number_le(events[i].number, events[events.len() - 1].number));
            }
        }
        assert forall|i: int, j: int| 0 <= i <= j < result.len() implies number_le(
            (#[trigger] result[i]).number,
            (#[trigger] result[j]).number,
        ) by {
            if j < front.len() {
                assert(result[i] == front[i] && result[j] == front[j]);
            } else if i < front.len() {
                assert(result[i] == front[i]);
            }
        }
        assert forall|k: int| 0 <= k < result.len() implies (#[trigger] result[k]) == event
            || events.contains(result[k]) by {
            if k < front.len() {
                assert(result[k] == front[k]);
            } else {
                assert(events[events.len() - 1] == result[k]);
            }
        }
        assert(events =~= shorter.push(events.last()));
        assert(result.to_multiset() =~= events.to_multiset().insert(event));
    }
}

/// Law: ordering by number puts events in the order of their numbers, and
/// neither adds, drops nor alters any.
pub proof fn law_by_number_orders(events: Seq<EventModel>)
    ensures
        ordered_by_number(by_number(events)),
        by_number(events).len() == events.len(),
        by_number(events).to_multiset() == events.to_multiset(),
    decreases events.len(),
{
    broadcast use vstd::seq_lib::group_to_multiset_ensures;

    if events.len() > 0 {
        let shorter = events.drop_last();
        law_by_number_orders(shorter);
        lemma_insert_orders(by_number(shorter), events.last());
        assert(events =~= shorter.push(events.last()));
    }
}

proof fn lemma_insert_stable(events: Seq<EventModel>, event: EventModel, number: Option<u64>)
    ensures
        numbered(insert_by_number(events, event), number) == if event.number == number {
            numbered(events, number).push(event)
        } else {
            numbered(events, number)
        },
    decreases events.len(),
{
    if events.len() == 0 || number_le(events.last().number, event.number) {
        lemma_filter_push(events, event, number);
    } else {
        let shorter = events.drop_last();
        lemma_insert_stable(shorter, event, number);
        let front = insert_by_number(shorter, event);
        lemma_filter_push(front, events.last(), number);
        lemma_filter_push(shorter, events.last(), number);
        assert(events =~= shorter.push(events.last()));
    }
}

proof fn lemma_filter_push(events: Seq<EventModel>, event: EventModel, number: Option<u64>)
    ensures
        numbered(events.push(event), number) == if event.number == number {
            numbered(events, number).push(event)
        } else {
            numbered(events, number)
        },
{
    reveal(Seq::filter);
    assert(events.push(event).drop_last() =~= events);
}

/// Law: ordering by number is stable: events of the same number keep their order.
pub proof fn law_by_number_stable(events: Seq<EventModel>, number: Option<u64>)
    ensures
        numbered(by_number(events), number) == numbered(events, number),
    decreases events.len(),
{
    if events.len() > 0 {
        let shorter = events.drop_last();
        law_by_number_stable(shorter, number);
        lemma_insert_stable(by_number(shorter), events.last(), number);
        lemma_filter_push(shorter, events.last(), number);
        assert(events =~= shorter.push(events.last()));
    }
}

proof fn lemma_numbered_first(events: Seq<EventModel>, number: Option<u64>)
    requires
        events.len() > 0,
    ensures
        numbered(events, number) == if events[0].number == number {
            seq![events[0]] + numbered(events.drop_first(), number)
        } else {
            numbered(events.drop_first(), number)
        },
{
    let rest = events.drop_first();
    assert(events =~= seq![events[0]] + rest);
    rest.lemma_filter_prepend(events[0], |event: EventModel| event.number == number);
    assert(Seq::<EventModel>::empty() + numbered(rest, number) =~= numbered(rest, number));
}

proof fn lemma_numbered_some(events: Seq<EventModel>, at: int)
    requires
        0 <= at < events.len(),
    ensures
        numbered(events, events[at].number).len() > 0,
{
    events.lemma_filter_contains(|event: EventModel| event.number == events[at].number, at);
}

proof fn lemma_numbered_from(events: Seq<EventModel>, number: Option<u64>) -> (at: int)
    requires
        numbered(events, number).len() > 0,
    ensures
        0 <= at < events.len(),
        events[at].number == number,
{
    let same = |event: EventModel| event.number == number;
    let found = events.filter(same)[0];
    events.lemma_filter_pred(same, 0);
    events.lemma_filter_contains_rev(same, found);
    choose|at: int| 0 <= at < events.len() && events[at] == found
}

/// Law: the order of their numbers, with the order they have among those of
/// the same number, leaves only one way to arrange events.
pub proof fn law_order_is_unique(a: Seq<EventModel>, b: Seq<EventModel>)
    requires
        ordered_by_number(a),
        ordered_by_number(b),
        forall|number: Option<u64>| #[trigger] numbered(a, number) == numbered(b, number),
    ensures
        a == b,
    decreases a.len(),
{
    if a.len() == 0 {
        if b.len() > 0 {
            lemma_numbered_some(b, 0);
            lemma_numbered_from(a, b[0].number);
        }
        assert(a =~= b);
    } else {
        lemma_numbered_some(a, 0);
        assert(numbered(a, a[0].number) == numbered(b, a[0].number));
        let in_b = lemma_numbered_from(b, a[0].number);
        lemma_numbered_some(b, 0);
        assert(numbered(a, b[0].number) == numbered(b, b[0].number));
        let in_a = lemma_numbered_from(a, b[0].number);
        assert(number_le(a[0].number, a[in_a].number));
        assert(number_le(b[0].number, b[in_b].number));
        assert(a[0].number == b[0].number);
        lemma_numbered_first(a, a[0].number);
        lemma_numbered_first(b, a[0].number);
        assert(numbered(a, a[0].number)[0] == a[0]);
        assert(numbered(b, a[0].number)[0] == b[0]);
        let rest_a = a.drop_first();
        let rest_b = b.drop_first();
        assert forall|i: int, j: int| 0 <= i <= j < rest_a.len() implies number_le(
            (#[trigger] rest_a[i]).number,
            (#[trigger] rest_a[j]).number,
        ) by {
            assert(rest_a[i] == a[i + 1] && rest_a[j] == a[j + 1]);
        }
        assert forall|i: int, j: int| 0 <= i <= j < rest_b.len() implies number_le(
            (#[trigger] rest_b[i]).number,
            (#[trigger] rest_b[j]).number,
        ) by {
            assert(rest_b[i] == b[i + 1] && rest_b[j] == b[j + 1]);
        }
        assert forall|number: Option<u64>| #[trigger]
            numbered(rest_a, number) == numbered(rest_b, number) by {
            lemma_numbered_first(a, number);
            lemma_numbered_first(b, number);
            assert(numbered(a, number) == numbered(b, number));
            if a[0].number == number {
                assert(numbered(rest_a, number) =~= numbered(a, number).drop_first());
                assert(numbered(rest_b, number) =~= numbered(b, number).drop_first());
            }
        }
        law_order_is_unique(rest_a, rest_b);
        assert(a =~= seq![a[0]] + rest_a);
        assert(b =~= seq![b[0]] + rest_b);
    }
}

/// Whether an event numbered `a` may stand before one numbered `b`.
fn may_precede(a: Option<u64>, b: Option<u64>) -> (result: bool)
    ensures
        result == number_le(a, b),
{
    match (a, b) {
        (None, _) => true,
        (Some(_), None) => false,
        (Some(x), Some(y)) => x <= y,
    }
}

/// Orders events by number, those of the same number in the order they had.
pub fn sort_by_number(events: &mut Vec<KpepEvent>)
    ensures
        event_models(final(events)@) == by_number(event_models(old(events)@)),
{
    let ghost models = event_models(events@);
    let mut done: usize = 0;
    assert(models.take(0) =~= Seq::<EventModel>::empty());
    assert(event_models(events@).take(0) =~= Seq::<EventModel>::empty());
    while done < events.len()
        invariant
            done <= events@.len() == models.len(),
            event_models(events@).take(done as int) == by_number(models.take(done as int)),
            event_models(events@).skip(done as int) == models.skip(done as int),
        decreases events@.len() - done,
    {
        let ghost before = event_models(events@);
        let ghost front = before.take(done as int);
        let ghost event = before[done as int];
        assert(event == models[done as int]) by {
            assert(before.skip(done as int)[0] == models.skip(done as int)[0]);
        }
        let mut at: usize = done;
        while at > 0 && !may_precede(events[at - 1].number, events[done].number)
            invariant
                at <= done < events@.len(),
                before == event_models(events@),
                front == before.take(done as int),
                event == before[done as int],
                forall|k: int|
                    at <= k < done ==> !number_le((#[trigger] front[k]).number, event.number),
            decreases at,
        {
            at -= 1;
            assert(front[at as int] == before[at as int]);
        }
        assert(at > 0 ==> front[at - 1] == before[at - 1]);
        proof {
            lemma_insert_position(front, event, at as int);
        }
        let moved = events.remove(done);
        events.insert(at, moved);
        done += 1;
        proof {
            let after = event_models(events@);
            assert(after.take(done as int) =~= front.insert(at as int, event));
            assert(models.take(done as int).drop_last() =~= models.take(done - 1));
            assert(after.skip(done as int) =~= models.skip(done as int)) by {
                assert forall|k: int| done <= k < after.len() implies after[k] == models[k] by {
                    assert(after[k] == before[k]);
                    assert(before.skip(done - 1)[k - (done - 1)] == models.skip(done - 1)[k - (done
                        - 1)]);
                }
            }
        }
    }
    assert(models.take(done as int) =~= models);
    assert(event_models(events@).take(done as int) =~= event_models(events@));
}

} // verus!

//! Laws of the results of measured processes: how they are read, and what they
//! come to.

use vstd::prelude::*;

use crate::inject::{
    column_sum, is_native_order, little_endian, messages, number, received, results_total, total, values_in,
    ByteOrder, CounterSnapshot,
};

verus! {

/// Law: bytes in big endian order are a number whose digits in base 256 they
/// are, the first byte being the highest digit; in little endian order the last
/// byte is the highest digit.
pub proof fn law_number_is_positional(bytes: Seq<u8>)
    ensures
        number(ByteOrder::Big, bytes) == bytes.fold_left(0int, |v: int, b: u8| 256 * v + b),
        number(ByteOrder::Little, bytes) == bytes.reverse().fold_left(
            0int,
            |v: int, b: u8| 256 * v + b,
        ),
{
    lemma_little_endian(bytes);
    lemma_little_endian(bytes.reverse());
    assert(bytes.reverse().reverse() =~= bytes);
}

proof fn lemma_little_endian(bytes: Seq<u8>)
    ensures
        little_endian(bytes) == bytes.reverse().fold_left(0int, |v: int, b: u8| 256 * v + b),
    decreases bytes.len(),
{
    if bytes.len() > 0 {
        lemma_little_endian(bytes.drop_first());
        assert(bytes.reverse().drop_last() =~= bytes.drop_first().reverse());
        assert(bytes.reverse().last() == bytes[0]);
    } else {
        assert(bytes.reverse().len() == 0);
    }
}

proof fn lemma_number_bound(order: ByteOrder, bytes: Seq<u8>)
    requires
        bytes.len() == 8,
    ensures
        number(order, bytes) <= u64::MAX,
{
    reveal_with_fuel(little_endian, 9);
}

/// Law: four bytes that are a count from 1 to 16, and then as many times eight
/// bytes, are a message: it holds the numbers that the eights are, in their
/// order, and the bytes behind it are read as they would be alone.
pub proof fn law_message_is_read(order: ByteOrder, bytes: Seq<u8>, count: nat)
    requires
        bytes.len() >= 4 + 8 * count,
        1 <= count <= 16,
        number(order, bytes.subrange(0, 4)) == count,
    ensures
        messages(order, bytes).len() == 1 + messages(
            order,
            bytes.subrange(4 + 8 * count as int, bytes.len() as int),
        ).len(),
        messages(order, bytes)[0].len() == count,
        forall|j: int|
            0 <= j < count ==> (#[trigger] messages(order, bytes)[0][j]) == number(
                order,
                bytes.subrange(4 + 8 * j, 12 + 8 * j),
            ),
        messages(order, bytes).drop_first() == messages(
            order,
            bytes.subrange(4 + 8 * count as int, bytes.len() as int),
        ),
{
    let rest = bytes.subrange(4 + 8 * count as int, bytes.len() as int);
    assert(bytes.take(4) =~= bytes.subrange(0, 4));
    assert(bytes.skip(4 + 8 * count as int) =~= rest);
    let first = values_in(order, bytes.skip(4), count);
    assert(messages(order, bytes) == seq![first] + messages(order, rest));
    assert(messages(order, bytes).drop_first() =~= messages(order, rest));
    assert forall|j: int| 0 <= j < count implies (#[trigger] messages(order, bytes)[0][j])
        == number(order, bytes.subrange(4 + 8 * j, 12 + 8 * j)) by {
        assert(bytes.skip(4).subrange(8 * j, 8 * j + 8) =~= bytes.subrange(4 + 8 * j, 12 + 8 * j));
        lemma_number_bound(order, bytes.subrange(4 + 8 * j, 12 + 8 * j));
    }
}

/// Law: nothing is read of bytes that are too few for a count, whose count is
/// zero or more than 16, or that are too few for the values that the count says.
pub proof fn law_no_message_is_read(order: ByteOrder, bytes: Seq<u8>)
    requires
        bytes.len() < 4 || ({
            let count = number(order, bytes.subrange(0, 4));
            count == 0 || count > 16 || bytes.len() < 4 + 8 * count
        }),
    ensures
        messages(order, bytes).len() == 0,
{
    if bytes.len() >= 4 {
        assert(bytes.take(4) =~= bytes.subrange(0, 4));
    }
}

/// Law: the total of messages of one length, and one message more of that
/// length, is at every index the sum of the two values there, modulo 2^64.
pub proof fn law_total_adds_a_message(messages: Seq<Seq<u64>>, message: Seq<u64>)
    requires
        messages.len() > 0,
        message.len() == messages[0].len(),
    ensures
        total(messages) is Some,
        total(messages)->0.len() == message.len(),
        total(messages.push(message)) is Some,
        total(messages.push(message))->0.len() == message.len(),
        forall|j: int|
            0 <= j < message.len() ==> (#[trigger] total(messages.push(message))->0[j]) == (total(
                messages,
            )->0[j] + message[j]) % 0x1_0000_0000_0000_0000,
{
    let more = messages.push(message);
    let width = message.len();
    assert(more[0] == messages[0]);
    assert(more.drop_last() =~= messages);
    assert forall|j: int| 0 <= j < width implies (#[trigger] total(more)->0[j]) == (total(
        messages,
    )->0[j] + message[j]) % 0x1_0000_0000_0000_0000 by {
        let sum = column_sum(messages, width, j);
        assert(column_sum(more, width, j) == sum + message[j] as nat);
        assert(((sum % 0x1_0000_0000_0000_0000) + message[j]) % 0x1_0000_0000_0000_0000 == (sum
            + message[j]) % 0x1_0000_0000_0000_0000);
    }
}

/// Law: the total has as many values as the first message, and each is, modulo
/// 2^64, the sum of the values at its index of all messages of that length.
pub proof fn law_total_is_the_sum(messages: Seq<Seq<u64>>, j: int)
    requires
        messages.len() > 0,
        0 <= j < messages[0].len(),
    ensures
        total(messages) is Some,
        total(messages)->0.len() == messages[0].len(),
        total(messages)->0[j] == messages.fold_left(
            0int,
            |sum: int, message: Seq<u64>|
                if message.len() == messages[0].len() {
                    sum + message[j]
                } else {
                    sum
                },
        ) % 0x1_0000_0000_0000_0000,
{
    lemma_column_sum_fold(messages, messages[0].len(), j);
    let width = messages[0].len();
    assert((|sum: int, message: Seq<u64>|
        if message.len() == messages[0].len() {
            sum + message[j]
        } else {
            sum
        }) =~= (|sum: int, message: Seq<u64>|
        if message.len() == width {
            sum + message[j]
        } else {
            sum
        }));
}

proof fn lemma_column_sum_fold(messages: Seq<Seq<u64>>, width: nat, j: int)
    ensures
        column_sum(messages, width, j) == messages.fold_left(
            0int,
            |sum: int, message: Seq<u64>|
                if message.len() == width {
                    sum + message[j]
                } else {
                    sum
                },
        ),
    decreases messages.len(),
{
    if messages.len() > 0 {
        lemma_column_sum_fold(messages.drop_last(), width, j);
    }
}

/// Law: there are results exactly where a message can be read; they are the
/// total of all messages, and go with the number of fixed counters asked for.
pub proof fn law_results(
    order: ByteOrder,
    bytes: Seq<u8>,
    n_fixed: usize,
    result: Option<CounterSnapshot>,
)
    requires
        results_total(order, bytes, n_fixed, result),
    ensures
        result is None <==> messages(order, bytes).len() == 0,
        result matches Some(snapshot) ==> snapshot.n_fixed == n_fixed && snapshot.values@.len()
            == messages(order, bytes)[0].len() && forall|j: int|
            0 <= j < snapshot.values@.len() ==> (#[trigger] snapshot.values@[j]) == messages(
                order,
                bytes,
            ).fold_left(
                0int,
                |sum: int, message: Seq<u64>|
                    if message.len() == messages(order, bytes)[0].len() {
                        sum + message[j]
                    } else {
                        sum
                    },
            ) % 0x1_0000_0000_0000_0000,
{
    let read = messages(order, bytes);
    if let Some(snapshot) = result {
        assert forall|j: int| 0 <= j < snapshot.values@.len() implies (
        #[trigger] snapshot.values@[j]) == messages(order, bytes).fold_left(
            0int,
            |sum: int, message: Seq<u64>|
                if message.len() == messages(order, bytes)[0].len() {
                    sum + message[j]
                } else {
                    sum
                },
        ) % 0x1_0000_0000_0000_0000 by {
            law_total_is_the_sum(read, j);
        }
    }
}

/// Law: what is received is what the bytes come to in a byte order of the
/// machine, so it is there exactly where a message can be read in that order.
pub proof fn law_received(bytes: Seq<u8>, n_fixed: usize, result: Option<CounterSnapshot>) -> (order:
    ByteOrder)
    requires
        received(bytes, n_fixed, result),
    ensures
        is_native_order(order),
        result is None <==> messages(order, bytes).len() == 0,
        result matches Some(snapshot) ==> snapshot.n_fixed == n_fixed && Some(snapshot.values@)
            == total(messages(order, bytes)),
{
    choose|order: ByteOrder| #[trigger]
        is_native_order(order) && results_total(order, bytes, n_fixed, result)
}

} // verus!

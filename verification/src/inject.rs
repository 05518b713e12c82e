//! The counter results that measured processes send back.
//!
//! Each process writes one message: the number of counters as 32 bits, then
//! each counter's value as 64 bits, all in the byte order of the machine.

use vstd::prelude::*;

verus! {

/// The most counters that a message can hold.
pub const MAX_COUNTERS: u64 = 16;

/// The order in which a number's bytes are written.
#[derive(Debug, Clone, Copy, PartialEq, Eq)]
pub enum ByteOrder {
    /// The least significant byte first.
    Little,
    /// The most significant byte first.
    Big,
}

/// Counter values, those of the fixed counters first.
#[derive(Debug)]
pub struct CounterSnapshot {
    pub values: Vec<u64>,
    /// The number of fixed counters.
    pub n_fixed: usize,
}

/// The number that `bytes` are, the least significant first.
pub open spec fn little_endian(bytes: Seq<u8>) -> nat
    decreases bytes.len(),
{
    if bytes.len() == 0 {
        0
    } else {
        bytes[0] as nat + 256 * little_endian(bytes.drop_first())
    }
}

/// The number that `bytes` are in a byte order.
pub open spec fn number(order: ByteOrder, bytes: Seq<u8>) -> nat {
    match order {
        ByteOrder::Little => little_endian(bytes),
        ByteOrder::Big => little_endian(bytes.reverse()),
    }
}

/// How many numbers `width` bytes can tell apart.
pub open spec fn range(width: nat) -> nat
    decreases width,
{
    if width == 0 {
        1
    } else {
        256 * range((width - 1) as nat)
    }
}

/// The lowest `width` bytes of `n`, the least significant first.
pub open spec fn little_endian_bytes(n: nat, width: nat) -> Seq<u8>
    decreases width,
{
    if width == 0 {
        Seq::empty()
    } else {
        seq![(n % 256) as u8] + little_endian_bytes(n / 256, (width - 1) as nat)
    }
}

/// The lowest `width` bytes of `n` in a byte order.
pub open spec fn number_bytes(order: ByteOrder, n: nat, width: nat) -> Seq<u8> {
    match order {
        ByteOrder::Little => little_endian_bytes(n, width),
        ByteOrder::Big => little_endian_bytes(n, width).reverse(),
    }
}

/// The first `count` values in `bytes`.
pub open spec fn values_in(order: ByteOrder, bytes: Seq<u8>, count: nat) -> Seq<u64> {
    Seq::new(count, |j: int| number(order, bytes.subrange(8 * j, 8 * j + 8)) as u64)
}

/// The messages in `bytes`, up to the first that is cut off or holds no
/// counters or too many.
pub open spec fn messages(order: ByteOrder, bytes: Seq<u8>) -> Seq<Seq<u64>>
    decreases bytes.len(),
{
    if bytes.len() < 4 {
        Seq::empty()
    } else {
        let count = number(order, bytes.take(4));
        if count == 0 || count > MAX_COUNTERS || bytes.len() < 4 + 8 * count {
            Seq::empty()
        } else {
            seq![values_in(order, bytes.skip(4), count)] + messages(
                order,
                bytes.skip(4 + 8 * count as int),
            )
        }
    }
}

/// The sum of the values at index `j` of the messages that hold `width` values.
pub open spec fn column_sum(messages: Seq<Seq<u64>>, width: nat, j: int) -> nat
    decreases messages.len(),
{
    if messages.len() == 0 {
        0
    } else {
        column_sum(messages.drop_last(), width, j) + if messages.last().len() == width {
            messages.last()[j] as nat
        } else {
            0
        }
    }
}

/// The element-wise sum of all messages as long as the first, modulo 2^64.
pub open spec fn total(messages: Seq<Seq<u64>>) -> Option<Seq<u64>> {
    if messages.len() == 0 {
        None
    } else {
        Some(
            Seq::new(
                messages[0].len(),
                |j: int|
                    (column_sum(messages, messages[0].len(), j) % 0x1_0000_0000_0000_0000) as u64,
            ),
        )
    }
}

/// Numbers of `width` bytes stay below their range.
proof fn lemma_little_endian_range(bytes: Seq<u8>)
    ensures
        little_endian(bytes) < range(bytes.len()),
    decreases bytes.len(),
{
    if bytes.len() > 0 {
        lemma_little_endian_range(bytes.drop_first());
    }
}

/// Four bytes give 32 bits, eight bytes 64 bits.
proof fn lemma_ranges()
    ensures
        range(4) == 0x1_0000_0000,
        range(8) == 0x1_0000_0000_0000_0000,
        forall|w: nat| #![trigger range(w)] w < 8 ==> 256 * range(w) <= 0x1_0000_0000_0000_0000,
{
    reveal_with_fuel(range, 9);
    assert forall|w: nat| #![trigger range(w)] w < 8 implies 256 * range(w)
        <= 0x1_0000_0000_0000_0000 by {
        assert(w == 0 || w == 1 || w == 2 || w == 3 || w == 4 || w == 5 || w == 6 || w == 7);
    }
}

/// Decodes the `width` bytes from `at` on.
fn decode(order: ByteOrder, bytes: &[u8], at: usize, width: usize) -> (value: u64)
    requires
        width <= 8,
        at + width <= bytes@.len(),
    ensures
        value == number(order, bytes@.subrange(at as int, at + width)),
{
    let length = bytes.len();
    let ghost field = bytes@.subrange(at as int, at + width);
    let ghost ordered = match order {
        ByteOrder::Little => field,
        ByteOrder::Big => field.reverse(),
    };
    let mut value: u64 = 0;
    let mut left: usize = width;
    assert(ordered.skip(width as int) =~= Seq::<u8>::empty());
    while left > 0
        invariant
            left <= width <= 8,
            at + width <= bytes@.len() == length,
            field == bytes@.subrange(at as int, at + width),
            ordered == match order {
                ByteOrder::Little => field,
                ByteOrder::Big => field.reverse(),
            },
            value == little_endian(ordered.skip(left as int)),
        decreases left,
    {
        let ghost tail = ordered.skip(left as int);
        let byte = match order {
            ByteOrder::Little => bytes[at + (left - 1)],
            ByteOrder::Big => bytes[at + (width - left)],
        };
        left -= 1;
        proof {
            assert(ordered.skip(left as int).drop_first() =~= tail);
            assert(ordered.skip(left as int)[0] == byte);
            lemma_little_endian_range(tail);
            lemma_ranges();
            assert(256 * range(tail.len()) <= 0x1_0000_0000_0000_0000);
        }
        value = value * 256 + byte as u64;
    }
    assert(ordered.skip(0) =~= ordered);
    value
}

/// Reads the message that begins at `at`.
fn next_message(order: ByteOrder, bytes: &[u8], at: usize) -> (message: Option<Vec<u64>>)
    requires
        at <= bytes@.len(),
    ensures
        match message {
            Some(values) => {
                &&& 1 <= values@.len() <= MAX_COUNTERS
                &&& at + 4 + 8 * values@.len() <= bytes@.len()
                &&& messages(order, bytes@.skip(at as int)) == seq![values@] + messages(
                    order,
                    bytes@.skip(at + 4 + 8 * values@.len()),
                )
            },
            None => messages(order, bytes@.skip(at as int)) == Seq::<Seq<u64>>::empty(),
        },
{
    let length = bytes.len();
    let ghost rest = bytes@.skip(at as int);
    if length - at < 4 {
        return None;
    }
    let count = decode(order, bytes, at, 4);
    assert(bytes@.subrange(at as int, at + 4) =~= rest.take(4));
    if count == 0 || count > MAX_COUNTERS {
        return None;
    }
    let count = count as usize;
    if length - at < 4 + 8 * count {
        return None;
    }
    let ghost expected = values_in(order, rest.skip(4), count as nat);
    let mut values: Vec<u64> = Vec::new();
    let mut i: usize = 0;
    while i < count
        invariant
            i <= count <= MAX_COUNTERS,
            at + 4 + 8 * count <= bytes@.len() == length,
            rest == bytes@.skip(at as int),
            expected == values_in(order, rest.skip(4), count as nat),
            values@ == expected.take(i as int),
        decreases count - i,
    {
        let value = decode(order, bytes, at + 4 + 8 * i, 8);
        assert(bytes@.subrange(at + 4 + 8 * i, at + 4 + 8 * i + 8) =~= rest.skip(4).subrange(
            8 * i as int,
            8 * i + 8,
        ));
        values.push(value);
        i += 1;
        assert(values@ =~= expected.take(i as int));
    }
    assert(values@ =~= expected);
    assert(rest.skip(4 + 8 * count as int) =~= bytes@.skip(at + 4 + 8 * count));
    Some(values)
}

proof fn lemma_column_sum_push(done: Seq<Seq<u64>>, message: Seq<u64>, width: nat, j: int)
    ensures
        column_sum(done.push(message), width, j) == column_sum(done, width, j)
            + if message.len() == width {
            message[j] as nat
        } else {
            0
        },
{
    assert(done.push(message).drop_last() =~= done);
}

/// Adds a message to the sum so far.
fn add_message(sums: &mut Vec<u64>, message: &Vec<u64>, Ghost(done): Ghost<Seq<Seq<u64>>>)
    requires
        total(done) == Some(old(sums)@),
    ensures
        total(done.push(message@)) == Some(final(sums)@),
{
    let ghost width = done[0].len();
    let ghost before = sums@;
    proof {
        assert forall|j: int| 0 <= j < width implies #[trigger] column_sum(
            done.push(message@),
            width,
            j,
        ) == column_sum(done, width, j) + if message@.len() == width {
            message@[j] as nat
        } else {
            0
        } by {
            lemma_column_sum_push(done, message@, width, j);
        }
    }
    if sums.len() == message.len() {
        let mut i: usize = 0;
        while i < sums.len()
            invariant
                i <= sums@.len() == before.len() == message@.len() == width,
                forall|j: int|
                    0 <= j < i ==> (#[trigger] sums@[j]) == (before[j] + message@[j])
                        % 0x1_0000_0000_0000_0000,
                forall|j: int| i <= j < width ==> (#[trigger] sums@[j]) == before[j],
            decreases sums@.len() - i,
        {
            let sum = sums[i].wrapping_add(message[i]);
            sums.set(i, sum);
            i += 1;
        }
        assert forall|j: int| 0 <= j < width implies (#[trigger] sums@[j]) == (column_sum(
            done.push(message@),
            width,
            j,
        ) % 0x1_0000_0000_0000_0000) as u64 by {
            let sum = column_sum(done, width, j);
            assert(before[j] == sum % 0x1_0000_0000_0000_0000);
            assert(((sum % 0x1_0000_0000_0000_0000) + message@[j]) % 0x1_0000_0000_0000_0000 == (sum
                + message@[j]) % 0x1_0000_0000_0000_0000);
        }
    }
    assert(done.push(message@)[0] == done[0]);
    assert(sums@ =~= total(done.push(message@))->0);
}

/// What the results in `bytes` come to.
pub open spec fn results_total(
    order: ByteOrder,
    bytes: Seq<u8>,
    n_fixed: usize,
    result: Option<CounterSnapshot>,
) -> bool {
    match total(messages(order, bytes)) {
        Some(values) => result matches Some(snapshot) && snapshot.values@ == values
            && snapshot.n_fixed == n_fixed,
        None => result is None,
    }
}

/// Sums up the results in `bytes`, which are in the byte order `order`.
pub fn sum_inject_results(order: ByteOrder, bytes: &[u8], n_fixed: usize) -> (result: Option<
    CounterSnapshot,
>)
    ensures
        results_total(order, bytes@, n_fixed, result),
{
    let length = bytes.len();
    let ghost mut done: Seq<Seq<u64>> = Seq::empty();
    let mut accumulated: Option<Vec<u64>> = None;
    let mut at: usize = 0;
    assert(bytes@.skip(0) =~= bytes@);
    assert(messages(order, bytes@) =~= done + messages(order, bytes@.skip(0)));
    loop
        invariant
            at <= bytes@.len() == length,
            messages(order, bytes@) == done + messages(order, bytes@.skip(at as int)),
            match accumulated {
                Some(sums) => total(done) == Some(sums@),
                None => total(done) is None,
            },
        ensures
            messages(order, bytes@) == done,
            match accumulated {
                Some(sums) => total(done) == Some(sums@),
                None => total(done) is None,
            },
        decreases length - at,
    {
        let message = match next_message(order, bytes, at) {
            Some(message) => message,
            None => {
                assert(done + Seq::<Seq<u64>>::empty() =~= done);
                break;
            },
        };
        let ghost values = message@;
        let ghost before = done;
        at = at + 4 + 8 * message.len();
        accumulated = match accumulated {
            None => {
                assert(total(done.push(values)) == Some(values)) by {
                    assert forall|j: int| 0 <= j < values.len() implies #[trigger] column_sum(
                        done.push(values),
                        values.len(),
                        j,
                    ) == values[j] by {
                        lemma_column_sum_push(done, values, values.len(), j);
                    }
                    assert(total(done.push(values))->0 =~= values);
                }
                Some(message)
            },
            Some(mut sums) => {
                add_message(&mut sums, &message, Ghost(done));
                Some(sums)
            },
        };
        proof {
            done = done.push(values);
            assert(before + (seq![values] + messages(order, bytes@.skip(at as int))) =~= done
                + messages(order, bytes@.skip(at as int)));
        }
    }
    match accumulated {
        Some(values) => Some(CounterSnapshot { values, n_fixed }),
        None => None,
    }
}

/// Decodes four bytes in the byte order of the machine.
///
/// `u32::from_ne_bytes` gives the number that the bytes are in memory: with the
/// least or with the most significant first, whichever the machine has it.
#[verifier::external_body]
fn native_number(bytes: [u8; 4]) -> (value: u32)
    ensures
        value == number(ByteOrder::Little, bytes@) || value == number(ByteOrder::Big, bytes@),
{
    u32::from_ne_bytes(bytes)
}

/// Whether `order` is a byte order of the machine: the machine has decoded the
/// bytes 1, 0, 0, 0 as the number that they are in it.
pub closed spec fn is_native_order(order: ByteOrder) -> bool {
    exists|probe: [u8; 4], value: u32| #[trigger]
        call_ensures(native_number, (probe,), value) && probe@ == seq![1u8, 0, 0, 0] && value
            == number(order, probe@)
}

/// The bytes 1, 0, 0, 0 tell the two byte orders apart.
proof fn lemma_probe()
    ensures
        number(ByteOrder::Little, seq![1u8, 0, 0, 0]) == 1,
        number(ByteOrder::Big, seq![1u8, 0, 0, 0]) == 0x100_0000,
{
    reveal_with_fuel(little_endian, 5);
}

/// The byte order of the machine.
fn native_order() -> (order: ByteOrder)
    ensures
        is_native_order(order),
{
    let probe: [u8; 4] = [1, 0, 0, 0];
    let value = native_number(probe);
    proof {
        lemma_probe();
        assert(probe@ =~= seq![1u8, 0, 0, 0]);
        assert(call_ensures(native_number, (probe,), value));
    }
    if value == 1 {
        ByteOrder::Little
    } else {
        ByteOrder::Big
    }
}

/// Whether `result` is what the results in `bytes` come to, in the byte order of
/// the machine.
pub open spec fn received(bytes: Seq<u8>, n_fixed: usize, result: Option<CounterSnapshot>) -> bool {
    exists|order: ByteOrder| #[trigger]
        is_native_order(order) && results_total(order, bytes, n_fixed, result)
}

/// Sums up the results in `bytes`, as measured processes of this machine sent
/// them. Which byte order the machine has is not stated.
///
/// Returns `None` if there is no valid message.
pub fn read_all_inject_results(bytes: &[u8], n_fixed: usize) -> (result: Option<CounterSnapshot>)
    ensures
        received(bytes@, n_fixed, result),
{
    sum_inject_results(native_order(), bytes, n_fixed)
}

/// The bytes of `values`, each in eight bytes.
pub open spec fn values_bytes(order: ByteOrder, values: Seq<u64>) -> Seq<u8>
    decreases values.len(),
{
    if values.len() == 0 {
        Seq::empty()
    } else {
        values_bytes(order, values.drop_last()) + number_bytes(order, values.last() as nat, 8)
    }
}

/// The bytes of a message.
pub open spec fn message_bytes(order: ByteOrder, values: Seq<u64>) -> Seq<u8> {
    number_bytes(order, values.len(), 4) + values_bytes(order, values)
}

/// The bytes of messages, one after the other.
pub open spec fn stream_bytes(order: ByteOrder, messages: Seq<Seq<u64>>) -> Seq<u8>
    decreases messages.len(),
{
    if messages.len() == 0 {
        Seq::empty()
    } else {
        message_bytes(order, messages[0]) + stream_bytes(order, messages.drop_first())
    }
}

proof fn lemma_little_endian_bytes(n: nat, width: nat)
    requires
        n < range(width),
    ensures
        little_endian_bytes(n, width).len() == width,
        little_endian(little_endian_bytes(n, width)) == n,
    decreases width,
{
    if width > 0 {
        let rest = little_endian_bytes(n / 256, (width - 1) as nat);
        assert(n / 256 < range((width - 1) as nat));
        lemma_little_endian_bytes(n / 256, (width - 1) as nat);
        assert(little_endian_bytes(n, width).drop_first() =~= rest);
        assert(little_endian_bytes(n, width)[0] == (n % 256) as u8);
    }
}

/// Law: a number is read back from its bytes, in either byte order.
pub proof fn law_number_round_trip(order: ByteOrder, n: nat, width: nat)
    requires
        n < range(width),
    ensures
        number_bytes(order, n, width).len() == width,
        number(order, number_bytes(order, n, width)) == n,
{
    lemma_little_endian_bytes(n, width);
    let bytes = little_endian_bytes(n, width);
    assert(bytes.reverse().reverse() =~= bytes);
}

proof fn lemma_values_bytes(order: ByteOrder, values: Seq<u64>)
    ensures
        values_bytes(order, values).len() == 8 * values.len(),
        forall|j: int|
            0 <= j < values.len() ==> values_bytes(order, values).subrange(8 * j, 8 * j + 8)
                == #[trigger] number_bytes(order, values[j] as nat, 8),
    decreases values.len(),
{
    if values.len() > 0 {
        let front = values.drop_last();
        let all = values_bytes(order, values);
        lemma_ranges();
        law_number_round_trip(order, values.last() as nat, 8);
        lemma_values_bytes(order, front);
        assert forall|j: int| 0 <= j < values.len() implies all.subrange(8 * j, 8 * j + 8)
            == #[trigger] number_bytes(order, values[j] as nat, 8) by {
            if j < front.len() {
                assert(front[j] == values[j]);
                assert(all.subrange(8 * j, 8 * j + 8) =~= values_bytes(order, front).subrange(
                    8 * j,
                    8 * j + 8,
                ));
            } else {
                assert(all.subrange(8 * j, 8 * j + 8) =~= number_bytes(
                    order,
                    values.last() as nat,
                    8,
                ));
            }
        }
    }
}

proof fn lemma_message_round_trip(order: ByteOrder, values: Seq<u64>, tail: Seq<u8>)
    requires
        1 <= values.len() <= MAX_COUNTERS,
    ensures
        messages(order, message_bytes(order, values) + tail) == seq![values] + messages(order, tail),
{
    let bytes = message_bytes(order, values) + tail;
    lemma_ranges();
    law_number_round_trip(order, values.len(), 4);
    lemma_values_bytes(order, values);
    assert(bytes.take(4) =~= number_bytes(order, values.len(), 4));
    assert(bytes.skip(4 + 8 * values.len() as int) =~= tail);
    assert(values_in(order, bytes.skip(4), values.len()) =~= values) by {
        assert forall|j: int| 0 <= j < values.len() implies number(
            order,
            #[trigger] bytes.skip(4).subrange(8 * j, 8 * j + 8),
        ) == values[j] by {
            assert(bytes.skip(4).subrange(8 * j, 8 * j + 8) =~= values_bytes(
                order,
                values,
            ).subrange(8 * j, 8 * j + 8));
            law_number_round_trip(order, values[j] as nat, 8);
            assert(values_bytes(order, values).subrange(8 * j, 8 * j + 8) == number_bytes(
                order,
                values[j] as nat,
                8,
            ));
        }
    }
}

/// Law: a message takes four bytes and eight for each counter, so never more
/// than 132.
pub proof fn law_message_size(order: ByteOrder, values: Seq<u64>)
    requires
        1 <= values.len() <= MAX_COUNTERS,
    ensures
        message_bytes(order, values).len() == 4 + 8 * values.len(),
        message_bytes(order, values).len() <= 132,
{
    lemma_ranges();
    law_number_round_trip(order, values.len(), 4);
    lemma_values_bytes(order, values);
}

/// Law: messages that are written one after the other are all read back, in
/// their order, and what stands behind them is read as it would be alone.
pub proof fn law_messages_round_trip(order: ByteOrder, written: Seq<Seq<u64>>, tail: Seq<u8>)
    requires
        forall|k: int| 0 <= k < written.len() ==> 1 <= (#[trigger] written[k]).len() <= MAX_COUNTERS,
    ensures
        messages(order, stream_bytes(order, written) + tail) == written + messages(order, tail),
    decreases written.len(),
{
    if written.len() == 0 {
        assert(stream_bytes(order, written) + tail =~= tail);
        assert(written + messages(order, tail) =~= messages(order, tail));
    } else {
        let rest = written.drop_first();
        assert forall|k: int| 0 <= k < rest.len() implies 1 <= (#[trigger] rest[k]).len()
            <= MAX_COUNTERS by {
            assert(rest[k] == written[k + 1]);
        }
        law_messages_round_trip(order, rest, tail);
        let bytes = stream_bytes(order, rest) + tail;
        lemma_message_round_trip(order, written[0], bytes);
        assert(stream_bytes(order, written) + tail =~= message_bytes(order, written[0]) + bytes);
        assert(written + messages(order, tail) =~= seq![written[0]] + (rest + messages(order, tail)));
    }
}

/// Law: a message that is cut off is dropped, and does not take away from the
/// messages before it.
pub proof fn law_truncated_message_is_dropped(
    order: ByteOrder,
    written: Seq<Seq<u64>>,
    cut: Seq<u64>,
    length: int,
)
    requires
        forall|k: int| 0 <= k < written.len() ==> 1 <= (#[trigger] written[k]).len() <= MAX_COUNTERS,
        1 <= cut.len() <= MAX_COUNTERS,
        0 <= length < message_bytes(order, cut).len(),
    ensures
        messages(order, stream_bytes(order, written) + message_bytes(order, cut).take(length))
            == written,
{
    let tail = message_bytes(order, cut).take(length);
    lemma_ranges();
    law_number_round_trip(order, cut.len(), 4);
    lemma_values_bytes(order, cut);
    if length >= 4 {
        assert(tail.take(4) =~= number_bytes(order, cut.len(), 4));
    }
    assert(messages(order, tail) =~= Seq::<Seq<u64>>::empty());
    law_messages_round_trip(order, written, tail);
    assert(written + messages(order, tail) =~= written);
}

/// Law: there is a result exactly where there is a message, and a single
/// message is its own result.
pub proof fn law_total_of_few(messages: Seq<Seq<u64>>)
    ensures
        total(messages) is None <==> messages.len() == 0,
        messages.len() == 1 ==> total(messages) == Some(messages[0]),
{
    reveal_with_fuel(column_sum, 2);
    if messages.len() == 1 {
        assert(total(messages)->0 =~= messages[0]);
    }
}

proof fn lemma_column_sum_concat(a: Seq<Seq<u64>>, b: Seq<Seq<u64>>, width: nat, j: int)
    ensures
        column_sum(a + b, width, j) == column_sum(a, width, j) + column_sum(b, width, j),
    decreases b.len(),
{
    if b.len() == 0 {
        assert(a + b =~= a);
    } else {
        lemma_column_sum_concat(a, b.drop_last(), width, j);
        assert((a + b).drop_last() =~= a + b.drop_last());
        assert((a + b).last() == b.last());
    }
}

/// Law: it does not matter which of two groups of messages comes first, where
/// their first messages are of the same length.
pub proof fn law_total_ignores_order(a: Seq<Seq<u64>>, b: Seq<Seq<u64>>)
    requires
        a.len() > 0,
        b.len() > 0,
        a[0].len() == b[0].len(),
    ensures
        total(a + b) == total(b + a),
{
    let width = a[0].len();
    assert forall|j: int| #[trigger] column_sum(a + b, width, j) == column_sum(b + a, width, j) by {
        lemma_column_sum_concat(a, b, width, j);
        lemma_column_sum_concat(b, a, width, j);
    }
    assert(total(a + b)->0 =~= total(b + a)->0);
}

/// Law: a message of another length than the first adds nothing.
pub proof fn law_odd_message_adds_nothing(messages: Seq<Seq<u64>>, odd: Seq<u64>)
    requires
        messages.len() > 0,
        odd.len() != messages[0].len(),
    ensures
        total(messages.push(odd)) == total(messages),
{
    let width = messages[0].len();
    assert forall|j: int| #[trigger]
        column_sum(messages.push(odd), width, j) == column_sum(messages, width, j) by {
        lemma_column_sum_push(messages, odd, width, j);
    }
    assert(total(messages.push(odd))->0 =~= total(messages)->0);
}

} // verus!

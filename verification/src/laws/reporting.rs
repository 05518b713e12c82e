//! Laws of reports: what each line shows, and that it can be read back.

use vstd::prelude::*;
use vstd::utf8::encode_utf8;

use crate::kpep::{lemma_event_named, EventModel};
use crate::laws::numbers::law_grouped;
use crate::report::{
    counter_line, counter_lines, counter_names, description_of, footer, is_decimal,
    joined, law_comments_line_up, longest_name, report_text, short_comment, title, Report,
};
use crate::stat::{comma_grouped, texts, Style};
use crate::text::{
    blanks, find_from, lemma_find_from, occurs_at, right_aligned, signed_decimal,
    trimmed_end,
};

verus! {

/// Law: a value as it stands in a line, twenty characters wide or wider, is
/// blanks, digits and commas, and its digits in base ten are the value.
pub proof fn law_shown_value(n: nat)
    ensures
        right_aligned(comma_grouped(n), 20).len() >= 20,
        forall|i: int|
            0 <= i < right_aligned(comma_grouped(n), 20).len() ==> {
                let c = #[trigger] right_aligned(comma_grouped(n), 20)[i];
                c == ' ' || c == ',' || '0' <= c <= '9'
            },
        right_aligned(comma_grouped(n), 20).fold_left(
            0int,
            |v: int, c: char|
                if c == ' ' || c == ',' {
                    v
                } else {
                    10 * v + (c as int - '0' as int)
                },
        ) == n,
{
    let f = |v: int, c: char|
        if c == ' ' || c == ',' {
            v
        } else {
            10 * v + (c as int - '0' as int)
        };
    let grouped = comma_grouped(n);
    let shown = right_aligned(grouped, 20);
    law_grouped(n);
    lemma_fold_without_blanks(grouped);
    let padding = (shown.len() - grouped.len()) as nat;
    assert(shown =~= blanks(padding) + grouped);
    lemma_fold_blanks(padding);
    shown.lemma_fold_left_split(0int, f, padding as int);
    assert(shown.subrange(0, padding as int) =~= blanks(padding));
    assert(shown.subrange(padding as int, shown.len() as int) =~= grouped);
}

proof fn lemma_fold_blanks(n: nat)
    ensures
        blanks(n).fold_left(
            0int,
            |v: int, c: char|
                if c == ' ' || c == ',' {
                    v
                } else {
                    10 * v + (c as int - '0' as int)
                },
        ) == 0,
    decreases n,
{
    if n > 0 {
        lemma_fold_blanks((n - 1) as nat);
        assert(blanks(n).drop_last() =~= blanks((n - 1) as nat));
    }
}

proof fn lemma_fold_without_blanks(text: Seq<char>)
    requires
        forall|i: int| 0 <= i < text.len() ==> #[trigger] text[i] != ' ',
    ensures
        text.fold_left(
            0int,
            |v: int, c: char|
                if c == ' ' || c == ',' {
                    v
                } else {
                    10 * v + (c as int - '0' as int)
                },
        ) == text.fold_left(
            0int,
            |v: int, c: char|
                if c == ',' {
                    v
                } else {
                    10 * v + (c as int - '0' as int)
                },
        ),
    decreases text.len(),
{
    if text.len() > 0 {
        let front = text.drop_last();
        assert forall|i: int| 0 <= i < front.len() implies #[trigger] front[i] != ' ' by {
            assert(front[i] == text[i]);
        }
        lemma_fold_without_blanks(front);
        assert(text.last() == text[text.len() - 1]);
    }
}

/// Law: words are joined with one blank between any two of them.
pub proof fn law_joined(a: Seq<Seq<char>>, word: Seq<char>, b: Seq<Seq<char>>)
    ensures
        joined(Seq::empty()).len() == 0,
        joined(seq![word]) == word,
        a.len() > 0 && b.len() > 0 ==> joined(a + b) == joined(a) + seq![' '] + joined(b),
    decreases b.len(),
{
    reveal_strlit(" ");
    assert(" "@ =~= seq![' ']);
    if a.len() > 0 && b.len() > 0 {
        assert((a + b).drop_last() =~= a + b.drop_last());
        assert((a + b).last() == b.last());
        if b.len() == 1 {
            assert(a + b.drop_last() =~= a);
            assert(joined(b) == b[0]);
        } else {
            law_joined(a, word, b.drop_last());
            assert(joined(a) + seq![' '] + joined(b.drop_last()) + seq![' '] + b.last() =~= joined(a)
                + seq![' '] + (joined(b.drop_last()) + seq![' '] + b.last()));
        }
    }
}

/// Law: a description is cut before the first blank that an opening parenthesis
/// follows, and white space before that is taken off too.
pub proof fn law_aside_is_dropped(comment: Seq<char>, at: int)
    requires
        0 <= at < comment.len() - 1,
        comment[at] == ' ',
        comment[at + 1] == '(',
        forall|k: int| 0 <= k < at ==> !(#[trigger] comment[k] == ' ' && comment[k + 1] == '('),
    ensures
        short_comment(comment) == trimmed_end(comment.subrange(0, at)),
{
    reveal_strlit(" (");
    lemma_find_from(comment, " ("@, 0);
    lemma_aside(comment);
    assert(comment.subrange(0, at) =~= comment.take(at));
    let found = find_from(comment, " ("@, 0)->0 as int;
    assert(comment[found] == ' ');
}

/// Law: a description in which no opening parenthesis follows a blank is kept as
/// it is.
pub proof fn law_no_aside(comment: Seq<char>)
    requires
        forall|k: int|
            0 <= k < comment.len() - 1 ==> !(#[trigger] comment[k] == ' ' && comment[k + 1] == '('),
    ensures
        short_comment(comment) == comment,
{
    reveal_strlit(" (");
    lemma_find_from(comment, " ("@, 0);
    lemma_aside(comment);
    if let Some(at) = find_from(comment, " ("@, 0) {
        assert(comment[at as int] == ' ');
    }
}

proof fn lemma_aside(comment: Seq<char>)
    ensures
        forall|k: int|
            #![trigger occurs_at(comment, " ("@, k)]
            #![trigger comment[k]]
            0 <= k ==> (occurs_at(comment, " ("@, k) <==> k < comment.len() - 1 && comment[k] == ' '
                && comment[k + 1] == '('),
{
    reveal_strlit(" (");
    assert forall|k: int|
        #![trigger occurs_at(comment, " ("@, k)]
        #![trigger comment[k]]
        0 <= k implies (occurs_at(comment, " ("@, k) <==> k < comment.len() - 1 && comment[k] == ' '
        && comment[k + 1] == '(') by {
        if k < comment.len() - 1 {
            let part = comment.subrange(k, k + 2);
            assert(part[0] == comment[k] && part[1] == comment[k + 1]);
            if comment[k] == ' ' && comment[k + 1] == '(' {
                assert(part =~= " ("@);
            }
        }
    }
}

/// Law: the comment of a counter is the description of the first event of its
/// name, and nothing where no event has the name.
pub proof fn law_description(events: Seq<EventModel>, name: Seq<char>, at: int)
    requires
        0 <= at <= events.len(),
        forall|k: int| 0 <= k < at ==> (#[trigger] events[k]).name != name,
        at < events.len() ==> events[at].name == name,
    ensures
        at < events.len() ==> description_of(events, name) == events[at].description,
        at == events.len() ==> description_of(events, name).len() == 0,
{
    reveal_strlit("");
    lemma_event_named(events, name, at);
}

/// Law: the longest name is as long as one of the names, those of the two
/// counters that are always there among them, and none is longer, counted in
/// bytes.
pub proof fn law_longest_name(names: Seq<Seq<char>>)
    ensures
        ({
            let all = names.push("cycles"@).push("instructions"@);
            &&& exists|k: int|
                0 <= k < all.len() && longest_name(names) == encode_utf8(#[trigger] all[k]).len()
            &&& forall|k: int|
                0 <= k < all.len() ==> encode_utf8(#[trigger] all[k]).len() <= longest_name(names)
        }),
    decreases names.len(),
{
    let all = names.push("cycles"@).push("instructions"@);
    assert(all[names.len() as int] == "cycles"@);
    assert(all[names.len() as int + 1] == "instructions"@);
    if names.len() > 0 {
        let front = names.drop_last();
        let some = front.push("cycles"@).push("instructions"@);
        law_longest_name(front);
        let last = names.len() - 1;
        assert(all[last] == names.last());
        let k = choose|k: int|
            0 <= k < some.len() && longest_name(front) == encode_utf8(#[trigger] some[k]).len();
        if k < last {
            assert(all[k] == some[k]);
        } else {
            assert(all[k + 1] == some[k]);
        }
        assert forall|k: int| 0 <= k < all.len() implies encode_utf8(#[trigger] all[k]).len()
            <= longest_name(names) by {
            if k < last {
                assert(all[k] == some[k]);
            } else if k > last {
                assert(all[k] == some[k - 1]);
            }
        }
    }
}

/// Law: the names of counters are their names, in their order.
pub proof fn law_counter_names(counters: Seq<(String, u64)>, i: int)
    requires
        0 <= i < counters.len(),
    ensures
        counter_names(counters).len() == counters.len(),
        counter_names(counters)[i] == counters[i].0@,
{
}

/// Law: a text is a number with a fraction exactly where each of its characters
/// is a decimal digit or a dot.
pub proof fn law_decimal_fraction(text: Seq<char>)
    ensures
        is_decimal(text) <==> forall|i: int|
            0 <= i < text.len() ==> #[trigger] text[i] == '.' || text[i] == '0' || text[i] == '1'
                || text[i] == '2' || text[i] == '3' || text[i] == '4' || text[i] == '5' || text[i]
                == '6' || text[i] == '7' || text[i] == '8' || text[i] == '9',
{
}

proof fn lemma_ratio(ipc: Seq<char>)
    requires
        is_decimal(ipc),
    ensures
        short_comment(ipc + " insn per cycle"@) == ipc + " insn per cycle"@,
{
    reveal_strlit(" insn per cycle");
    let comment = ipc + " insn per cycle"@;
    assert forall|k: int| 0 <= k < comment.len() - 1 implies !(#[trigger] comment[k] == ' '
        && comment[k + 1] == '(') by {
        if k + 1 < ipc.len() {
            assert(comment[k + 1] == ipc[k + 1]);
        } else {
            assert(comment[k + 1] == " insn per cycle"@[k + 1 - ipc.len()]);
        }
    }
    law_no_aside(comment);
}

/// Law: the line of a counter shows its value, twenty characters wide, and its
/// name. Where it has a comment, this follows shortened, behind blanks up to
/// the column of the comments and a number sign.
pub proof fn law_counter_line(
    style: Style,
    value: Seq<char>,
    name: Seq<char>,
    comment: Seq<char>,
    column: nat,
)
    requires
        26 + encode_utf8(name).len() <= column,
    ensures
        comment.len() == 0 ==> counter_line(style, value, name, comment, column) == "  "@
            + style.blue@ + right_aligned(value, 20) + style.reset@ + "  "@ + style.bold@ + name
            + style.reset@ + "\n"@,
        comment.len() > 0 ==> counter_line(style, value, name, comment, column) == "  "@
            + style.blue@ + right_aligned(value, 20) + style.reset@ + "  "@ + style.bold@ + name
            + style.reset@ + blanks((column - 24 - encode_utf8(name).len()) as nat) + style.dim@
            + "# "@ + short_comment(comment) + style.reset@ + "\n"@,
{
}

/// Law: a report is a title, the line of the cycles, the line of the
/// instructions, an empty line, a line for each configured counter in their
/// order, and a footer.
///
/// The title has the command with blanks between its words. The line of the
/// cycles shows all of the measured cycles, that of the instructions all of the
/// instructions and the ratio, and the line of a counter its value, its name and
/// what its event is described as. The footer has the time and, where the
/// command failed, its exit status.
#[verifier::rlimit(40)]
pub proof fn law_report(report: Report, events: Seq<EventModel>, style: Style) -> (parts: (
    Seq<char>,
    Seq<Seq<char>>,
    Seq<char>,
))
    requires
        is_decimal(report.ipc@),
    ensures
        report_text(report, events, style) == parts.0 + parts.1[0] + parts.1[1] + "\n"@
            + parts.1.skip(2).fold_left(
            Seq::<char>::empty(),
            |text: Seq<char>, line: Seq<char>| text + line,
        ) + parts.2,
        parts.0 == "\n "@ + style.bold@ + "Performance counter stats for '"@ + joined(
            texts(report.command@),
        ) + "':"@ + style.reset@ + "\n\n"@,
        parts.1.len() == 2 + report.counters@.len(),
        parts.1[0] == "  "@ + style.blue@ + right_aligned(comma_grouped(report.cycles as nat), 20)
            + style.reset@ + "  "@ + style.bold@ + "cycles"@ + style.reset@ + "\n"@,
        parts.1[1] == "  "@ + style.blue@ + right_aligned(
            comma_grouped(report.instructions as nat),
            20,
        ) + style.reset@ + "  "@ + style.bold@ + "instructions"@ + style.reset@ + blanks(
            (2 + longest_name(counter_names(report.counters@)) - encode_utf8(
                "instructions"@,
            ).len()) as nat,
        ) + style.dim@ + "# "@ + (report.ipc@ + " insn per cycle"@) + style.reset@ + "\n"@,
        forall|k: int|
            0 <= k < report.counters@.len() ==> {
                let (name, value) = #[trigger] report.counters@[k];
                let description = description_of(events, name@);
                let label = "  "@ + style.blue@ + right_aligned(comma_grouped(value as nat), 20)
                    + style.reset@ + "  "@ + style.bold@ + name@ + style.reset@;
                parts.1[k + 2] == if description.len() == 0 {
                    label + "\n"@
                } else {
                    label + blanks(
                        (2 + longest_name(counter_names(report.counters@)) - encode_utf8(
                            name@,
                        ).len()) as nat,
                    ) + style.dim@ + "# "@ + short_comment(description) + style.reset@ + "\n"@
                }
            },
        report.success ==> parts.2 == "\n  "@ + style.dim@ + right_aligned(report.seconds@, 16)
            + " seconds wall clock"@ + style.reset@ + "\n"@ + "\n"@,
        !report.success ==> parts.2 == "\n  "@ + style.dim@ + right_aligned(report.seconds@, 16)
            + " seconds wall clock"@ + style.reset@ + "\n"@ + "  "@ + style.red@ + "(exit status "@
            + (match report.exit_code {
            Some(code) => "Some("@ + signed_decimal(code as int) + ")"@,
            None => "None"@,
        }) + ")"@ + style.reset@ + "\n"@ + "\n"@,
{
    reveal_strlit("");
    reveal_strlit(" insn per cycle");
    let names = counter_names(report.counters@);
    let column = 26 + longest_name(names);
    law_longest_name(names);
    let all = names.push("cycles"@).push("instructions"@);
    assert(all[names.len() as int] == "cycles"@);
    assert(all[names.len() as int + 1] == "instructions"@);
    lemma_ratio(report.ipc@);
    let cycles = counter_line(style, comma_grouped(report.cycles as nat), "cycles"@, ""@, column);
    let instructions = counter_line(
        style,
        comma_grouped(report.instructions as nat),
        "instructions"@,
        report.ipc@ + " insn per cycle"@,
        column,
    );
    let counted = Seq::new(
        report.counters@.len(),
        |k: int|
            counter_line(
                style,
                comma_grouped(report.counters@[k].1 as nat),
                report.counters@[k].0@,
                description_of(events, report.counters@[k].0@),
                column,
            ),
    );
    lemma_lines_fold(style, report.counters@, events, column, counted);
    let lines = seq![cycles, instructions] + counted;
    assert(lines.skip(2) =~= counted);
    assert forall|k: int| 0 <= k < report.counters@.len() implies encode_utf8(
        (#[trigger] report.counters@[k]).0@,
    ).len() <= longest_name(names) by {
        assert(all[k] == report.counters@[k].0@);
    }
    (
        title(style, texts(report.command@)),
        lines,
        footer(style, report.seconds@, report.success, report.exit_code),
    )
}

proof fn lemma_lines_fold(
    style: Style,
    counters: Seq<(String, u64)>,
    events: Seq<EventModel>,
    column: nat,
    lines: Seq<Seq<char>>,
)
    requires
        lines.len() == counters.len(),
        forall|k: int|
            0 <= k < counters.len() ==> #[trigger] lines[k] == counter_line(
                style,
                comma_grouped(counters[k].1 as nat),
                counters[k].0@,
                description_of(events, counters[k].0@),
                column,
            ),
    ensures
        counter_lines(style, counters, events, column) == lines.fold_left(
            Seq::<char>::empty(),
            |text: Seq<char>, line: Seq<char>| text + line,
        ),
    decreases counters.len(),
{
    if counters.len() > 0 {
        let (front, fewer) = (counters.drop_last(), lines.drop_last());
        assert forall|k: int| 0 <= k < front.len() implies #[trigger] fewer[k] == counter_line(
            style,
            comma_grouped(front[k].1 as nat),
            front[k].0@,
            description_of(events, front[k].0@),
            column,
        ) by {
            assert(fewer[k] == lines[k]);
        }
        lemma_lines_fold(style, front, events, column, fewer);
        assert(lines.last() == lines[counters.len() - 1]);
    }
}

/// What stands in a line behind the name, the code that ends it included.
spec fn line_end(style: Style, name: Seq<char>, comment: Seq<char>, column: nat) -> Seq<char> {
    if comment.len() == 0 {
        "\n"@
    } else {
        blanks((column - 24 - encode_utf8(name).len()) as nat) + style.dim@ + "# "@ + short_comment(
            comment,
        ) + style.reset@ + "\n"@
    }
}

proof fn lemma_regrouped(a: Seq<char>, b: Seq<char>, c: Seq<char>, d: Seq<char>, e: Seq<char>)
    ensures
        a + (b + c + d) + e == a + b + c + (d + e),
        a + b + c + d + e == a + (b + c + d + e),
        a + b + c + d + e == a + b + (c + d + e),
{
    assert(a + (b + c + d) + e =~= a + b + c + (d + e));
    assert(a + b + c + d + e =~= a + (b + c + d + e));
    assert(a + b + c + d + e =~= a + b + (c + d + e));
}

proof fn lemma_line_splits(
    front: Seq<char>,
    style: Style,
    value: Seq<char>,
    name: Seq<char>,
    comment: Seq<char>,
    column: nat,
    back: Seq<char>,
)
    requires
        26 + encode_utf8(name).len() <= column,
    ensures
        front + counter_line(style, value, name, comment, column) + back == front + ("  "@
            + style.blue@) + right_aligned(value, 20) + (style.reset@ + "  "@ + style.bold@ + name
            + style.reset@) + (line_end(style, name, comment, column) + back),
{
    law_counter_line(style, value, name, comment, column);
    let shown = right_aligned(value, 20);
    let start = "  "@ + style.blue@;
    let named = style.reset@ + "  "@ + style.bold@ + name + style.reset@;
    let end = line_end(style, name, comment, column);
    lemma_label(start, shown, style, name);
    if comment.len() > 0 {
        lemma_comment_end(start + shown + named, style, name, comment, column);
    }
    assert(counter_line(style, value, name, comment, column) == start + shown + named + end);
    lemma_around(front, start, shown, named, end, back);
}

proof fn lemma_label(start: Seq<char>, shown: Seq<char>, style: Style, name: Seq<char>)
    ensures
        start + shown + style.reset@ + "  "@ + style.bold@ + name + style.reset@ == start + shown + (
        style.reset@ + "  "@ + style.bold@ + name + style.reset@),
{
    assert(start + shown + style.reset@ + "  "@ + style.bold@ + name + style.reset@ =~= start
        + shown + (style.reset@ + "  "@ + style.bold@ + name + style.reset@));
}

proof fn lemma_comment_end(
    label: Seq<char>,
    style: Style,
    name: Seq<char>,
    comment: Seq<char>,
    column: nat,
)
    requires
        comment.len() > 0,
    ensures
        label + blanks((column - 24 - encode_utf8(name).len()) as nat) + style.dim@ + "# "@
            + short_comment(comment) + style.reset@ + "\n"@ == label + line_end(
            style,
            name,
            comment,
            column,
        ),
{
    assert(label + blanks((column - 24 - encode_utf8(name).len()) as nat) + style.dim@ + "# "@
        + short_comment(comment) + style.reset@ + "\n"@ =~= label + line_end(
        style,
        name,
        comment,
        column,
    ));
}

proof fn lemma_around(
    front: Seq<char>,
    start: Seq<char>,
    shown: Seq<char>,
    named: Seq<char>,
    end: Seq<char>,
    back: Seq<char>,
)
    ensures
        front + (start + shown + named + end) + back == front + start + shown + named + (end
            + back),
{
    assert(front + (start + shown + named + end) + back =~= front + start + shown + named + (end
        + back));
}

/// Law: a report shows the measured cycles in the line called `cycles`: what
/// stands there before the name is, without blanks and commas, the number of
/// the cycles in base ten, for every number of 64 bits.
pub proof fn law_cycles_are_shown(report: Report, events: Seq<EventModel>, style: Style) -> (parts: (
    Seq<char>,
    Seq<char>,
    Seq<char>,
))
    ensures
        report_text(report, events, style) == parts.0 + ("  "@ + style.blue@) + parts.1 + (
        style.reset@ + "  "@ + style.bold@ + "cycles"@ + style.reset@) + parts.2,
        parts.1.fold_left(
            0int,
            |v: int, c: char|
                if c == ' ' || c == ',' {
                    v
                } else {
                    10 * v + (c as int - '0' as int)
                },
        ) == report.cycles,
        forall|i: int|
            0 <= i < parts.1.len() ==> #[trigger] parts.1[i] == ' ' || parts.1[i] == ',' || '0'
                <= parts.1[i] <= '9',
{
    let (front, back) = lemma_around_cycles(report, events, style);
    law_shown_value(report.cycles as nat);
    (front, right_aligned(comma_grouped(report.cycles as nat), 20), back)
}

/// The report around its cycles, which do not depend on them.
#[verifier::rlimit(40)]
proof fn lemma_around_cycles(report: Report, events: Seq<EventModel>, style: Style) -> (around: (
    Seq<char>,
    Seq<char>,
))
    ensures
        report_text(report, events, style) == around.0 + ("  "@ + style.blue@) + right_aligned(
            comma_grouped(report.cycles as nat),
            20,
        ) + (style.reset@ + "  "@ + style.bold@ + "cycles"@ + style.reset@) + around.1,
        around.0 == title(style, texts(report.command@)),
        around.1 == "\n"@ + behind_cycles(report, events, style),
{
    reveal_strlit("");
    let column = 26 + longest_name(counter_names(report.counters@));
    law_comments_line_up(report.counters@, "cycles"@);
    lemma_longest(report.counters@);
    let front = title(style, texts(report.command@));
    let line = counter_line(style, comma_grouped(report.cycles as nat), "cycles"@, ""@, column);
    let back = behind_cycles(report, events, style);
    let second = counter_line(
        style,
        comma_grouped(report.instructions as nat),
        "instructions"@,
        report.ipc@ + " insn per cycle"@,
        column,
    );
    let lines = counter_lines(style, report.counters@, events, column);
    let below = footer(style, report.seconds@, report.success, report.exit_code);
    lemma_regrouped(front + line, second, "\n"@, lines, below);
    assert(report_text(report, events, style) == front + line + back);
    lemma_line_splits(
        front,
        style,
        comma_grouped(report.cycles as nat),
        "cycles"@,
        ""@,
        column,
        back,
    );
    (front, "\n"@ + back)
}

/// What stands in a report behind the line of the cycles.
spec fn behind_cycles(report: Report, events: Seq<EventModel>, style: Style) -> Seq<char> {
    let column = 26 + longest_name(counter_names(report.counters@));
    counter_line(
        style,
        comma_grouped(report.instructions as nat),
        "instructions"@,
        report.ipc@ + " insn per cycle"@,
        column,
    ) + "\n"@ + counter_lines(style, report.counters@, events, column) + footer(
        style,
        report.seconds@,
        report.success,
        report.exit_code,
    )
}

proof fn lemma_longest(counters: Seq<(String, u64)>)
    ensures
        encode_utf8("cycles"@).len() <= longest_name(counter_names(counters)),
        encode_utf8("instructions"@).len() <= longest_name(counter_names(counters)),
        forall|k: int|
            0 <= k < counters.len() ==> encode_utf8((#[trigger] counters[k]).0@).len()
                <= longest_name(counter_names(counters)),
{
    let names = counter_names(counters);
    let all = names.push("cycles"@).push("instructions"@);
    law_longest_name(names);
    assert(all[names.len() as int] == "cycles"@);
    assert(all[names.len() as int + 1] == "instructions"@);
    assert forall|k: int| 0 <= k < counters.len() implies encode_utf8(
        (#[trigger] counters[k]).0@,
    ).len() <= longest_name(names) by {
        assert(all[k] == counters[k].0@);
    }
}

/// Law: a report shows the measured instructions in the line called
/// `instructions`: what stands there before the name is, without blanks and
/// commas, their number in base ten, for every number of 64 bits.
#[verifier::rlimit(40)]
pub proof fn law_instructions_are_shown(
    report: Report,
    events: Seq<EventModel>,
    style: Style,
) -> (parts: (Seq<char>, Seq<char>, Seq<char>))
    ensures
        report_text(report, events, style) == parts.0 + ("  "@ + style.blue@) + parts.1 + (
        style.reset@ + "  "@ + style.bold@ + "instructions"@ + style.reset@) + parts.2,
        parts.1.fold_left(
            0int,
            |v: int, c: char|
                if c == ' ' || c == ',' {
                    v
                } else {
                    10 * v + (c as int - '0' as int)
                },
        ) == report.instructions,
        forall|i: int|
            0 <= i < parts.1.len() ==> #[trigger] parts.1[i] == ' ' || parts.1[i] == ',' || '0'
                <= parts.1[i] <= '9',
{
    let column = 26 + longest_name(counter_names(report.counters@));
    lemma_longest(report.counters@);
    let front = title(style, texts(report.command@)) + counter_line(
        style,
        comma_grouped(report.cycles as nat),
        "cycles"@,
        ""@,
        column,
    );
    let comment = report.ipc@ + " insn per cycle"@;
    let back = "\n"@ + counter_lines(style, report.counters@, events, column) + footer(
        style,
        report.seconds@,
        report.success,
        report.exit_code,
    );
    let value = comma_grouped(report.instructions as nat);
    let line = counter_line(style, value, "instructions"@, comment, column);
    lemma_regrouped(
        front,
        line,
        "\n"@,
        counter_lines(style, report.counters@, events, column),
        footer(style, report.seconds@, report.success, report.exit_code),
    );
    assert(report_text(report, events, style) == front + line + back);
    lemma_line_splits(front, style, value, "instructions"@, comment, column, back);
    law_shown_value(report.instructions as nat);
    (
        front,
        right_aligned(value, 20),
        line_end(style, "instructions"@, comment, column) + back,
    )
}

proof fn lemma_lines_join(
    style: Style,
    a: Seq<(String, u64)>,
    b: Seq<(String, u64)>,
    events: Seq<EventModel>,
    column: nat,
)
    ensures
        counter_lines(style, a + b, events, column) == counter_lines(style, a, events, column)
            + counter_lines(style, b, events, column),
    decreases b.len(),
{
    if b.len() == 0 {
        assert(a + b =~= a);
        assert(counter_lines(style, a, events, column) + counter_lines(style, b, events, column)
            =~= counter_lines(style, a, events, column));
    } else {
        lemma_lines_join(style, a, b.drop_last(), events, column);
        assert((a + b).drop_last() =~= a + b.drop_last());
        assert((a + b).last() == b.last());
        assert(counter_lines(style, a + b, events, column) =~= counter_lines(
            style,
            a,
            events,
            column,
        ) + counter_lines(style, b, events, column));
    }
}

/// Law: a report shows each configured counter in a line that has its name: what
/// stands there before the name is, without blanks and commas, the value of
/// that very counter in base ten, for every number of 64 bits.
#[verifier::rlimit(40)]
pub proof fn law_counters_are_shown(
    report: Report,
    events: Seq<EventModel>,
    style: Style,
    k: int,
) -> (parts: (Seq<char>, Seq<char>, Seq<char>))
    requires
        0 <= k < report.counters@.len(),
    ensures
        report_text(report, events, style) == parts.0 + ("  "@ + style.blue@) + parts.1 + (
        style.reset@ + "  "@ + style.bold@ + report.counters@[k].0@ + style.reset@) + parts.2,
        parts.1.fold_left(
            0int,
            |v: int, c: char|
                if c == ' ' || c == ',' {
                    v
                } else {
                    10 * v + (c as int - '0' as int)
                },
        ) == report.counters@[k].1,
        forall|i: int|
            0 <= i < parts.1.len() ==> #[trigger] parts.1[i] == ' ' || parts.1[i] == ',' || '0'
                <= parts.1[i] <= '9',
{
    let counters = report.counters@;
    let column = 26 + longest_name(counter_names(counters));
    lemma_longest(counters);
    let (name, number) = counters[k];
    let (before, after) = (counters.take(k), counters.skip(k + 1));
    let one = seq![counters[k]];
    assert(counters =~= before + one + after);
    lemma_lines_join(style, before + one, after, events, column);
    assert((before + one).drop_last() =~= before);
    assert((before + one).last() == counters[k]);
    let value = comma_grouped(number as nat);
    let comment = description_of(events, name@);
    let line = counter_line(style, value, name@, comment, column);
    let above = title(style, texts(report.command@)) + counter_line(
        style,
        comma_grouped(report.cycles as nat),
        "cycles"@,
        ""@,
        column,
    ) + counter_line(
        style,
        comma_grouped(report.instructions as nat),
        "instructions"@,
        report.ipc@ + " insn per cycle"@,
        column,
    ) + "\n"@;
    let below = footer(style, report.seconds@, report.success, report.exit_code);
    let front = above + counter_lines(style, before, events, column);
    let back = counter_lines(style, after, events, column) + below;
    lemma_regrouped(
        above,
        counter_lines(style, before, events, column),
        line,
        counter_lines(style, after, events, column),
        below,
    );
    assert(report_text(report, events, style) == front + line + back);
    lemma_line_splits(front, style, value, name@, comment, column, back);
    law_shown_value(number as nat);
    (front, right_aligned(value, 20), line_end(style, name@, comment, column) + back)
}

/// Law: two reports that differ in their cycles, and in nothing else, are shown
/// as different texts.
#[verifier::rlimit(40)]
pub proof fn law_cycles_tell_reports_apart(
    a: Report,
    b: Report,
    events: Seq<EventModel>,
    style: Style,
)
    requires
        a.cycles != b.cycles,
        a.instructions == b.instructions,
        a.command == b.command,
        a.ipc == b.ipc,
        a.counters == b.counters,
        a.seconds == b.seconds,
        a.success == b.success,
        a.exit_code == b.exit_code,
    ensures
        report_text(a, events, style) != report_text(b, events, style),
{
    lemma_around_cycles(a, events, style);
    lemma_around_cycles(b, events, style);
    law_shown_value(a.cycles as nat);
    law_shown_value(b.cycles as nat);
    let front = title(style, texts(a.command@)) + ("  "@ + style.blue@);
    let (x, y) = (
        right_aligned(comma_grouped(a.cycles as nat), 20),
        right_aligned(comma_grouped(b.cycles as nat), 20),
    );
    let name = style.reset@ + "  "@ + style.bold@ + "cycles"@ + style.reset@;
    let back = "\n"@ + behind_cycles(a, events, style);
    if report_text(a, events, style) == report_text(b, events, style) {
        assert(front + x + name + back == front + y + name + back);
        assert((front + x + name + back).len() == (front + y + name + back).len());
        assert(x.len() == y.len());
        let from = front.len() as int;
        assert(x =~= (front + x + name + back).subrange(from, from + x.len()));
        assert(y =~= (front + y + name + back).subrange(from, from + y.len()));
        assert(x == y);
    }
}

} // verus!

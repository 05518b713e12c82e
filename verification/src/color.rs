//! What color adds to a report.

use vstd::prelude::*;

use crate::kpep::EventModel;
use crate::report::{
    comment_gap, counter_line, counter_lines, counter_names, description_of, exit_code_text, footer,
    is_valid_report, joined, label_width, longest_name, report_text, short_comment, title, Report,
};
use crate::stat::{comma_grouped, is_style, texts, three_digits, Style};
use crate::text::{
    blanks, decimal, find_from, lemma_find_from, right_aligned, signed_decimal, trimmed_end,
};

verus! {

/// How long the style code is that `text` begins with; zero where it begins
/// with none.
pub open spec fn code_length(text: Seq<char>) -> nat {
    if text.len() >= 4 && text[0] == '\x1b' && text[1] == '[' && (text[2] == '0' || text[2] == '1'
        || text[2] == '2') && text[3] == 'm' {
        4
    } else if text.len() >= 5 && text[0] == '\x1b' && text[1] == '[' && text[2] == '3' && (text[3]
        == '1' || text[3] == '4') && text[4] == 'm' {
        5
    } else {
        0
    }
}

/// `text` without its style codes.
pub open spec fn without_codes(text: Seq<char>) -> Seq<char>
    decreases text.len(),
{
    if text.len() == 0 {
        text
    } else if code_length(text) > 0 {
        without_codes(text.skip(code_length(text) as int))
    } else {
        seq![text[0]] + without_codes(text.drop_first())
    }
}

/// Whether `text` has no escape character in it.
pub open spec fn is_clean(text: Seq<char>) -> bool {
    forall|i: int| 0 <= i < text.len() ==> #[trigger] text[i] != '\x1b'
}

/// Whether `colored` is `plain` with style codes, whatever follows.
spec fn decorates(colored: Seq<char>, plain: Seq<char>) -> bool {
    &&& is_clean(plain)
    &&& forall|rest: Seq<char>| #[trigger]
        without_codes(colored + rest) == plain + without_codes(rest)
}

proof fn lemma_clean(text: Seq<char>)
    requires
        is_clean(text),
    ensures
        decorates(text, text),
    decreases text.len(),
{
    if text.len() == 0 {
        assert forall|rest: Seq<char>| #[trigger] without_codes(text + rest) == text
            + without_codes(rest) by {
            assert(text + rest =~= rest);
            assert(text + without_codes(rest) =~= without_codes(rest));
        }
    } else {
        let tail = text.drop_first();
        assert forall|i: int| 0 <= i < tail.len() implies #[trigger] tail[i] != '\x1b' by {
            assert(tail[i] == text[i + 1]);
        }
        lemma_clean(tail);
        assert forall|rest: Seq<char>| #[trigger] without_codes(text + rest) == text
            + without_codes(rest) by {
            assert((text + rest)[0] == text[0]);
            assert((text + rest).drop_first() =~= tail + rest);
            assert(without_codes(tail + rest) == tail + without_codes(rest));
            assert(seq![text[0]] + (tail + without_codes(rest)) =~= text + without_codes(rest));
        }
    }
}

proof fn lemma_code(code: Seq<char>)
    requires
        code_length(code) == code.len() > 0,
    ensures
        decorates(code, Seq::empty()),
{
    assert forall|rest: Seq<char>| #[trigger] without_codes(code + rest) == Seq::<char>::empty()
        + without_codes(rest) by {
        assert(code_length(code + rest) == code.len());
        assert((code + rest).skip(code.len() as int) =~= rest);
        assert(Seq::<char>::empty() + without_codes(rest) =~= without_codes(rest));
    }
}

proof fn lemma_join(a: Seq<char>, plain_a: Seq<char>, b: Seq<char>, plain_b: Seq<char>)
    requires
        decorates(a, plain_a),
        decorates(b, plain_b),
    ensures
        decorates(a + b, plain_a + plain_b),
{
    assert forall|rest: Seq<char>| #[trigger] without_codes(a + b + rest) == plain_a + plain_b
        + without_codes(rest) by {
        assert(a + b + rest =~= a + (b + rest));
        assert(without_codes(a + (b + rest)) == plain_a + without_codes(b + rest));
        assert(plain_a + (plain_b + without_codes(rest)) =~= plain_a + plain_b + without_codes(rest));
    }
}

/// What a decorated text is without its codes.
proof fn lemma_undecorated(colored: Seq<char>, plain: Seq<char>)
    requires
        decorates(colored, plain),
    ensures
        without_codes(colored) == plain,
{
    let none = Seq::<char>::empty();
    assert(without_codes(colored + none) == plain + without_codes(none));
    assert(colored + none =~= colored);
    assert(plain + without_codes(none) =~= plain);
}

/// Whether two styles are the colored and the plain one.
pub open spec fn is_style_pair(colored: Style, plain: Style) -> bool {
    &&& is_style(colored, "\x1b[2m"@, "\x1b[34m"@, "\x1b[1m"@, "\x1b[31m"@, "\x1b[0m"@)
    &&& is_style(plain, ""@, ""@, ""@, ""@, ""@)
}

proof fn lemma_style_pair(colored: Style, plain: Style)
    requires
        is_style_pair(colored, plain),
    ensures
        decorates(colored.dim@, plain.dim@),
        decorates(colored.blue@, plain.blue@),
        decorates(colored.bold@, plain.bold@),
        decorates(colored.red@, plain.red@),
        decorates(colored.reset@, plain.reset@),
{
    reveal_strlit("\x1b[2m");
    reveal_strlit("\x1b[34m");
    reveal_strlit("\x1b[1m");
    reveal_strlit("\x1b[31m");
    reveal_strlit("\x1b[0m");
    reveal_strlit("");
    lemma_code("\x1b[2m"@);
    lemma_code("\x1b[34m"@);
    lemma_code("\x1b[1m"@);
    lemma_code("\x1b[31m"@);
    lemma_code("\x1b[0m"@);
    assert(""@ =~= Seq::<char>::empty());
}

proof fn lemma_clean_decimal(n: nat)
    ensures
        is_clean(decimal(n)),
    decreases n,
{
    if n >= 10 {
        lemma_clean_decimal(n / 10);
    }
}

proof fn lemma_clean_grouped(n: nat)
    ensures
        is_clean(comma_grouped(n)),
    decreases n,
{
    if n < 1000 {
        lemma_clean_decimal(n);
    } else {
        reveal_strlit(",");
        lemma_clean_grouped(n / 1000);
        assert(is_clean(three_digits(n % 1000)));
    }
}

proof fn lemma_clean_joined(words: Seq<Seq<char>>)
    requires
        forall|k: int| 0 <= k < words.len() ==> is_clean(#[trigger] words[k]),
    ensures
        is_clean(joined(words)),
    decreases words.len(),
{
    if words.len() > 1 {
        let front = words.drop_last();
        assert forall|k: int| 0 <= k < front.len() implies is_clean(#[trigger] front[k]) by {
            assert(front[k] == words[k]);
        }
        lemma_clean_joined(front);
        assert(is_clean(words[words.len() - 1]));
        reveal_strlit(" ");
    } else if words.len() == 1 {
        assert(is_clean(words[0]));
    }
}

proof fn lemma_clean_trimmed(text: Seq<char>)
    requires
        is_clean(text),
    ensures
        is_clean(trimmed_end(text)),
    decreases text.len(),
{
    if text.len() > 0 {
        assert(is_clean(text.drop_last()));
        lemma_clean_trimmed(text.drop_last());
    }
}

proof fn lemma_clean_comment(comment: Seq<char>)
    requires
        is_clean(comment),
    ensures
        is_clean(short_comment(comment)),
{
    lemma_find_from(comment, " ("@, 0);
    if let Some(at) = find_from(comment, " ("@, 0) {
        assert(is_clean(comment.take(at as int)));
        lemma_clean_trimmed(comment.take(at as int));
    }
}

proof fn lemma_line_decorates(
    colored: Style,
    plain: Style,
    value: Seq<char>,
    name: Seq<char>,
    comment: Seq<char>,
    column: nat,
)
    requires
        is_style_pair(colored, plain),
        is_clean(value),
        is_clean(name),
        is_clean(comment),
    ensures
        decorates(
            counter_line(colored, value, name, comment, column),
            counter_line(plain, value, name, comment, column),
        ),
{
    lemma_style_pair(colored, plain);
    reveal_strlit("  ");
    reveal_strlit("\n");
    reveal_strlit("# ");
    lemma_clean("  "@);
    lemma_clean("\n"@);
    lemma_clean("# "@);
    lemma_clean(name);
    let aligned = right_aligned(value, 20);
    lemma_clean(aligned);
    let (a, p) = ("  "@ + colored.blue@, "  "@ + plain.blue@);
    lemma_join("  "@, "  "@, colored.blue@, plain.blue@);
    lemma_join(a, p, aligned, aligned);
    let (a, p) = (a + aligned, p + aligned);
    lemma_join(a, p, colored.reset@, plain.reset@);
    let (a, p) = (a + colored.reset@, p + plain.reset@);
    lemma_join(a, p, "  "@, "  "@);
    let (a, p) = (a + "  "@, p + "  "@);
    lemma_join(a, p, colored.bold@, plain.bold@);
    let (a, p) = (a + colored.bold@, p + plain.bold@);
    lemma_join(a, p, name, name);
    let (a, p) = (a + name, p + name);
    lemma_join(a, p, colored.reset@, plain.reset@);
    let (a, p) = (a + colored.reset@, p + plain.reset@);
    if comment.len() == 0 {
        lemma_join(a, p, "\n"@, "\n"@);
    } else {
        let gap = blanks(comment_gap(column, label_width(name)));
        let short = short_comment(comment);
        lemma_clean(gap);
        lemma_clean_comment(comment);
        lemma_clean(short);
        lemma_join(a, p, gap, gap);
        let (a, p) = (a + gap, p + gap);
        lemma_join(a, p, colored.dim@, plain.dim@);
        let (a, p) = (a + colored.dim@, p + plain.dim@);
        lemma_join(a, p, "# "@, "# "@);
        let (a, p) = (a + "# "@, p + "# "@);
        lemma_join(a, p, short, short);
        let (a, p) = (a + short, p + short);
        lemma_join(a, p, colored.reset@, plain.reset@);
        let (a, p) = (a + colored.reset@, p + plain.reset@);
        lemma_join(a, p, "\n"@, "\n"@);
    }
}

proof fn lemma_description_clean(events: Seq<EventModel>, name: Seq<char>)
    requires
        forall|k: int| 0 <= k < events.len() ==> is_clean((#[trigger] events[k]).description),
    ensures
        is_clean(description_of(events, name)),
    decreases events.len(),
{
    reveal_strlit("");
    if events.len() > 0 {
        assert(is_clean(events[0].description));
        let rest = events.drop_first();
        assert forall|k: int| 0 <= k < rest.len() implies is_clean(
            (#[trigger] rest[k]).description,
        ) by {
            assert(rest[k] == events[k + 1]);
        }
        lemma_description_clean(rest, name);
    }
}

proof fn lemma_lines_decorate(
    colored: Style,
    plain: Style,
    counters: Seq<(String, u64)>,
    events: Seq<EventModel>,
    column: nat,
)
    requires
        is_style_pair(colored, plain),
        forall|k: int| 0 <= k < counters.len() ==> is_clean((#[trigger] counters[k]).0@),
        forall|k: int| 0 <= k < events.len() ==> is_clean((#[trigger] events[k]).description),
    ensures
        decorates(
            counter_lines(colored, counters, events, column),
            counter_lines(plain, counters, events, column),
        ),
    decreases counters.len(),
{
    if counters.len() == 0 {
        lemma_clean(Seq::empty());
    } else {
        let front = counters.drop_last();
        let (name, value) = counters.last();
        assert forall|k: int| 0 <= k < front.len() implies is_clean((#[trigger] front[k]).0@) by {
            assert(front[k] == counters[k]);
        }
        lemma_lines_decorate(colored, plain, front, events, column);
        assert(is_clean(counters[counters.len() - 1].0@));
        lemma_clean_grouped(value as nat);
        lemma_description_clean(events, name@);
        let digits = comma_grouped(value as nat);
        let description = description_of(events, name@);
        lemma_line_decorates(colored, plain, digits, name@, description, column);
        lemma_join(
            counter_lines(colored, front, events, column),
            counter_lines(plain, front, events, column),
            counter_line(colored, digits, name@, description, column),
            counter_line(plain, digits, name@, description, column),
        );
    }
}

proof fn lemma_title_decorates(colored: Style, plain: Style, command: Seq<Seq<char>>)
    requires
        is_style_pair(colored, plain),
        forall|k: int| 0 <= k < command.len() ==> is_clean(#[trigger] command[k]),
    ensures
        decorates(title(colored, command), title(plain, command)),
{
    lemma_style_pair(colored, plain);
    reveal_strlit("\n ");
    reveal_strlit("Performance counter stats for '");
    reveal_strlit("':");
    reveal_strlit("\n\n");
    lemma_clean("\n "@);
    lemma_clean("Performance counter stats for '"@);
    lemma_clean("':"@);
    lemma_clean("\n\n"@);
    lemma_clean_joined(command);
    lemma_clean(joined(command));
    let (a, p) = ("\n "@ + colored.bold@, "\n "@ + plain.bold@);
    lemma_join("\n "@, "\n "@, colored.bold@, plain.bold@);
    let text = "Performance counter stats for '"@;
    lemma_join(a, p, text, text);
    let (a, p) = (a + text, p + text);
    lemma_join(a, p, joined(command), joined(command));
    let (a, p) = (a + joined(command), p + joined(command));
    lemma_join(a, p, "':"@, "':"@);
    let (a, p) = (a + "':"@, p + "':"@);
    lemma_join(a, p, colored.reset@, plain.reset@);
    let (a, p) = (a + colored.reset@, p + plain.reset@);
    lemma_join(a, p, "\n\n"@, "\n\n"@);
}

proof fn lemma_footer_decorates(
    colored: Style,
    plain: Style,
    seconds: Seq<char>,
    success: bool,
    exit_code: Option<i32>,
)
    requires
        is_style_pair(colored, plain),
        is_clean(seconds),
    ensures
        decorates(
            footer(colored, seconds, success, exit_code),
            footer(plain, seconds, success, exit_code),
        ),
{
    lemma_style_pair(colored, plain);
    reveal_strlit("\n  ");
    reveal_strlit(" seconds wall clock");
    reveal_strlit("\n");
    lemma_clean("\n  "@);
    lemma_clean(" seconds wall clock"@);
    lemma_clean("\n"@);
    let aligned = right_aligned(seconds, 16);
    lemma_clean(aligned);
    let (a, p) = ("\n  "@ + colored.dim@, "\n  "@ + plain.dim@);
    lemma_join("\n  "@, "\n  "@, colored.dim@, plain.dim@);
    lemma_join(a, p, aligned, aligned);
    let (a, p) = (a + aligned, p + aligned);
    lemma_join(a, p, " seconds wall clock"@, " seconds wall clock"@);
    let (a, p) = (a + " seconds wall clock"@, p + " seconds wall clock"@);
    lemma_join(a, p, colored.reset@, plain.reset@);
    let (a, p) = (a + colored.reset@, p + plain.reset@);
    lemma_join(a, p, "\n"@, "\n"@);
    let (a, p) = (a + "\n"@, p + "\n"@);
    if success {
        lemma_join(a, p, "\n"@, "\n"@);
    } else {
        reveal_strlit("  ");
        reveal_strlit("(exit status ");
        reveal_strlit(")");
        reveal_strlit("Some(");
        reveal_strlit("None");
        reveal_strlit("-");
        lemma_clean("  "@);
        lemma_clean("(exit status "@);
        lemma_clean(")"@);
        let code = exit_code_text(exit_code);
        if let Some(number) = exit_code {
            if number < 0 {
                lemma_clean_decimal((-(number as int)) as nat);
            } else {
                lemma_clean_decimal(number as nat);
            }
            assert(is_clean(signed_decimal(number as int)));
        }
        lemma_clean(code);
        lemma_join(a, p, "  "@, "  "@);
        let (a, p) = (a + "  "@, p + "  "@);
        lemma_join(a, p, colored.red@, plain.red@);
        let (a, p) = (a + colored.red@, p + plain.red@);
        lemma_join(a, p, "(exit status "@, "(exit status "@);
        let (a, p) = (a + "(exit status "@, p + "(exit status "@);
        lemma_join(a, p, code, code);
        let (a, p) = (a + code, p + code);
        lemma_join(a, p, ")"@, ")"@);
        let (a, p) = (a + ")"@, p + ")"@);
        lemma_join(a, p, colored.reset@, plain.reset@);
        let (a, p) = (a + colored.reset@, p + plain.reset@);
        lemma_join(a, p, "\n"@, "\n"@);
        let (a, p) = (a + "\n"@, p + "\n"@);
        lemma_join(a, p, "\n"@, "\n"@);
    }
}

/// Whether command, names and descriptions of a report have no escape character
/// in them.
pub open spec fn is_clean_report(report: Report, events: Seq<EventModel>) -> bool {
    &&& forall|k: int| 0 <= k < report.command@.len() ==> is_clean((#[trigger] report.command@[k])@)
    &&& forall|k: int|
        0 <= k < report.counters@.len() ==> is_clean((#[trigger] report.counters@[k]).0@)
    &&& forall|k: int| 0 <= k < events.len() ==> is_clean((#[trigger] events[k]).description)
}

/// Law: color is decoration alone. Where command, names and descriptions have no
/// escape character in them, the plain report has none either, and the colored
/// report without its style codes is the plain one.
pub proof fn law_color_is_decoration(
    report: Report,
    events: Seq<EventModel>,
    colored: Style,
    plain: Style,
)
    requires
        is_style_pair(colored, plain),
        is_valid_report(report),
        is_clean_report(report, events),
    ensures
        is_clean(report_text(report, events, plain)),
        without_codes(report_text(report, events, colored)) == report_text(report, events, plain),
{
    let command = texts(report.command@);
    let column = 26 + longest_name(counter_names(report.counters@));
    let (cycles, instructions) = (
        comma_grouped(report.cycles as nat),
        comma_grouped(report.instructions as nat),
    );
    let ratio = report.ipc@ + " insn per cycle"@;
    reveal_strlit("");
    reveal_strlit("cycles");
    reveal_strlit("instructions");
    reveal_strlit(" insn per cycle");
    reveal_strlit("\n");
    lemma_clean("\n"@);
    assert forall|k: int| 0 <= k < command.len() implies is_clean(#[trigger] command[k]) by {
        assert(is_clean(report.command@[k]@));
    }
    lemma_title_decorates(colored, plain, command);
    lemma_clean_grouped(report.cycles as nat);
    lemma_clean_grouped(report.instructions as nat);
    lemma_line_decorates(colored, plain, cycles, "cycles"@, ""@, column);
    lemma_line_decorates(colored, plain, instructions, "instructions"@, ratio, column);
    lemma_lines_decorate(colored, plain, report.counters@, events, column);
    lemma_footer_decorates(colored, plain, report.seconds@, report.success, report.exit_code);
    let (a, p) = (title(colored, command), title(plain, command));
    let (b, q) = (
        counter_line(colored, cycles, "cycles"@, ""@, column),
        counter_line(plain, cycles, "cycles"@, ""@, column),
    );
    lemma_join(a, p, b, q);
    let (a, p) = (a + b, p + q);
    let (b, q) = (
        counter_line(colored, instructions, "instructions"@, ratio, column),
        counter_line(plain, instructions, "instructions"@, ratio, column),
    );
    lemma_join(a, p, b, q);
    let (a, p) = (a + b, p + q);
    lemma_join(a, p, "\n"@, "\n"@);
    let (a, p) = (a + "\n"@, p + "\n"@);
    let (b, q) = (
        counter_lines(colored, report.counters@, events, column),
        counter_lines(plain, report.counters@, events, column),
    );
    lemma_join(a, p, b, q);
    let (a, p) = (a + b, p + q);
    let (b, q) = (
        footer(colored, report.seconds@, report.success, report.exit_code),
        footer(plain, report.seconds@, report.success, report.exit_code),
    );
    lemma_join(a, p, b, q);
    lemma_undecorated(a + b, p + q);
}

} // verus!

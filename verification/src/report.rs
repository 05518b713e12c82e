//! The report of a measurement.

use vstd::prelude::*;
use vstd::string::*;
use vstd::utf8::encode_utf8;

use crate::kpep::{borrowed_models, event_named, lemma_event_named, EventModel, KpepEvent};
use crate::stat::{comma_grouped, fmt_comma, texts, Style};
use crate::text::{
    blanks, characters, find, find_from, push_blanks, push_right_aligned, right_aligned, same_text,
    signed_decimal, signed_decimal_text, trim_end, trimmed_end,
};

verus! {

/// Whether a text is made of decimal digits and dots alone.
pub open spec fn is_decimal(text: Seq<char>) -> bool {
    forall|i: int| 0 <= i < text.len() ==> '0' <= #[trigger] text[i] <= '9' || text[i] == '.'
}

/// A number that is written in base ten, with a fraction.
#[derive(Debug)]
pub struct Decimal {
    text: String,
}

impl View for Decimal {
    type V = Seq<char>;

    closed spec fn view(&self) -> Seq<char> {
        self.text@
    }
}

impl Decimal {
    #[verifier::type_invariant]
    spec fn well_formed(self) -> bool {
        is_decimal(self.text@)
    }

    /// Takes a number as text: `None` where anything else than digits and dots is
    /// in it.
    pub fn new(text: String) -> (result: Option<Decimal>)
        ensures
            match result {
                Some(number) => is_decimal(text@) && number@ == text@,
                None => !is_decimal(text@),
            },
    {
        let all = characters(text.as_str());
        let mut i: usize = 0;
        while i < all.len()
            invariant
                i <= all@.len(),
                all@ == text@,
                forall|k: int| 0 <= k < i ==> '0' <= #[trigger] all@[k] <= '9' || all@[k] == '.',
            decreases all@.len() - i,
        {
            let c = all[i];
            if (c < '0' || c > '9') && c != '.' {
                assert(!('0' <= text@[i as int] <= '9' || text@[i as int] == '.'));
                return None;
            }
            i += 1;
        }
        Some(Decimal { text })
    }

    /// The number as text.
    pub fn as_str(&self) -> (text: &str)
        ensures
            text@ == self@,
            is_decimal(self@),
    {
        proof {
            use_type_invariant(self);
        }
        self.text.as_str()
    }
}

/// What a measurement came to.
#[derive(Debug)]
pub struct Report {
    /// The measured command and its arguments.
    pub command: Vec<String>,
    pub cycles: u64,
    pub instructions: u64,
    /// Instructions per cycle.
    pub ipc: Decimal,
    /// The configured counters, by event name.
    pub counters: Vec<(String, u64)>,
    /// The wall-clock time in seconds.
    pub seconds: Decimal,
    /// Whether the command succeeded.
    pub success: bool,
    /// The exit code of the command, where it has one.
    pub exit_code: Option<i32>,
}

/// Whether the numbers of a report are numbers, as those of every report are.
pub open spec fn is_valid_report(report: Report) -> bool {
    is_decimal(report.ipc@) && is_decimal(report.seconds@)
}

/// The length of `text` in bytes.
pub open spec fn byte_length(text: Seq<char>) -> nat {
    encode_utf8(text).len()
}

/// The length of `text` in bytes.
fn byte_len(text: &str) -> (length: usize)
    ensures
        length == byte_length(text@),
{
    text.as_bytes().len()
}

/// `words` with blanks between them.
pub open spec fn joined(words: Seq<Seq<char>>) -> Seq<char>
    decreases words.len(),
{
    if words.len() == 0 {
        Seq::empty()
    } else if words.len() == 1 {
        words[0]
    } else {
        joined(words.drop_last()) + " "@ + words.last()
    }
}

/// A description without what follows in parentheses.
pub open spec fn short_comment(comment: Seq<char>) -> Seq<char> {
    match find_from(comment, " ("@, 0) {
        Some(at) => trimmed_end(comment.take(at as int)),
        None => comment,
    }
}

/// How many blanks stand before a comment that is to begin at `column`, in a
/// line whose value and name take up `width`: never less than two.
pub open spec fn comment_gap(column: nat, width: nat) -> nat {
    if column >= width + 2 {
        (column - width) as nat
    } else {
        2
    }
}

/// How wide the value and the name of a line are, without its style codes.
pub open spec fn label_width(name: Seq<char>) -> nat {
    2 + 20 + 2 + byte_length(name)
}

/// The line of a counter. All comments begin at `column`.
pub open spec fn counter_line(
    style: Style,
    value: Seq<char>,
    name: Seq<char>,
    comment: Seq<char>,
    column: nat,
) -> Seq<char> {
    let label = "  "@ + style.blue@ + right_aligned(value, 20) + style.reset@ + "  "@ + style.bold@
        + name + style.reset@;
    if comment.len() == 0 {
        label + "\n"@
    } else {
        label + blanks(comment_gap(column, label_width(name))) + style.dim@ + "# "@ + short_comment(
            comment,
        ) + style.reset@ + "\n"@
    }
}

/// The larger of two numbers.
pub open spec fn larger(a: nat, b: nat) -> nat {
    if a < b {
        b
    } else {
        a
    }
}

/// The names of counters.
pub open spec fn counter_names(counters: Seq<(String, u64)>) -> Seq<Seq<char>> {
    Seq::new(counters.len(), |i: int| counters[i].0@)
}

/// The length in bytes of the longest of `names` and the names of the two
/// counters that are always there.
pub open spec fn longest_name(names: Seq<Seq<char>>) -> nat
    decreases names.len(),
{
    if names.len() == 0 {
        larger(byte_length("cycles"@), byte_length("instructions"@))
    } else {
        larger(longest_name(names.drop_last()), byte_length(names.last()))
    }
}

/// The description of the first event called `name`, or nothing.
pub open spec fn description_of(events: Seq<EventModel>, name: Seq<char>) -> Seq<char> {
    match event_named(events, name) {
        Some(event) => event.description,
        None => ""@,
    }
}

/// The lines of the configured counters.
pub open spec fn counter_lines(
    style: Style,
    counters: Seq<(String, u64)>,
    events: Seq<EventModel>,
    column: nat,
) -> Seq<char>
    decreases counters.len(),
{
    if counters.len() == 0 {
        Seq::empty()
    } else {
        counter_lines(style, counters.drop_last(), events, column) + counter_line(
            style,
            comma_grouped(counters.last().1 as nat),
            counters.last().0@,
            description_of(events, counters.last().0@),
            column,
        )
    }
}

/// An exit code as it is shown.
pub open spec fn exit_code_text(code: Option<i32>) -> Seq<char> {
    match code {
        Some(code) => "Some("@ + signed_decimal(code as int) + ")"@,
        None => "None"@,
    }
}

/// The line above the counters.
pub open spec fn title(style: Style, command: Seq<Seq<char>>) -> Seq<char> {
    "\n "@ + style.bold@ + "Performance counter stats for '"@ + joined(command) + "':"@
        + style.reset@ + "\n\n"@
}

/// The lines below the counters.
pub open spec fn footer(
    style: Style,
    seconds: Seq<char>,
    success: bool,
    exit_code: Option<i32>,
) -> Seq<char> {
    let time = "\n  "@ + style.dim@ + right_aligned(seconds, 16) + " seconds wall clock"@
        + style.reset@ + "\n"@;
    if success {
        time + "\n"@
    } else {
        time + "  "@ + style.red@ + "(exit status "@ + exit_code_text(exit_code) + ")"@
            + style.reset@ + "\n"@ + "\n"@
    }
}

/// The text of a report: cycles and instructions with their ratio, then each
/// configured event with its description, then time and exit status.
pub open spec fn report_text(report: Report, events: Seq<EventModel>, style: Style) -> Seq<char> {
    let column = 26 + longest_name(counter_names(report.counters@));
    title(style, texts(report.command@)) + counter_line(
        style,
        comma_grouped(report.cycles as nat),
        "cycles"@,
        ""@,
        column,
    ) + counter_line(
        style,
        comma_grouped(report.instructions as nat),
        "instructions"@,
        report.ipc@ + " insn per cycle"@,
        column,
    ) + "\n"@ + counter_lines(style, report.counters@, events, column) + footer(
        style,
        report.seconds@,
        report.success,
        report.exit_code,
    )
}

/// Joins words with blanks.
fn join(words: &Vec<String>) -> (text: String)
    ensures
        text@ == joined(texts(words@)),
{
    let ghost all = texts(words@);
    if words.len() == 0 {
        return String::new();
    }
    let mut text = words[0].clone();
    let mut i: usize = 1;
    assert(all.take(1)[0] == text@);
    while i < words.len()
        invariant
            1 <= i <= words@.len(),
            all == texts(words@),
            text@ == joined(all.take(i as int)),
        decreases words@.len() - i,
    {
        text.append(" ");
        text.append(words[i].as_str());
        i += 1;
        assert(all.take(i as int).drop_last() =~= all.take(i - 1));
    }
    assert(all.take(i as int) =~= all);
    text
}

/// Strips a parenthetical aside from a description, to keep lines short.
pub fn shorten(comment: &str) -> (short: &str)
    ensures
        short@ == short_comment(comment@),
{
    proof {
        crate::text::lemma_find_from(comment@, " ("@, 0);
    }
    match find(comment, " (") {
        Some(at) => trim_end(comment, at),
        None => comment,
    }
}

/// Makes the line of a counter.
fn make_line(style: &Style, value: u64, name: &str, comment: &str, longest: usize) -> (line: String)
    requires
        byte_length(name@) <= longest,
    ensures
        line@ == counter_line(*style, comma_grouped(value as nat), name@, comment@, 26 + longest as nat),
{
    let mut line = "  ".to_owned();
    line.append(style.blue);
    push_right_aligned(&mut line, fmt_comma(value).as_str(), 20);
    line.append(style.reset);
    line.append("  ");
    line.append(style.bold);
    line.append(name);
    line.append(style.reset);
    if !comment.is_empty() {
        let ghost label = line@;
        line.append("  ");
        push_blanks(&mut line, longest - byte_len(name));
        proof {
            reveal_strlit("  ");
            assert(line@ =~= label + blanks(
                comment_gap(26 + longest as nat, label_width(name@)),
            ));
        }
        line.append(style.dim);
        line.append("# ");
        line.append(shorten(comment));
        line.append(style.reset);
    }
    line.append("\n");
    line
}

proof fn lemma_longest_name(names: Seq<Seq<char>>)
    ensures
        byte_length("cycles"@) <= longest_name(names),
        byte_length("instructions"@) <= longest_name(names),
        forall|k: int|
            0 <= k < names.len() ==> byte_length(#[trigger] names[k]) <= longest_name(names),
    decreases names.len(),
{
    if names.len() > 0 {
        let front = names.drop_last();
        lemma_longest_name(front);
        assert forall|k: int| 0 <= k < names.len() implies byte_length(#[trigger] names[k])
            <= longest_name(names) by {
            if k < front.len() {
                assert(front[k] == names[k]);
            }
        }
    }
}

/// Finds the length in bytes of the longest counter name.
fn find_longest(counters: &Vec<(String, u64)>) -> (longest: usize)
    ensures
        longest == longest_name(counter_names(counters@)),
{
    let ghost names = counter_names(counters@);
    let cycles = byte_len("cycles");
    let instructions = byte_len("instructions");
    let mut longest: usize = if cycles < instructions {
        instructions
    } else {
        cycles
    };
    let mut i: usize = 0;
    assert(names.take(0) =~= Seq::<Seq<char>>::empty());
    while i < counters.len()
        invariant
            i <= counters@.len(),
            names == counter_names(counters@),
            longest == longest_name(names.take(i as int)),
        decreases counters@.len() - i,
    {
        let length = byte_len(counters[i].0.as_str());
        if longest < length {
            longest = length;
        }
        i += 1;
        assert(names.take(i as int).drop_last() =~= names.take(i - 1));
        assert(names.take(i as int).last() == counters@[i - 1].0@);
    }
    assert(names.take(i as int) =~= names);
    longest
}

/// Finds the description of an event.
fn find_description<'a>(events: &Vec<&'a KpepEvent>, name: &str) -> (description: &'a str)
    ensures
        description@ == description_of(borrowed_models(events@), name@),
{
    let ghost models = borrowed_models(events@);
    let mut at: usize = 0;
    while at < events.len()
        invariant
            at <= events@.len(),
            models == borrowed_models(events@),
            forall|k: int| 0 <= k < at ==> (#[trigger] models[k]).name != name@,
        decreases events@.len() - at,
    {
        let event = events[at];
        if same_text(event.name.as_str(), name) {
            proof {
                lemma_event_named(models, name@, at as int);
            }
            return event.description.as_str();
        }
        at += 1;
    }
    proof {
        lemma_event_named(models, name@, at as int);
    }
    ""
}

/// Makes the lines of the configured counters.
fn make_lines(
    style: &Style,
    counters: &Vec<(String, u64)>,
    events: &Vec<&KpepEvent>,
    longest: usize,
) -> (lines: String)
    requires
        longest == longest_name(counter_names(counters@)),
    ensures
        lines@ == counter_lines(
            *style,
            counters@,
            borrowed_models(events@),
            26 + longest as nat,
        ),
{
    proof {
        lemma_longest_name(counter_names(counters@));
    }
    let mut lines = String::new();
    let mut i: usize = 0;
    assert(counters@.take(0) =~= Seq::<(String, u64)>::empty());
    while i < counters.len()
        invariant
            i <= counters@.len(),
            forall|k: int|
                0 <= k < counter_names(counters@).len() ==> byte_length(
                    #[trigger] counter_names(counters@)[k],
                ) <= longest,
            lines@ == counter_lines(
                *style,
                counters@.take(i as int),
                borrowed_models(events@),
                26 + longest as nat,
            ),
        decreases counters@.len() - i,
    {
        let name = counters[i].0.as_str();
        assert(counter_names(counters@)[i as int] == name@);
        let description = find_description(events, name);
        let line = make_line(style, counters[i].1, name, description, longest);
        lines.append(line.as_str());
        i += 1;
        assert(counters@.take(i as int).drop_last() =~= counters@.take(i - 1));
    }
    assert(counters@.take(i as int) =~= counters@);
    lines
}

/// Makes the lines below the counters.
fn make_footer(style: &Style, seconds: &str, success: bool, exit_code: Option<i32>) -> (text: String)
    ensures
        text@ == footer(*style, seconds@, success, exit_code),
{
    let mut text = "\n  ".to_owned();
    text.append(style.dim);
    push_right_aligned(&mut text, seconds, 16);
    text.append(" seconds wall clock");
    text.append(style.reset);
    text.append("\n");
    if !success {
        let code = match exit_code {
            Some(code) => {
                let mut shown = "Some(".to_owned();
                shown.append(signed_decimal_text(code).as_str());
                shown.append(")");
                shown
            },
            None => "None".to_owned(),
        };
        text.append("  ");
        text.append(style.red);
        text.append("(exit status ");
        text.append(code.as_str());
        text.append(")");
        text.append(style.reset);
        text.append("\n");
    }
    text.append("\n");
    text
}

/// Formats a report.
///
/// Always shows cycles and instructions (from fixed counters) with their ratio,
/// followed by each configured event's value and description, wall-clock time,
/// and exit status if the command failed.
pub fn format_results(report: &Report, events: &Vec<&KpepEvent>, style: &Style) -> (text: String)
    ensures
        text@ == report_text(*report, borrowed_models(events@), *style),
        is_valid_report(*report),
{
    proof {
        lemma_longest_name(counter_names(report.counters@));
    }
    let longest = find_longest(&report.counters);
    let mut text = "\n ".to_owned();
    text.append(style.bold);
    text.append("Performance counter stats for '");
    text.append(join(&report.command).as_str());
    text.append("':");
    text.append(style.reset);
    text.append("\n\n");
    text.append(make_line(style, report.cycles, "cycles", "", longest).as_str());
    let ratio = report.ipc.as_str().to_owned().concat(" insn per cycle");
    text.append(
        make_line(style, report.instructions, "instructions", ratio.as_str(), longest).as_str(),
    );
    text.append("\n");
    text.append(make_lines(style, &report.counters, events, longest).as_str());
    text.append(
        make_footer(style, report.seconds.as_str(), report.success, report.exit_code).as_str(),
    );
    text
}

/// Law: in a report, all comments begin at the same column: the label of a
/// line and the gap behind it add up to the column, whatever the counter.
pub proof fn law_comments_line_up(counters: Seq<(String, u64)>, name: Seq<char>)
    requires
        name == "cycles"@ || name == "instructions"@ || counter_names(counters).contains(name),
    ensures
        ({
            let column = 26 + longest_name(counter_names(counters));
            label_width(name) + comment_gap(column, label_width(name)) == column
        }),
{
    lemma_longest_name(counter_names(counters));
}

} // verus!

//! Laws of finding and loading a database, and of what is said where that fails.

use vstd::prelude::*;
use vstd::utf8::valid_utf8;

use crate::dates::{
    byte_chars, closes, content, date_past_range, date_tag_end, fraction_end, is_past_range, local_name,
    name_end, no_past_range, tag_end, tag_name, Content,
};
use crate::document::{document_tree, read_tree, Tree};
use crate::kpep::{database_of, is_error_text, reads_as, KpepDatabase, KpepError};
use crate::laws::numbers::law_hexadecimal;
use crate::load::{
    contents_model, database_path, file_name, file_prefix, finds, first_substitute, is_substitute,
    load_step, loads_as, CpuId, CpuLoad, CpuLoadEvent, DatabaseFile,
};
use crate::text::{decimal, hexadecimal, occurs_at};

verus! {

/// Law: the database file of a CPU is named by its type, its subtype and its
/// family, in this order and in base sixteen, without leading zeros.
pub proof fn law_file_name(cpu: CpuId)
    ensures
        file_name(cpu) == "cpu_"@ + hexadecimal(cpu.cpu_type as nat) + "_"@ + hexadecimal(
            cpu.cpu_subtype as nat,
        ) + "_"@ + hexadecimal(cpu.cpu_family as nat) + ".plist"@,
        database_path(file_name(cpu)) == "/usr/share/kpep/"@ + file_name(cpu),
{
}

proof fn lemma_prefix_has_no_dot(cpu: CpuId)
    ensures
        forall|i: int| 0 <= i < file_prefix(cpu).len() ==> #[trigger] file_prefix(cpu)[i] != '.',
{
    reveal_strlit("cpu_");
    reveal_strlit("_");
    law_hexadecimal(cpu.cpu_type as nat);
    law_hexadecimal(cpu.cpu_subtype as nat);
}

/// Law: a file of any family stands in for the database of a CPU of its type and
/// subtype.
pub proof fn law_substitutes(cpu: CpuId, middle: Seq<char>)
    ensures
        is_substitute(
            cpu,
            "cpu_"@ + hexadecimal(cpu.cpu_type as nat) + "_"@ + hexadecimal(cpu.cpu_subtype as nat)
                + "_"@ + middle + ".plist"@,
        ),
{
    let name = file_prefix(cpu) + middle + ".plist"@;
    assert(name.subrange(0, file_prefix(cpu).len() as int) =~= file_prefix(cpu));
    assert(name.subrange(name.len() - ".plist"@.len(), name.len() as int) =~= ".plist"@);
}

/// Law: only files of a CPU's type and subtype stand in for its database.
pub proof fn law_only_substitutes(cpu: CpuId, name: Seq<char>) -> (middle: Seq<char>)
    requires
        is_substitute(cpu, name),
    ensures
        name == "cpu_"@ + hexadecimal(cpu.cpu_type as nat) + "_"@ + hexadecimal(
            cpu.cpu_subtype as nat,
        ) + "_"@ + middle + ".plist"@,
{
    reveal_strlit(".plist");
    lemma_prefix_has_no_dot(cpu);
    let prefix = file_prefix(cpu);
    let dot = name.len() - 6;
    assert(name[dot] == ".plist"@[0]);
    if dot < prefix.len() {
        assert(name[dot] == prefix[dot]);
    }
    let middle = name.subrange(prefix.len() as int, dot);
    assert(name =~= prefix + middle + ".plist"@);
    middle
}

/// Law: the CPU's own file is found where it exists; otherwise the first file of
/// the directory that can stand in for it; and where none can, the database is
/// not found, and the CPU is named.
pub proof fn law_found_file(cpu: CpuId, names: Vec<String>)
    ensures
        finds(cpu, true, names@) == Ok::<DatabaseFile, KpepError>(DatabaseFile::Exact),
        match finds(cpu, false, names@) {
            Ok(DatabaseFile::Listed(at)) => at < names@.len() && is_substitute(
                cpu,
                names@[at as int]@,
            ) && forall|k: int|
                0 <= k < at ==> !is_substitute(cpu, (#[trigger] names@[k])@),
            Ok(DatabaseFile::Exact) => false,
            Err(error) => {
                &&& error == (KpepError::DatabaseNotFound {
                    cpu_type: cpu.cpu_type,
                    cpu_subtype: cpu.cpu_subtype,
                    cpu_family: cpu.cpu_family,
                })
                &&& forall|k: int|
                    0 <= k < names@.len() ==> !is_substitute(cpu, (#[trigger] names@[k])@)
            },
        },
{
    lemma_first(cpu, names@, 0);
    assert(names@.len() == names.len());
}

proof fn lemma_first(cpu: CpuId, names: Seq<String>, from: nat)
    ensures
        match first_substitute(cpu, names, from) {
            Some(index) => from <= index < names.len() && is_substitute(cpu, names[index as int]@)
                && forall|k: int|
                from <= k < index ==> !is_substitute(cpu, (#[trigger] names[k])@),
            None => forall|k: int|
                from <= k < names.len() ==> !is_substitute(cpu, (#[trigger] names[k])@),
        },
    decreases names.len() - from,
{
    if from < names.len() && !is_substitute(cpu, names[from as int]@) {
        lemma_first(cpu, names, from + 1);
    }
}

/// Law: a file that cannot be read, or that is no property list, is a read error
/// with its path and the cause; a property list that is no database is a
/// structure error that says what it lacks; and any other file is the database
/// that it describes.
pub proof fn law_loaded(
    path: Seq<char>,
    contents: Result<Vec<u8>, String>,
    result: Result<KpepDatabase, KpepError>,
)
    requires
        loads_as(path, contents_model(contents), result),
    ensures
        contents matches Err(cause) ==> (result matches Err(
            KpepError::ReadError { path: p, source },
        ) && p@ == path && source@ == cause@),
        contents matches Ok(bytes) ==> match read_tree(bytes@) {
            Err(cause) => result matches Err(KpepError::ReadError { path: p, source }) && p@ == path
                && source@ == cause,
            Ok(root) => match database_of(root) {
                Ok(model) => result matches Ok(database) && database@ == model,
                Err(text) => result matches Err(KpepError::StructureError(message)) && message@
                    == text,
            },
        },
{
}

/// Law: what a property list reads as is the database that it describes, or a
/// structure error that says what it lacks.
pub proof fn law_read(root: Tree, result: Result<KpepDatabase, KpepError>)
    requires
        reads_as(root, result),
    ensures
        result is Ok <==> database_of(root) is Ok,
        result matches Ok(database) ==> database@ == database_of(root)->Ok_0,
        result matches Err(error) ==> (error matches KpepError::StructureError(message) && message@
            == database_of(root)->Err_0),
{
}

/// Law: a CPU that cannot be identified ends the loading, with the text of the
/// first question that failed, of the three on its type, its subtype and its
/// family.
pub proof fn law_unidentified(
    cpu_type: Result<u32, String>,
    cpu_subtype: Result<u32, String>,
    cpu_family: Result<u32, String>,
    after: CpuLoad,
)
    requires
        load_step(
            CpuLoad::ReadCpuInfo,
            CpuLoadEvent::CpuInfo(cpu_type, cpu_subtype, cpu_family),
            after,
        ),
    ensures
        cpu_type matches Err(text) ==> after == CpuLoad::Finished(Err(KpepError::SysctlError(text))),
        cpu_type is Ok ==> (cpu_subtype matches Err(text) ==> after == CpuLoad::Finished(
            Err(KpepError::SysctlError(text)),
        )),
        cpu_type is Ok && cpu_subtype is Ok ==> (cpu_family matches Err(text) ==> after
            == CpuLoad::Finished(Err(KpepError::SysctlError(text)))),
        cpu_type is Ok && cpu_subtype is Ok && cpu_family is Ok ==> after == CpuLoad::CheckFile(
            CpuId {
                cpu_type: cpu_type->Ok_0,
                cpu_subtype: cpu_subtype->Ok_0,
                cpu_family: cpu_family->Ok_0,
            },
        ),
{
}

/// Law: a loading goes on only with what it waits for, and once it has come to
/// its end it stays there.
pub proof fn law_loading_waits(before: CpuLoad, event: CpuLoadEvent, after: CpuLoad)
    requires
        load_step(before, event, after),
    ensures
        before is Finished ==> after == before,
        before is ReadCpuInfo && !(event is CpuInfo) ==> after == before,
        before is CheckFile && !(event is FileExists) ==> after == before,
        before is ListDirectory && !(event is Directory) ==> after == before,
        before is ReadFile && !(event is Contents) ==> after == before,
        before is ReadFile && event is Contents ==> after is Finished,
{
}

/// Law: the error of a database that is not found names type and family of the
/// CPU in base sixteen, and its subtype in base ten; a read error names the path
/// and the cause, and a structure error and a `sysctl` error what is wrong.
pub proof fn law_error_texts(error: KpepError, text: Seq<char>)
    requires
        is_error_text(error, text),
    ensures
        error is NoDefaultDatabase ==> text
            == "On platforms other than macos, there is no default kpep database. Please pass a path to a kpep database"@,
        error matches KpepError::DatabaseNotFound { cpu_type, cpu_subtype, cpu_family } ==> text
            == "kpep database not found for cpu_type=0x"@ + hexadecimal(cpu_type as nat)
            + " cpu_subtype="@ + decimal(cpu_subtype as nat) + " cpu_family=0x"@ + hexadecimal(
            cpu_family as nat,
        ),
        error matches KpepError::ReadError { path, source } ==> text
            == "failed to read kpep database at "@ + path@ + ": "@ + source@,
        error matches KpepError::StructureError(detail) ==> text == "unexpected plist structure: "@
            + detail@,
        error matches KpepError::SysctlError(detail) ==> text == "sysctl failed: "@ + detail@,
        error is ParseError ==> "failed to parse kpep plist: "@.is_prefix_of(text),
{
    if let KpepError::ParseError(source) = error {
        let shown = choose|shown: String|
            #![trigger shown@]
            vstd::string::to_string_from_display_ensures::<plist::Error>(&source, shown) && text
                == "failed to parse kpep plist: "@ + shown@;
        assert(text == "failed to parse kpep plist: "@ + shown@);
    }
}

/// Law: reading a document gives what the property list reader gives, or the
/// error that a date lies past the year 9999.
pub proof fn law_reading(bytes: Seq<u8>)
    ensures
        read_tree(bytes) == document_tree(bytes) || read_tree(bytes) == Err::<Tree, Seq<char>>(
            "a date lies past the year 9999"@,
        ),
{
}

/// Law: a document in which the letters `date` do not stand together is read as
/// the property list reader reads it.
pub proof fn law_documents_without_dates(bytes: Seq<u8>)
    requires
        forall|i: int|
            0 <= i < bytes.len() - 3 ==> !(#[trigger] bytes[i] == 0x64 && bytes[i + 1] == 0x61
                && bytes[i + 2] == 0x74 && bytes[i + 3] == 0x65),
    ensures
        read_tree(bytes) == document_tree(bytes),
{
    let text = byte_chars(bytes);
    assert forall|at: int| !#[trigger] date_past_range(bytes, at) by {
        if let Some(end) = date_tag_end(text, at) {
            lemma_tag_end(text, at + 1, None, false);
            lemma_name_end(text, at + 1, end);
            let name = tag_name(text, at, end);
            let local = local_name(name);
            reveal_strlit("date");
            let skipped = if name.contains(':') {
                name.index_of_first_ensures(':');
                name.index_of_first(':')->0 + 1
            } else {
                0
            };
            assert(local =~= name.skip(skipped));
            let i = at + 1 + skipped;
            assert(local.len() == 4);
            assert(text[i] == local[0] && text[i + 1] == local[1] && text[i + 2] == local[2]
                && text[i + 3] == local[3]);
            assert(bytes[i] == 0x64 && bytes[i + 1] == 0x61 && bytes[i + 2] == 0x74 && bytes[i + 3]
                == 0x65);
        }
    }
    assert(no_past_range(bytes));
}

proof fn lemma_tag_end(text: Seq<char>, at: int, quote: Option<char>, bracket: bool)
    ensures
        tag_end(text, at, quote, bracket) matches Some(end) ==> at <= end < text.len(),
    decreases text.len() - at,
{
    if at < text.len() {
        match quote {
            Some(mark) => {
                lemma_tag_end(
                    text,
                    at + 1,
                    if text[at] == mark {
                        None
                    } else {
                        quote
                    },
                    bracket,
                );
            },
            None => {
                if text[at] == '\'' || text[at] == '"' {
                    lemma_tag_end(text, at + 1, Some(text[at]), bracket);
                } else {
                    lemma_tag_end(text, at + 1, None, bracket);
                }
            },
        }
    }
}

proof fn lemma_name_end(text: Seq<char>, at: int, end: int)
    requires
        at <= end,
    ensures
        at <= name_end(text, at, end) <= end,
    decreases end - at,
{
    if at < end && !crate::dates::is_blank(text[at]) {
        lemma_name_end(text, at + 1, end);
    }
}

/// Law: a binary document is read as the property list reader reads it.
pub proof fn law_binary_documents(bytes: Seq<u8>)
    requires
        bytes.len() >= 8,
        bytes.subrange(0, 8) == seq![0x62u8, 0x70, 0x6c, 0x69, 0x73, 0x74, 0x30, 0x30],
    ensures
        read_tree(bytes) == document_tree(bytes),
{
    reveal_strlit("bplist00");
    let text = byte_chars(bytes);
    let head = bytes.subrange(0, 8);
    assert forall|i: int| 0 <= i < 8 implies #[trigger] bytes[i] == head[i] by {}
    assert(text.subrange(0, 8) =~= "bplist00"@);
    assert(occurs_at(text, "bplist00"@, 0));
}

/// Law: no date lies past the range but one on the last day of the year 9999.
pub proof fn law_dates_before_the_last_day(text: Seq<char>)
    requires
        is_past_range(text),
    ensures
        text.len() >= 25,
        text.subrange(0, 10) == "9999-12-31"@,
{
    reveal_strlit("9999-12-31");
    assert(text.subrange(0, 10) == "9999-12-31"@);
    lemma_fraction(text);
}

proof fn lemma_fraction(text: Seq<char>)
    ensures
        fraction_end(text, 19) >= 19,
{
    lemma_digits_end(text, 20);
}

proof fn lemma_digits_end(text: Seq<char>, at: int)
    ensures
        crate::dates::digits_end(text, at) >= at,
    decreases text.len() - at,
{
    if 0 <= at < text.len() && crate::dates::is_digit(text[at]) {
        lemma_digits_end(text, at + 1);
    }
}

/// Law: a time on the last day of the year 9999, `h` hours and `m` minutes after
/// midnight in a place that is `oh` hours and `om` minutes behind UTC, lies past
/// the range exactly where these add up to a day or more.
#[verifier::rlimit(40)]
pub proof fn law_last_day(
    text: Seq<char>,
    hour: (char, char),
    minute: (char, char),
    second: (char, char),
    behind: (char, char, char, char),
)
    requires
        text == "9999-12-31T"@ + seq![
            hour.0,
            hour.1,
            ':',
            minute.0,
            minute.1,
            ':',
            second.0,
            second.1,
            '-',
            behind.0,
            behind.1,
            ':',
            behind.2,
            behind.3,
        ],
        '0' <= hour.0 <= '9' && '0' <= hour.1 <= '9',
        '0' <= minute.0 <= '5' && '0' <= minute.1 <= '9',
        '0' <= second.0 <= '5' && '0' <= second.1 <= '9',
        '0' <= behind.0 <= '9' && '0' <= behind.1 <= '9',
        '0' <= behind.2 <= '5' && '0' <= behind.3 <= '9',
    ensures
        ({
            let h = 10 * (hour.0 as int - 48) + (hour.1 as int - 48);
            let m = 10 * (minute.0 as int - 48) + (minute.1 as int - 48);
            let oh = 10 * (behind.0 as int - 48) + (behind.1 as int - 48);
            let om = 10 * (behind.2 as int - 48) + (behind.3 as int - 48);
            is_past_range(text) <==> h < 24 && oh < 24 && 60 * (h + oh) + m + om >= 1440
        }),
{
    reveal_strlit("9999-12-31T");
    reveal_strlit("9999-12-31");
    assert(text.subrange(0, 10) =~= "9999-12-31"@);
    assert(occurs_at(text, "9999-12-31"@, 0));
    assert(text[10] == 'T');
    assert(text[19] == '-');
    assert(text[11] == hour.0 && text[12] == hour.1 && text[13] == ':' && text[14] == minute.0
        && text[15] == minute.1 && text[16] == ':' && text[17] == second.0 && text[18] == second.1);
    assert(text[20] == behind.0 && text[21] == behind.1 && text[22] == ':' && text[23] == behind.2
        && text[24] == behind.3);
}

proof fn lemma_ascii_is_valid(bytes: Seq<u8>, end: int)
    requires
        0 <= end <= bytes.len(),
        forall|i: int| 0 <= i < bytes.len() ==> (#[trigger] bytes[i]) < 0x80,
    ensures
        valid_utf8(bytes.subrange(0, end)),
    decreases end,
{
    if end > 0 {
        lemma_ascii_is_valid(bytes, end - 1);
        let last = seq![bytes[end - 1]];
        assert(valid_utf8(last)) by {
            let none = vstd::utf8::pop_first_scalar(last);
            assert(none =~= Seq::<u8>::empty());
            assert(valid_utf8(none));
        }
        vstd::utf8::valid_utf8_concat(bytes.subrange(0, end - 1), last);
        assert(bytes.subrange(0, end) =~= bytes.subrange(0, end - 1) + last);
    } else {
        assert(bytes.subrange(0, end) =~= Seq::<u8>::empty());
    }
}

proof fn lemma_plain_content(text: Seq<char>, at: int, end: int, before: Seq<char>)
    requires
        0 <= at <= end,
        end + 2 <= text.len(),
        forall|i: int| at <= i < end ==> #[trigger] text[i] != '<' && text[i] != '&',
        text[end] == '<',
        text[end + 1] == '/',
    ensures
        content(text, at, before) == Content::Read(before + text.subrange(at, end), end),
    decreases end - at,
{
    if at < end {
        lemma_plain_content(text, at + 1, end, before.push(text[at]));
        assert(before.push(text[at]) + text.subrange(at + 1, end) =~= before + text.subrange(
            at,
            end,
        ));
    } else {
        reveal_strlit("</");
        assert(text.subrange(at, at + 2) =~= "</"@);
        assert(occurs_at(text, "</"@, at));
        assert(before + text.subrange(at, end) =~= before);
    }
}

/// Law: wherever an element `<date>` holds a text without markup, it counts as a
/// date past the range exactly where the text is one.
#[verifier::rlimit(40)]
pub proof fn law_plain_date_element(front: Seq<u8>, date: Seq<u8>, back: Seq<u8>)
    requires
        forall|i: int|
            0 <= i < date.len() ==> (#[trigger] date[i]) < 0x80 && date[i] != 0x3c && date[i] != 0x26,
    ensures
        date_past_range(
            front + seq![0x3cu8, 0x64, 0x61, 0x74, 0x65, 0x3e] + date + seq![
                0x3cu8,
                0x2f,
                0x64,
                0x61,
                0x74,
                0x65,
                0x3e,
            ] + back,
            front.len() as int,
        ) <==> is_past_range(byte_chars(date)),
{
    let opening = seq![0x3cu8, 0x64, 0x61, 0x74, 0x65, 0x3e];
    let closing = seq![0x3cu8, 0x2f, 0x64, 0x61, 0x74, 0x65, 0x3e];
    let bytes = front + opening + date + closing + back;
    let text = byte_chars(bytes);
    let at = front.len() as int;
    let end = at + 5;
    let close = end + 1 + date.len() as int;
    let last = close + 6;
    assert forall|i: int| 0 <= i < 6 implies #[trigger] opening[i] as char == text[at + i] by {}
    assert forall|i: int| 0 <= i < date.len() implies text[end + 1 + i] == #[trigger] date[i] as char by {}
    assert forall|i: int| 0 <= i < 7 implies #[trigger] closing[i] as char == text[close + i] by {}
    assert(text[at] == '<' && text[at + 1] == 'd' && text[at + 2] == 'a' && text[at + 3] == 't'
        && text[at + 4] == 'e' && text[at + 5] == '>') by {
        assert(opening[0] as char == text[at] && opening[1] as char == text[at + 1]);
        assert(opening[2] as char == text[at + 2] && opening[3] as char == text[at + 3]);
        assert(opening[4] as char == text[at + 4] && opening[5] as char == text[at + 5]);
    }
    assert(text[close] == '<' && text[close + 1] == '/' && text[close + 2] == 'd' && text[close + 3]
        == 'a' && text[close + 4] == 't' && text[close + 5] == 'e' && text[close + 6] == '>') by {
        assert(closing[0] as char == text[close] && closing[1] as char == text[close + 1]);
        assert(closing[2] as char == text[close + 2] && closing[3] as char == text[close + 3]);
        assert(closing[4] as char == text[close + 4] && closing[5] as char == text[close + 5]);
        assert(closing[6] as char == text[close + 6]);
    }
    reveal_strlit("date");
    reveal_with_fuel(tag_end, 7);
    reveal_with_fuel(name_end, 6);
    assert(tag_end(text, at + 1, None, false) == Some(end));
    assert(name_end(text, at + 1, end) == end);
    let name = tag_name(text, at, end);
    assert(name =~= "date"@);
    assert(!name.contains(':'));
    assert(date_tag_end(text, at) == Some(end));
    assert forall|i: int| end + 1 <= i < close implies #[trigger] text[i] != '<' && text[i] != '&' by {
        assert(text[i] == date[i - end - 1] as char);
    }
    lemma_plain_content(text, end + 1, close, Seq::empty());
    assert(Seq::<char>::empty() + text.subrange(end + 1, close) =~= byte_chars(date));
    assert(tag_end(text, close + 1, None, false) == Some(last));
    assert(text.subrange(close + 2, close + 6) =~= "date"@);
    assert(closes(text, close, last, name));
    let element = bytes.subrange(at, last + 1);
    assert forall|i: int| 0 <= i < element.len() implies (#[trigger] element[i]) < 0x80 by {
        if i < 6 {
            assert(element[i] == opening[i]);
        } else if i < 6 + date.len() {
            assert(element[i] == date[i - 6]);
        } else {
            assert(element[i] == closing[i - 6 - date.len()]);
        }
    }
    lemma_ascii_is_valid(element, element.len() as int);
    assert(element.subrange(0, element.len() as int) =~= element);
}

} // verus!

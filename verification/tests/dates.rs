//! Documents with dates.

use apmc::dates::check_dates;
use apmc::document::Plist;
use apmc::kpep::{KpepDatabase, KpepError};
use plist::{Date, Dictionary, Value};

fn with_date(content: &str) -> Vec<u8> {
    let text = format!(
        "<?xml version=\"1.0\" encoding=\"UTF-8\"?>\n<!DOCTYPE plist PUBLIC \"-//Apple//DTD PLIST 1.0//EN\" \"http://www.apple.com/DTDs/PropertyList-1.0.dtd\">\n<plist version=\"1.0\"><dict><key>d</key>{content}</dict></plist>"
    );
    text.into_bytes()
}

fn loads(content: &str) -> bool {
    assert!(check_dates(&with_date(content)), "{content}");
    match Plist::from_bytes(&with_date(content)) {
        Ok(Plist::Dictionary(entries)) => {
            entries.len() == 1 && matches!(entries[0].1, Plist::Other | Plist::Text(_))
        }
        _ => false,
    }
}

#[test]
fn ordinary_dates_load() {
    for content in [
        "<date>2024-02-29T12:34:56Z</date>",
        "<date>2024-02-29T12:34:56.789-08:00</date>",
        "<date >0000-01-01T00:00:00+23:59</date>",
        "<date>9999-12-31T23:59:59Z</date>",
        "<date>9999-12-31T23:59:59+01:00</date>",
        "<date>9999-12-31T23:59:59-00:00</date>",
        "<date>9999-12-31T22:59:59.5-01:00</date>",
        "<date>9999-12-30T23:59:59-23:59</date>",
        "<date><!-- 9999-12-31T23:59:59-01:00 -->2024-02-29T12:34:56Z</date>",
        "<date>&#50;&#x30;24-02-29T12:34:56Z</date>",
        "<x:date a=\"9999-12-31T23:59:59-01:00\">2024-02-29T12:34:56Z</x:date>",
        "<string>9999-12-31T23:59:59-01:00</string>",
        "<!-- <date>9999-12-31T23:59:59-01:00</date> --><true/>",
        "<![CDATA[<date>9999-12-31T23:59:59-01:00</date>]]><true/>",
    ] {
        assert!(loads(content), "{content}");
    }
}

#[test]
fn dates_past_the_range_are_found() {
    for content in [
        "<date>9999-12-31T23:59:59-01:00</date>",
        "<date>9999-12-31T23:59:59.123456789012-00:01</date>",
        "<date>9999-12-31 00:01:00-23:59</date>",
        "<date a='>'>9999-12-31T23:00:00-01:00</date>",
        "<x:date>9999-12-31T23:00:00-01:00</x:date>",
        "<date>&#57;999-12-31T23:00:00&#x2d;01:00</date>",
        "<date>9999<!-- </date> -->-12-31T23:00:00<?p </date>?>-01:00</date>",
        "<date>9999<![CDATA[</date>]]>-12-31T23:00:00&unknown;-01:00</date>",
        "<date>9999-12-31&lt;23:00:00-01:00</date>",
    ] {
        let bytes = with_date(content);
        assert!(!check_dates(&bytes), "{content}");
        assert_eq!(Plist::from_bytes(&bytes).unwrap_err(), "a date lies past the year 9999");
    }
}

#[test]
fn dates_behind_an_internal_subset_are_found() {
    let tail = "<plist><date>9999-12-31T23:59:59-01:00</date></plist>";
    for head in [
        "<!DOCTYPE plist [<!ENTITY e \"<!--\">]>",
        "<!DOCTYPE plist [<!ENTITY e '>]>' >]>",
        "<!DOCTYPE plist [<!-- ]> --><?p ]>?>]>",
        "<!DOCTYPE plist SYSTEM \"[<!--\">",
    ] {
        assert!(!check_dates(format!("{head}{tail}").as_bytes()), "{head}");
    }
}

/// What the reader makes of a document, and what the library does.
fn assert_same(bytes: &[u8]) {
    assert!(check_dates(bytes));
    let expected = Value::from_reader(std::io::Cursor::new(bytes));
    match (expected, Plist::from_bytes(bytes)) {
        (Ok(value), Ok(plist)) => {
            let converted = Plist::from_value(&value);
            assert_eq!(format!("{converted:?}"), format!("{plist:?}"));
        }
        (Err(error), Err(text)) => assert_eq!(error.to_string(), text),
        (expected, found) => panic!("{expected:?} {found:?}"),
    }
}

#[test]
fn broken_dates_are_errors_of_the_reader() {
    for content in [
        "<date>9999-12-31T23:59:60-01:00</date>",
        "<date>9999-12-31T24:00:00-01:00</date>",
        "<date>9999-12-31T23:59:59-24:00</date>",
        "<date>9999-12-31T23:59:59-01:00 </date>",
        "<date>9999-12-31T23:59:59-01:00",
        "<date>9999-12-31T23:59:59-01:00</dat>",
        "<date>9999-12-31T23:59:59-01:00<?></date>",
        "<date>9999-12-31T23:59:59-01:00<!DOCTYPE ></date>",
        "<date>&#57</date>",
        "<date/>",
        "<foo/><date>9999-12-31T23:59:59-01:00</date>",
    ] {
        let bytes = with_date(content);
        assert!(Plist::from_bytes(&bytes).is_err(), "{content}");
        assert_same(&bytes);
    }
}

#[test]
fn dates_that_are_not_read_do_not_matter() {
    let date = "<date>9999-12-31T23:59:59-01:00</date>";
    for text in [
        // Behind what ends the reading as XML, the document is an ASCII one.
        format!("<foo>{date}</foo>"),
        format!("<foo=<date>9999-12-31T23:59:59-01:00</date>"),
        format!("<string\n<date>9999-12-31T23:59:59-01:00</date>"),
        format!("<integer>x</integer>{date}"),
        format!("<real>1e5x</real>{date}"),
        format!("<data>*</data>{date}"),
        format!("<date>now</date>{date}"),
        format!("<date>9999-12-31T23:59:59-01:00</dat>"),
        format!("</plist>{date}"),
        format!("text{date}"),
        format!("&lt;{date}"),
        format!("\u{e9}{date}"),
        // Not an element.
        format!("<!DOCTYPE plist [<!ELEMENT plist ANY>]><plist><!-- {date} --><true/></plist>"),
        format!("<!DOCTYPE plist [<!-- {date} -->]><plist><true/></plist>"),
        format!("<plist a='{date}'><true/></plist>"),
        format!("<plist><?p {date}?><true/></plist>"),
        // An ordinary date whose comment looks like another one.
        "<plist><date>2024-02-29T12:34:56Z<!-- <date>9999-12-31T23:59:59-01:00<!-- --></date></plist>".to_string(),
    ] {
        assert!(Plist::from_bytes(text.as_bytes()).is_ok() || text.contains("&lt;"), "{text}");
        assert_same(text.as_bytes());
    }
    let mut invalid = b"<date a='\xff'>9999-12-31T23:59:59-01:00</date>".to_vec();
    assert_same(&invalid);
    invalid.extend_from_slice(date.as_bytes());
    assert_same(&invalid);
}

#[test]
fn dates_that_are_read_are_found_among_others() {
    let date = "<date>9999-12-31T23:59:59-01:00</date>";
    for text in [
        date.to_string(),
        format!("\u{feff}<plist>{date}</plist>"),
        format!("\u{2003}&#32;<!-- --><plist>{date}"),
        format!("<plist><!-- {date} --><array><string>a</string>{date}</array></plist>"),
        format!("<integer>0x10</integer>{date}"),
        format!("<real>1e5</real>{date}"),
        format!("<data>AAAA</data>{date}"),
        format!("<true/>{date}"),
        format!("<dict><key>a</key><date>2024-02-29T12:34:56Z<!-- <date>9999-12-31T23:59:59-01:00<!-- --></date><key>b</key>{date}</dict>"),
        "<date a=<date>9999-12-31T23:59:59-01:00</date \n>".to_string(),
    ] {
        assert!(!check_dates(text.as_bytes()), "{text}");
    }
}

#[test]
fn ascii_database_may_quote_a_date_element() {
    for name in ["<date><!D", "<date>9999-12-31T23:59:59-01:00</date>"] {
        let text =
            format!("{{ system = {{ cpu = {{ events = {{ }}; }}; }}; name = \"{name}\"; }}");
        let db = KpepDatabase::load_from_path("x".to_string(), Ok(text.into_bytes())).unwrap();
        assert_eq!(db.name, name);
    }
}

#[test]
fn declarations_inside_a_date_are_passed_over() {
    for declaration in
        [
            "<!DOCTYPE x>",
            "<!doctype x '>'>",
            "<!DOCTYPE x [<!ELEMENT x ANY><!ENTITY e ']>'>]>",
            "<!DOCTYPE x [<!-- a->b ]> --><?p ]>?><!FOO '>]>",
        ]
    {
        let ordinary = format!("<date>{declaration}2024-02-29T12:34:56Z</date>");
        assert!(loads(&ordinary), "{ordinary}");
        let past = format!("<date>9999{declaration}-12-31T23:59:59-01:00</date>");
        assert!(!check_dates(&with_date(&past)), "{past}");
    }
}

#[test]
fn a_database_with_a_date_past_the_range_is_a_read_error() {
    let bytes = with_date("<date>9999-12-31T23:59:59-01:00</date>");
    match KpepDatabase::load_from_path("db.plist".to_string(), Ok(bytes)) {
        Err(KpepError::ReadError { path, source }) => {
            assert_eq!(path, "db.plist");
            assert_eq!(source, "a date lies past the year 9999");
        }
        other => panic!("{other:?}"),
    }
}

#[test]
fn binary_documents_are_not_searched() {
    let mut root = Dictionary::new();
    root.insert(
        "text".to_string(),
        Value::String("<date>9999-12-31T23:59:59-01:00</date>".to_string()),
    );
    root.insert(
        "date".to_string(),
        Value::Date(Date::from_xml_format("2024-02-29T12:34:56Z").unwrap()),
    );
    let mut bytes = Vec::new();
    Value::Dictionary(root).to_writer_binary(&mut bytes).unwrap();
    assert!(check_dates(&bytes));
    assert!(Plist::from_bytes(&bytes).is_ok());
}

#[test]
fn a_long_declaration_inside_a_date_is_not_relied_on() {
    let blanks = " ".repeat(20_000);
    let date = format!("<date><!DOCTYPE x [<!--{blanks}->{blanks}-->]>2024-02-29T12:34:56Z</date>");
    assert!(!check_dates(&with_date(&date)));
    let clear = format!("<date><!DOCTYPE x [<!--{blanks}-->]>2024-02-29T12:34:56Z</date>");
    assert!(loads(&clear));
}

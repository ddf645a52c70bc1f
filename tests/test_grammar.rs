use permission_check::{
    parse, Field, ListSpecifier, PermissionItem, PermissionParseError, Span, Specifier,
};

fn texts(p: &PermissionItem) -> Vec<String> {
    p.perm.iter().map(|f| f.to_string()).collect()
}

fn parsed(text: &str) -> PermissionItem {
    parse(&text.to_string()).unwrap()
}

fn failure(text: &str) -> PermissionParseError {
    parse(&text.to_string()).unwrap_err()
}

#[test]
fn segments_of_a_dotted_path() {
    let p = parsed("org.1047.user.243.read");
    assert_eq!(p.perm.len(), 5);
    assert!(matches!(&p.perm[0], Field::Name { name } if name == "org"));
    assert!(matches!(p.perm[1], Field::ID { id: 1047 }));
    assert!(matches!(&p.perm[2], Field::Name { name } if name == "user"));
    assert!(matches!(p.perm[3], Field::ID { id: 243 }));
    assert!(matches!(p.perm[4], Field::Specifier { specifier: Specifier::Read }));
}

#[test]
fn globs_by_length() {
    let p = parsed("*.**.***");
    assert!(matches!(p.perm[0], Field::Glob));
    assert!(matches!(p.perm[1], Field::DoubleGlob));
    assert!(matches!(p.perm[2], Field::TripleGlob));
}

#[test]
fn every_keyword_is_a_specifier() {
    let cases = [
        ("add", Specifier::ListSpecifier { specifier: ListSpecifier::Add }),
        ("remove", Specifier::ListSpecifier { specifier: ListSpecifier::Remove }),
        ("read_one", Specifier::ListSpecifier { specifier: ListSpecifier::ReadOne }),
        ("list_all", Specifier::ListSpecifier { specifier: ListSpecifier::ListAll }),
        ("read", Specifier::Read),
        ("write", Specifier::Write),
        ("assign", Specifier::Assign),
        ("enact", Specifier::Enact),
    ];
    for (word, expected) in cases {
        let p = parsed(&format!("x.{}", word));
        assert!(matches!(p.perm[1], Field::Specifier { specifier } if specifier == expected));
    }
}

#[test]
fn keywords_are_case_sensitive_and_whole_words() {
    let p = parsed("Read.reader.read1");
    assert!(matches!(&p.perm[0], Field::Name { name } if name == "Read"));
    assert!(matches!(&p.perm[1], Field::Name { name } if name == "reader"));
    assert!(matches!(&p.perm[2], Field::Name { name } if name == "read1"));
}

#[test]
fn canonical_numerals_are_ids() {
    let p = parsed("0.7.9223372036854775807");
    assert!(matches!(p.perm[0], Field::ID { id: 0 }));
    assert!(matches!(p.perm[1], Field::ID { id: 7 }));
    assert!(matches!(p.perm[2], Field::ID { id: i64::MAX }));
}

#[test]
fn other_numerals_are_names() {
    let p = parsed("01.9223372036854775808.1abc.1_000");
    assert_eq!(texts(&p), vec!["01", "9223372036854775808", "1abc", "1_000"]);
    assert!(p.perm.iter().all(|f| matches!(f, Field::Name { .. })));
}

#[test]
fn literals_are_names() {
    let p = parsed("a.\"x.y\".'c'.true.\"q\\\"\\n\"");
    assert_eq!(p.perm.len(), 5);
    assert!(matches!(&p.perm[1], Field::Name { name } if name == "x.y"));
    assert!(matches!(&p.perm[2], Field::Name { name } if name == "c"));
    assert!(matches!(&p.perm[3], Field::Name { name } if name == "true"));
    assert!(matches!(&p.perm[4], Field::Name { name } if name == "q\"\n"));
}

#[test]
fn escaped_char_literal() {
    let p = parsed("'\\t'");
    assert!(matches!(&p.perm[0], Field::Name { name } if name == "\t"));
}

#[test]
fn whitespace_around_segments() {
    let p = parsed("  org . 1047 .\n read ");
    assert_eq!(texts(&p), vec!["org", "1047", "read"]);
}

#[test]
fn segment_after_specifier_is_refused() {
    assert_eq!(
        failure("a.read.b"),
        PermissionParseError::AfterSpecifier {
            specifier: Specifier::Read,
            terminator: Span { start: 2, end: 6 },
            next: Span { start: 7, end: 8 },
        }
    );
    assert!(matches!(failure("a.add.***"), PermissionParseError::AfterSpecifier { .. }));
}

#[test]
fn second_triple_glob_is_refused() {
    assert_eq!(
        failure("a.***.b.***.c"),
        PermissionParseError::RepeatedTripleGlob {
            first: Span { start: 2, end: 5 },
            second: Span { start: 8, end: 11 },
        }
    );
}

#[test]
fn first_breach_is_reported() {
    assert!(matches!(failure("***.read.***"), PermissionParseError::AfterSpecifier { .. }));
    assert!(matches!(failure("***.***.read.x"), PermissionParseError::RepeatedTripleGlob { .. }));
}

#[test]
fn invalid_tokens() {
    assert_eq!(failure(""), PermissionParseError::InvalidToken { at: 0 });
    assert_eq!(failure("a..b"), PermissionParseError::InvalidToken { at: 2 });
    assert_eq!(failure("a.b c"), PermissionParseError::InvalidToken { at: 4 });
    assert_eq!(failure("a."), PermissionParseError::InvalidToken { at: 2 });
    assert_eq!(failure("****"), PermissionParseError::InvalidToken { at: 3 });
    assert_eq!(failure("a.\"open"), PermissionParseError::InvalidToken { at: 7 });
    assert_eq!(failure("a.\"\\q\""), PermissionParseError::InvalidToken { at: 3 });
    assert_eq!(failure("a.{user_id}"), PermissionParseError::InvalidToken { at: 2 });
    assert_eq!(failure("'ab'"), PermissionParseError::InvalidToken { at: 0 });
}

#[test]
fn error_messages() {
    assert_eq!(failure("a..b").message(), "invalid token");
    assert_eq!(
        failure("a.***.***").message(),
        "cannot use triple glob more than once in a permission"
    );
    assert_eq!(
        failure("a.enact.b").message(),
        "cannot further define the permission after using specifier (`enact`)"
    );
    assert_eq!(
        failure("a.read_one.b").message(),
        "cannot further define the permission after using list specifier (`read_one`)"
    );
}

#[test]
fn segments_write_back() {
    let p = parsed("org.1047.*.**.***.list_all");
    assert_eq!(texts(&p), vec!["org", "1047", "*", "**", "***", "list_all"]);
    assert_eq!(Field::ID { id: -42 }.to_string(), "-42");
    assert_eq!(Field::ID { id: i64::MIN }.to_string(), "-9223372036854775808");
    assert_eq!(Specifier::Assign.to_string(), "assign");
    assert_eq!(ListSpecifier::Remove.to_string(), "remove");
}

#[test]
fn conversions_into_fields() {
    let f: Field = ListSpecifier::Add.into();
    assert!(matches!(f, Field::Specifier { specifier: Specifier::ListSpecifier { specifier: ListSpecifier::Add } }));
    let g: Field = Specifier::Write.into();
    assert!(matches!(g, Field::Specifier { specifier: Specifier::Write }));
    let s: Specifier = ListSpecifier::ListAll.into();
    assert_eq!(s, Specifier::ListSpecifier { specifier: ListSpecifier::ListAll });
    let item: PermissionItem = vec![Field::Glob, Field::ID { id: 3 }].into();
    assert_eq!(texts(&item), vec!["*", "3"]);
}

#[test]
fn unicode_identifiers_are_names() {
    let p = parsed("a.é.naïve.日本");
    assert_eq!(texts(&p), vec!["a", "é", "naïve", "日本"]);
    assert!(p.perm.iter().all(|f| matches!(f, Field::Name { .. })));
    // A character that may go on but not start an identifier.
    assert_eq!(failure("a.\u{0301}x"), PermissionParseError::InvalidToken { at: 2 });
}

#[test]
fn printed_paths_read_back() {
    let p = parsed("a.\"é\".*.3.read");
    let printed = texts(&p).join(".");
    assert_eq!(printed, "a.é.*.3.read");
    let q = parsed(&printed);
    assert_eq!(q.perm, p.perm);
}

#[test]
fn hex_and_unicode_escapes() {
    let p = parsed("\"\\x41\\u{e9}\\u{1F600}\".'\\u{263A}'");
    assert!(matches!(&p.perm[0], Field::Name { name } if name == "A\u{e9}\u{1F600}"));
    assert!(matches!(&p.perm[1], Field::Name { name } if name == "\u{263A}"));
    assert_eq!(failure("\"\\x80\""), PermissionParseError::InvalidToken { at: 1 });
    assert_eq!(failure("\"\\u{D800}\""), PermissionParseError::InvalidToken { at: 1 });
    assert_eq!(failure("\"\\u{1234567}\""), PermissionParseError::InvalidToken { at: 1 });
    assert_eq!(failure("\"\\u{}\""), PermissionParseError::InvalidToken { at: 1 });
}

#[test]
fn string_continuation() {
    let p = parsed("\"ab\\\n    cd\"");
    assert!(matches!(&p.perm[0], Field::Name { name } if name == "abcd"));
}

#[test]
fn raw_strings() {
    let p = parsed("r\"a\\b\".r#\"say \"hi\"\"#.r");
    assert!(matches!(&p.perm[0], Field::Name { name } if name == "a\\b"));
    assert!(matches!(&p.perm[1], Field::Name { name } if name == "say \"hi\""));
    assert!(matches!(&p.perm[2], Field::Name { name } if name == "r"));
    assert_eq!(failure("r#\"open\""), PermissionParseError::InvalidToken { at: 8 });
    assert_eq!(failure("r#x"), PermissionParseError::InvalidToken { at: 0 });
}

#[test]
fn unicode_whitespace_between_segments() {
    let p = parsed("a\u{85}.\u{2028}b\u{0B}");
    assert_eq!(texts(&p), vec!["a", "b"]);
}

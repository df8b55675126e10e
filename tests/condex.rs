use condex::{resolve_group, CondexBuilder, CondexError, CondexState, Span, TokenKind};
use condex::Condex;

#[derive(Debug, Clone, Copy, PartialEq)]
enum Token {
    TagName,
    NameType,
    Value,
    AllInOne,
}
impl TokenKind for Token {}

fn run<'a>(pairs: &[(Token, &[&str])], source: &'a str) -> Vec<(Token, Vec<Vec<&'a str>>)> {
    let mut builder = CondexBuilder::new(pairs).unwrap();
    for (i, c) in source.char_indices() {
        builder.test(c, i);
    }
    builder.finalize_with_source(source).unwrap()
}

fn spans_of(pattern: &str, source: &str) -> Vec<Vec<Span>> {
    let mut builder = CondexBuilder::new(&[(Token::Value, &[pattern][..])]).unwrap();
    for (i, c) in source.char_indices() {
        builder.test(c, i);
    }
    let mut finals = builder.finalize();
    assert_eq!(finals.len(), 1);
    finals.pop().unwrap().1
}

#[test]
fn it_works() {
    let source = "@hello-man(name: type = value, name2: type2, name3: type3 = value3)";
    let finals = run(
        &[
            (Token::TagName, &["@-("]),
            (Token::NameType, &["[(,]  -  :  - [,=]"]),
            (Token::Value, &["=-[,)]"]),
            (Token::AllInOne, &["@-(", "[(,]  -  :  - [,=]", "=-[,)]"]),
        ],
        source,
    );
    println!("{:#?}", finals);
    assert_eq!(finals.len(), 4);
    assert_eq!(finals[0], (Token::TagName, vec![vec!["hello-man"]]));
    assert_eq!(
        finals[1],
        (Token::NameType, vec![vec!["name", "type"], vec!["name2", "type2"]])
    );
    assert_eq!(finals[2], (Token::Value, vec![vec!["value"], vec!["value3"]]));
    assert_eq!(
        finals[3],
        (
            Token::AllInOne,
            vec![
                vec!["hello-man"],
                vec!["name", "type"],
                vec!["name2", "type2"],
                vec!["value"],
                vec!["value3"],
            ]
        )
    );
}

#[test]
fn tag_name_span() {
    let source = "@hello-man(name: type = value)";
    assert_eq!(spans_of("@-(", source), vec![vec![Span { start: 1, end: 10 }]]);
    let finals = run(&[(Token::TagName, &["@-("])], source);
    assert_eq!(finals, vec![(Token::TagName, vec![vec!["hello-man"]])]);
}

#[test]
fn name_type_group() {
    let finals = run(&[(Token::NameType, &["[(,] - : - [,=]"])], "(name: type = value)");
    assert_eq!(finals, vec![(Token::NameType, vec![vec!["name", "type"]])]);
}

#[test]
fn class_accepts_its_members_only() {
    for c in ['a', 'b', 'c'] {
        let source = format!("{}x", c);
        assert_eq!(spans_of("[abc]-x", &source), vec![vec![Span { start: 1, end: 1 }]]);
    }
    // 'd' is rejected: the attempt resets and the capture never opens.
    assert_eq!(spans_of("[abc]-x", "dx"), Vec::<Vec<Span>>::new());
}

#[test]
fn rejected_plain_target_resets() {
    let mut con = Condex::from_pattern("ab-c").unwrap();
    con.test('a', 0);
    assert_eq!(con.pos, 1);
    con.test('x', 1);
    assert_eq!(con.pos, 0);
    assert!(con.result.is_empty());
    assert_eq!(con.state(), CondexState::Await);
    // "a" then "x" broke the attempt; "ab..c" afterwards matches.
    assert_eq!(spans_of("ab-c", "axabzzc"), vec![vec![Span { start: 4, end: 6 }]]);
}

#[test]
fn two_matches_in_order() {
    let source = "@first( @second(";
    assert_eq!(
        spans_of("@-(", source),
        vec![vec![Span { start: 1, end: 6 }], vec![Span { start: 9, end: 15 }]]
    );
    let finals = run(&[(Token::TagName, &["@-("])], source);
    assert_eq!(finals, vec![(Token::TagName, vec![vec!["first"], vec!["second"]])]);
}

#[test]
fn no_markers_no_groups() {
    assert_eq!(spans_of("abc", "abcabc abc"), Vec::<Vec<Span>>::new());
    assert_eq!(spans_of("[xy]", "xyxy"), Vec::<Vec<Span>>::new());
}

#[test]
fn group_size_equals_marker_count() {
    let groups = spans_of("-a-b-c", "1a2b3c4a5b6c");
    assert_eq!(groups.len(), 2);
    for g in &groups {
        assert_eq!(g.len(), 3);
    }
    assert_eq!(
        groups[0],
        vec![Span { start: 0, end: 1 }, Span { start: 2, end: 3 }, Span { start: 4, end: 5 }]
    );
}

#[test]
fn pattern_whitespace_is_insignificant() {
    let source = "(name: type = value, k: v)";
    let tight = spans_of("[(,]-:-[,=)]", source);
    let spaced = spans_of("  [ ( , ]  -\t:  -\n[,=)] ", source);
    assert_eq!(tight, spaced);
    assert_eq!(tight.len(), 2);
}

#[test]
fn literal_matching_is_case_sensitive() {
    assert_eq!(spans_of("A-b", "a1b"), Vec::<Vec<Span>>::new());
    assert_eq!(spans_of("A-b", "A1b"), vec![vec![Span { start: 1, end: 2 }]]);
}

#[test]
fn resolution_is_repeatable() {
    let source = "@ hello (";
    let g = vec![Span { start: 1, end: 8 }];
    let first = resolve_group(source, &g).unwrap();
    let second = resolve_group(source, &g).unwrap();
    assert_eq!(first, vec!["hello"]);
    assert_eq!(first, second);
}

#[test]
fn resolve_reads_the_covered_text() {
    let source = "abcdef";
    let g = vec![Span { start: 2, end: 4 }, Span { start: 0, end: 0 }];
    assert_eq!(resolve_group(source, &g).unwrap(), vec!["cd", ""]);
}

#[test]
fn offset_resolution_errors() {
    let source = "héllo";
    // byte 2 lies inside the two-byte 'é'
    assert_eq!(
        resolve_group(source, &vec![Span { start: 0, end: 2 }]),
        Err(CondexError::OffsetResolution)
    );
    assert_eq!(
        resolve_group(source, &vec![Span { start: 0, end: 99 }]),
        Err(CondexError::OffsetResolution)
    );
    assert_eq!(
        resolve_group(source, &vec![Span { start: 3, end: 1 }]),
        Err(CondexError::OffsetResolution)
    );
    let mut builder = CondexBuilder::new(&[(Token::TagName, &["@-("][..])]).unwrap();
    for (i, c) in "@abcdefgh(".char_indices() {
        builder.test(c, i);
    }
    assert_eq!(
        builder.finalize_with_source("@ab").unwrap_err(),
        CondexError::OffsetResolution
    );
}

#[test]
fn malformed_patterns_are_refused() {
    for p in ["[ab", "[]", "a-", "--a", "", "   ", "a [ ]", "-"] {
        assert_eq!(Condex::from_pattern(p).err(), Some(CondexError::MalformedPattern), "{}", p);
    }
    assert_eq!(
        Condex::new(&["@-(", "[x"]).err(),
        Some(CondexError::MalformedPattern)
    );
    assert!(CondexBuilder::new(&[(Token::Value, &["=-[,)]", "x-"][..])]).is_err());
}

#[test]
fn condex_new_builds_one_per_pattern() {
    let cons = Condex::new(&["@-(", "[(,]-:-[,=]"]).unwrap();
    assert_eq!(cons.len(), 2);
    assert_eq!(cons[0].result_len, 1);
    assert_eq!(cons[1].result_len, 2);
    assert_eq!(cons[1].elements.len(), 3);
    assert_eq!(cons[1].elements[0].chars, vec!['(', ',']);
}

#[test]
fn input_whitespace_is_never_compared() {
    assert_eq!(spans_of("ab-c", "a \tb x\nc"), vec![vec![Span { start: 4, end: 7 }]]);
}

#[test]
fn byte_offsets_of_multibyte_text() {
    let source = "@héllo wörld(";
    assert_eq!(spans_of("@-(", source), vec![vec![Span { start: 1, end: 14 }]]);
    let finals = run(&[(Token::TagName, &["@-("])], source);
    assert_eq!(finals, vec![(Token::TagName, vec![vec!["héllo wörld"]])]);
}

#[test]
fn unicode_whitespace_in_input_is_ignored() {
    // form feed, no-break space and ideographic space between the targets
    assert_eq!(spans_of("ab-c", "a\u{c}b x\u{a0}c"), vec![vec![Span { start: 3, end: 7 }]]);
    let mut con = Condex::from_pattern("ab").unwrap();
    con.test('a', 0);
    con.test('\u{c}', 1);
    assert_eq!(con.pos, 1);
    con.test('\u{3000}', 2);
    assert_eq!(con.pos, 1);
}

#[test]
fn unicode_whitespace_in_pattern_is_insignificant() {
    let source = "@hello(";
    assert_eq!(spans_of("@-(", source), spans_of("@\u{c}-\u{3000}(\u{a0}", source));
    assert_eq!(spans_of("[\u{a0}(]-x", "(ax"), vec![vec![Span { start: 1, end: 2 }]]);
}

#[test]
fn resolved_text_is_trimmed_of_unicode_whitespace() {
    let source = "@\u{a0}hello\u{3000}(";
    let finals = run(&[(Token::TagName, &["@-("])], source);
    assert_eq!(finals, vec![(Token::TagName, vec![vec!["hello"]])]);
}

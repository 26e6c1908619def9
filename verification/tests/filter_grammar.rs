use chumsky::pratt::{infix, left, prefix};
use chumsky::error::Rich;
use chumsky::primitive::{any, choice, just};
use chumsky::recursive::recursive;
use chumsky::{IterParser, Parser};
use regex::Regex;

use muffle::filter::parser::{parse, ParseErrorKind};
use muffle::filter::{Context, Expr, Port};

/// The grammar as a chumsky parser, built the way the configuration language
/// has always been described, to compare the verified parser against.
#[derive(Debug)]
enum Reference {
    And(Box<Reference>, Box<Reference>),
    Or(Box<Reference>, Box<Reference>),
    Not(Box<Reference>),
    Filter(Port, Regex),
}

type Extra<'a> = chumsky::extra::Err<chumsky::error::Rich<'a, char>>;

fn reference_parser<'a>() -> impl Parser<'a, &'a str, Reference, Extra<'a>> {
    recursive(|expr| {
        let keyword = |s: &'a str| just(s);
        let op = move |s: &'a str| keyword(s).padded();
        let port = choice((
            keyword("input").to(Port::Input),
            keyword("output").to(Port::Output),
        ));
        let regex = just('/')
            .ignore_then(any().filter(|c| *c != '/').repeated().to_slice())
            .then_ignore(just('/'))
            .try_map(|pattern: &str, span| {
                Regex::new(pattern).map_err(|err| Rich::custom(span, err.to_string()))
            });
        let port_filter = port
            .then(regex.padded())
            .map(|(port, regex)| Reference::Filter(port, regex));
        let atom = choice((
            port_filter.padded(),
            just('(')
                .padded()
                .ignore_then(expr.padded())
                .then_ignore(just(')').padded()),
        ));

        atom.pratt((
            prefix(3, op("not"), |_, rhs, _| Reference::Not(Box::new(rhs))),
            infix(left(2), op("and"), |l, _, r, _| {
                Reference::And(Box::new(l), Box::new(r))
            }),
            infix(left(1), op("or"), |l, _, r, _| {
                Reference::Or(Box::new(l), Box::new(r))
            }),
        ))
    })
}

fn canon_reference(e: &Reference) -> String {
    match e {
        Reference::And(l, r) => format!("And({}, {})", canon_reference(l), canon_reference(r)),
        Reference::Or(l, r) => format!("Or({}, {})", canon_reference(l), canon_reference(r)),
        Reference::Not(x) => format!("Not({})", canon_reference(x)),
        Reference::Filter(port, regex) => format!(
            "PortFilter {{ port: {:?}, regex: Pattern {{ source: {:?}, regex: {:?} }} }}",
            port,
            regex.as_str(),
            regex
        ),
    }
}

fn canon(e: &Expr) -> String {
    match e {
        Expr::And(l, r) => format!("And({}, {})", canon(l), canon(r)),
        Expr::Or(l, r) => format!("Or({}, {})", canon(l), canon(r)),
        Expr::Not(x) => format!("Not({})", canon(x)),
        Expr::PortFilter(f) => format!("{:?}", f),
    }
}

fn compare(text: &str) {
    let reference = reference_parser().parse(text).into_result();
    let ours = parse(text);
    match (&reference, &ours) {
        (Ok(r), Ok(o)) => assert_eq!(canon_reference(r), canon(o), "different trees for {text:?}"),
        (Err(_), Err(_)) => {}
        _ => panic!(
            "parsers disagree on {text:?}: reference {:?}, ours {:?}",
            reference.is_ok(),
            ours.is_ok()
        ),
    }
}

#[test]
fn agrees_with_reference_grammar_on_combinations() {
    let pieces = [
        "input /a/",
        "output /b b/",
        "input/c/",
        "not",
        "and",
        "or",
        "(",
        ")",
        " ",
        "\n",
        "input /(/",
        "inputx",
        "/",
        "x",
    ];
    let mut count = 0;
    for a in pieces.iter() {
        compare(a);
        for b in pieces.iter() {
            compare(&format!("{a}{b}"));
            for c in pieces.iter() {
                compare(&format!("{a}{b}{c}"));
                for d in pieces.iter() {
                    compare(&format!("{a} {b}{c} {d}"));
                    count += 1;
                }
            }
        }
    }
    assert!(count > 0);
}

#[test]
fn agrees_with_reference_grammar_on_samples() {
    let samples = [
        "",
        "   ",
        "input /Discord/",
        "output /firefox/ and input /WEBRTC/",
        "not input /a/ and output /b/",
        "not not input /a/",
        "input /a/ or input /b/ and input /c/",
        "input /a/ and input /b/ or input /c/",
        "input /a/ and input /b/ and input /c/",
        "input /a/ or input /b/ or input /c/",
        "(input /a/ or input /b/) and input /c/",
        "notinput/a/andoutput/b/orinput/c/",
        "input /a/ and",
        "input /a/ andinput /b/",
        "input /a/ android",
        "input /a/ output /b/",
        "( input /a/ )",
        "((input /a/))",
        "(input /a/",
        "input /a/)",
        "input /unterminated",
        "input",
        "input //",
        "output\t/\t x\t/",
        "input /[/",
        "input /a/ or input /(/",
        "not",
        "\u{3000}input\u{2028}/a/\u{85}",
        "input /é/ and output /ü/",
    ];
    for s in samples {
        compare(s);
    }
}

#[test]
fn not_binds_tighter_than_and_and_and_tighter_than_or() {
    let e = parse("not input /a/ and input /b/ or input /c/").unwrap();
    let text = canon(&e);
    assert!(text.starts_with("Or(And(Not("), "{text}");
}

#[test]
fn binary_operators_associate_to_the_left() {
    let e = parse("input /a/ and input /b/ and input /c/").unwrap();
    assert!(canon(&e).starts_with("And(And("));
    let e = parse("input /a/ or input /b/ or input /c/").unwrap();
    assert!(canon(&e).starts_with("Or(Or("));
}

#[test]
fn error_kinds() {
    let e = parse("input /a/ $").unwrap_err();
    assert_eq!(e.kind, ParseErrorKind::Token);
    assert_eq!((e.start, e.end), (10, 11));

    let e = parse("input /unterminated").unwrap_err();
    assert_eq!(e.kind, ParseErrorKind::Token);

    let e = parse("input /a/ and").unwrap_err();
    assert_eq!(e.kind, ParseErrorKind::Grammar);
    assert_eq!((e.start, e.end), (13, 13));

    let e = parse("(input /a/").unwrap_err();
    assert_eq!(e.kind, ParseErrorKind::Grammar);

    let e = parse("input /a/ input /b/").unwrap_err();
    assert_eq!(e.kind, ParseErrorKind::Grammar);
    assert_eq!((e.start, e.end), (10, 19));

    let e = parse("").unwrap_err();
    assert_eq!(e.kind, ParseErrorKind::Grammar);
    assert_eq!((e.start, e.end), (0, 0));

    let e = parse("input /a/ or output /(/").unwrap_err();
    assert_eq!(e.kind, ParseErrorKind::Regex);
    assert_eq!((e.start, e.end), (20, 23));
    assert!(!e.reason.is_empty());
}

#[test]
fn regex_error_reason_is_the_regex_crates_message_for_the_first_bad_pattern() {
    let e = parse("not (input /a/ and output /(/) or input /[/").unwrap_err();
    assert_eq!(e.kind, ParseErrorKind::Regex);
    assert_eq!(e.reason, Regex::new("(").unwrap_err().to_string());
    assert_ne!(e.reason, Regex::new("[").unwrap_err().to_string());
    assert_eq!((e.start, e.end), (26, 29));
}

#[test]
fn syntax_errors_win_over_bad_patterns() {
    let e = parse("input /(/ and").unwrap_err();
    assert_eq!(e.kind, ParseErrorKind::Grammar);
}

#[test]
fn spans_count_characters() {
    let e = parse("input /é/ §").unwrap_err();
    assert_eq!(e.kind, ParseErrorKind::Token);
    assert_eq!((e.start, e.end), (10, 11));

    let e = parse("not output /é(/").unwrap_err();
    assert_eq!(e.kind, ParseErrorKind::Regex);
    assert_eq!((e.start, e.end), (11, 15));
}

#[test]
fn evaluation_follows_the_tree() {
    let e = parse("output /^Discord$/ and not input /fire/").unwrap();
    let ctx = |o, i| Context {
        output_name: o,
        input_name: i,
    };
    assert!(e.eval(&ctx("Discord", "WEBRTC VoiceEngine")));
    assert!(!e.eval(&ctx("Discord", "firefox")));
    assert!(!e.eval(&ctx("Discordia", "WEBRTC")));

    let e = parse("input /a/ or output /b/").unwrap();
    assert!(e.eval(&ctx("b", "x")));
    assert!(e.eval(&ctx("x", "a")));
    assert!(!e.eval(&ctx("x", "x")));
}

#[test]
fn port_filter_looks_at_its_own_end() {
    let e = parse("input /x/").unwrap();
    match &e {
        Expr::PortFilter(f) => {
            assert!(f.eval(&Context {
                output_name: "",
                input_name: "xyz",
            }));
            assert!(!f.eval(&Context {
                output_name: "xyz",
                input_name: "",
            }));
        }
        _ => panic!("expected a port filter"),
    }
}

#[test]
fn empty_pattern_matches_everything() {
    let e = parse("output //").unwrap();
    assert!(e.eval(&Context {
        output_name: "",
        input_name: "",
    }));
}

#[test]
fn fully_parenthesised_rendering_reads_back() {
    let texts = [
        "not (input /a/)",
        "(input /a/) and (output /b/)",
        "(not (input /a/)) or ((output /b/) and (input /c/))",
    ];
    for t in texts {
        let e = parse(t).unwrap();
        let again = parse(&render(&e)).unwrap();
        assert_eq!(canon(&e), canon(&again));
    }
}

fn render(e: &Expr) -> String {
    match e {
        Expr::And(l, r) => format!("({}) and ({})", render(l), render(r)),
        Expr::Or(l, r) => format!("({}) or ({})", render(l), render(r)),
        Expr::Not(x) => format!("not ({})", render(x)),
        Expr::PortFilter(f) => {
            let dbg = format!("{:?}", f);
            let port = if dbg.contains("port: Input") { "input" } else { "output" };
            let start = dbg.find("source: \"").unwrap() + "source: \"".len();
            let end = start + dbg[start..].find('"').unwrap();
            format!("{} /{}/", port, &dbg[start..end])
        }
    }
}

#[test]
fn surrounding_whitespace_changes_nothing() {
    let texts = ["input /a/ and not output /b c/", "(input /x/", "output /y/ or"];
    let pads = [("", ""), ("  \t", "\n "), ("\u{2003}", "\u{3000}\r\n")];
    for t in texts {
        for (before, after) in pads {
            let padded = format!("{before}{t}{after}");
            match (parse(t), parse(&padded)) {
                (Ok(a), Ok(b)) => assert_eq!(canon(&a), canon(&b)),
                (Err(a), Err(b)) => assert_eq!(a.kind, b.kind),
                _ => panic!("{t:?} and {padded:?} read differently"),
            }
        }
    }
}

#[test]
fn error_spans_and_reasons() {
    let cases = [
        ("input /ab", ParseErrorKind::Token, (6, 9), "unterminated pattern: expected a closing '/'"),
        ("input x", ParseErrorKind::Token, (6, 7), "expected a pattern between '/' characters"),
        (
            "not ?",
            ParseErrorKind::Token,
            (4, 5),
            "unexpected character: expected 'input', 'output', 'not', 'and', 'or', '(' or ')'",
        ),
        ("(input /a/", ParseErrorKind::Grammar, (10, 10), "expected ')'"),
        ("not and", ParseErrorKind::Grammar, (4, 7), "expected a filter, 'not' or '('"),
        (
            "input /a/ or",
            ParseErrorKind::Grammar,
            (12, 12),
            "unexpected end of input: expected a filter, 'not' or '('",
        ),
        (
            "input /a/ (output /b/)",
            ParseErrorKind::Grammar,
            (10, 11),
            "expected 'and', 'or' or the end of the filter",
        ),
    ];
    for (text, kind, span, reason) in cases {
        let e = parse(text).unwrap_err();
        assert_eq!(e.kind, kind, "{text:?}");
        assert_eq!((e.start, e.end), span, "{text:?}");
        assert_eq!(e.reason, reason, "{text:?}");
    }
}

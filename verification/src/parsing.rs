//! Rendering parse errors as annotated reports of the offending text.

use ariadne::{Label, Report, ReportKind, Source};
use vstd::prelude::*;

use crate::filter::parser::ParseError;

verus! {

/// The bytes of the report that `ariadne` writes (through
/// `Report::write_for_stdout`, with its default configuration) for an error
/// with the given title, labelling the characters `start..end` of `source`
/// with `reason`, when `colours[i]` tells whether the `i`-th styled piece of
/// the report is written with its colour codes. (ariadne styles through
/// `yansi`, which asks its process-wide switch anew for every piece.)
pub uninterp spec fn ariadne_report(
    title: Seq<char>,
    start: nat,
    end: nat,
    reason: Seq<char>,
    source: Seq<char>,
    colours: Seq<bool>,
) -> Seq<u8>;

/// What `String::from_utf8_lossy` makes of `bytes`.
pub uninterp spec fn utf8_lossy(bytes: Seq<u8>) -> Seq<char>;

/// Builds an `ariadne` error report and writes it into `output`.
///
/// Trusted: the bytes appended are `ariadne_report` of the arguments for some
/// sequence of colour decisions (which `yansi`'s global switch makes while
/// the report is written, so nothing more is said of them); writing into a
/// `Vec` cannot fail. Requires the span to lie within `source`.
#[verifier::external_body]
fn write_report(
    title: &str,
    start: usize,
    end: usize,
    reason: &str,
    source: &str,
    output: &mut Vec<u8>,
)
    requires
        start <= end <= source@.len(),
    ensures
        exists|colours: Seq<bool>|
            final(output)@ == old(output)@ + #[trigger] ariadne_report(
                title@,
                start as nat,
                end as nat,
                reason@,
                source@,
                colours,
            ),
{
    Report::build(ReportKind::Error, start..end)
        .with_message(title)
        .with_label(Label::new(start..end).with_message(reason))
        .finish()
        .write_for_stdout(Source::from(source), &mut *output)
        .unwrap();
}

/// Decodes `bytes` with `String::from_utf8_lossy`.
///
/// Trusted: the result is `utf8_lossy` of the bytes.
#[verifier::external_body]
fn string_from_utf8_lossy(bytes: &[u8]) -> (res: String)
    ensures
        res@ == utf8_lossy(bytes@),
{
    String::from_utf8_lossy(bytes).into_owned()
}

pub open spec fn report_title() -> Seq<char> {
    "Failed to parse"@
}

/// The reports of `errors`, one after the other, the `i`-th written with the
/// colour decisions `colours[i]`.
pub open spec fn reports(errors: Seq<ParseError>, source: Seq<char>, colours: Seq<Seq<bool>>) -> Seq<u8>
    decreases errors.len(),
{
    if errors.len() == 0 {
        seq![]
    } else {
        let e = errors.last();
        reports(errors.drop_last(), source, colours.drop_last()) + ariadne_report(
            report_title(),
            e.start as nat,
            e.end as nat,
            e.reason@,
            source,
            colours.last(),
        )
    }
}

/// Renders each error as a "Failed to parse" report that labels its span of
/// `input` with its reason.
pub fn format_errors(errs: &[ParseError], input: &str) -> (res: String)
    requires
        forall|i: int| 0 <= i < errs@.len() ==> #[trigger] errs@[i].start <= errs@[i].end <= input@.len(),
    ensures
        exists|colours: Seq<Seq<bool>>|
            colours.len() == errs@.len() && res@ == utf8_lossy(#[trigger] reports(errs@, input@, colours)),
{
    let mut output: Vec<u8> = Vec::new();
    let mut i: usize = 0;
    let ghost mut colours: Seq<Seq<bool>> = seq![];
    while i < errs.len()
        invariant
            i <= errs@.len(),
            forall|k: int| 0 <= k < errs@.len() ==> #[trigger] errs@[k].start <= errs@[k].end <= input@.len(),
            colours.len() == i,
            output@ == reports(errs@.subrange(0, i as int), input@, colours),
        decreases errs@.len() - i,
    {
        let err = &errs[i];
        assert(errs@[i as int].start <= errs@[i as int].end <= input@.len());
        let ghost before = output@;
        write_report("Failed to parse", err.start, err.end, err.reason.as_str(), input, &mut output);
        proof {
            let c = choose|c: Seq<bool>|
                output@ == before + #[trigger] ariadne_report(
                    "Failed to parse"@,
                    err.start as nat,
                    err.end as nat,
                    err.reason@,
                    input@,
                    c,
                );
            let next = errs@.subrange(0, i + 1);
            assert(next.drop_last() =~= errs@.subrange(0, i as int));
            assert(colours.push(c).drop_last() =~= colours);
            colours = colours.push(c);
        }
        i = i + 1;
    }
    assert(errs@.subrange(0, errs@.len() as int) =~= errs@);
    string_from_utf8_lossy(output.as_slice())
}

} // verus!

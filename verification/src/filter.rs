//! Filter expressions that decide which links are cut.

use vstd::prelude::*;

use crate::filter::parser::{parse, parse_error_spec, parse_spec, patterns_valid, ParseError};
use crate::parsing::{ariadne_report, format_errors, report_title, utf8_lossy};
use crate::pattern::{regex_is_match, Pattern};

pub mod lexer;
pub mod parser;
pub mod render;
pub mod spacing;

verus! {

/// The names of the two ends of a link, as a filter sees them.
pub struct Context<'a> {
    pub output_name: &'a str,
    pub input_name: &'a str,
}

/// Which end of a link a filter looks at.
#[derive(Copy, Clone, Debug, PartialEq, Eq, Structural)]
pub enum Port {
    Input,
    Output,
}

/// `input /regex/` or `output /regex/`: matches when the regex matches the
/// name of that end of the link.
#[derive(Debug)]
pub struct PortFilter {
    port: Port,
    regex: Pattern,
}

/// A filter expression.
#[derive(Debug)]
pub enum Expr {
    And(Box<Expr>, Box<Expr>),
    Or(Box<Expr>, Box<Expr>),
    Not(Box<Expr>),
    PortFilter(PortFilter),
}

/// The mathematical model of a filter expression: the tree, with each port
/// filter's pattern taken as its source text.
pub enum ExprModel {
    And(Box<ExprModel>, Box<ExprModel>),
    Or(Box<ExprModel>, Box<ExprModel>),
    Not(Box<ExprModel>),
    Match(Port, Seq<char>),
}

/// The name that a filter on `port` looks at.
pub open spec fn port_name(port: Port, output_name: Seq<char>, input_name: Seq<char>) -> Seq<char> {
    match port {
        Port::Input => input_name,
        Port::Output => output_name,
    }
}

/// What an expression evaluates to for a link with the given end names.
pub open spec fn eval_model(e: ExprModel, output_name: Seq<char>, input_name: Seq<char>) -> bool
    decreases e,
{
    match e {
        ExprModel::And(l, r) => eval_model(*l, output_name, input_name) && eval_model(
            *r,
            output_name,
            input_name,
        ),
        ExprModel::Or(l, r) => eval_model(*l, output_name, input_name) || eval_model(
            *r,
            output_name,
            input_name,
        ),
        ExprModel::Not(x) => !eval_model(*x, output_name, input_name),
        ExprModel::Match(port, pattern) => regex_is_match(
            pattern,
            port_name(port, output_name, input_name),
        ),
    }
}

/// What the connectives mean, for every expression and every pair of names:
/// `and` holds exactly when both operands hold, `or` exactly when at least
/// one does (so also when both do), `not` exactly when its operand does not,
/// and a port filter exactly when its pattern matches the name at its own
/// end of the link.
pub proof fn law_eval_connectives(
    l: ExprModel,
    r: ExprModel,
    pattern: Seq<char>,
    output_name: Seq<char>,
    input_name: Seq<char>,
)
    ensures
        eval_model(ExprModel::And(Box::new(l), Box::new(r)), output_name, input_name) == (
        eval_model(l, output_name, input_name) && eval_model(r, output_name, input_name)),
        eval_model(ExprModel::Or(Box::new(l), Box::new(r)), output_name, input_name) == (
        eval_model(l, output_name, input_name) || eval_model(r, output_name, input_name)),
        eval_model(ExprModel::Not(Box::new(l)), output_name, input_name) == !eval_model(
            l,
            output_name,
            input_name,
        ),
        eval_model(ExprModel::Match(Port::Input, pattern), output_name, input_name)
            == regex_is_match(pattern, input_name),
        eval_model(ExprModel::Match(Port::Output, pattern), output_name, input_name)
            == regex_is_match(pattern, output_name),
{
}

impl View for PortFilter {
    type V = (Port, Seq<char>);

    closed spec fn view(&self) -> (Port, Seq<char>) {
        (self.port, self.regex@)
    }
}

impl PortFilter {
    pub(crate) fn new(port: Port, regex: Pattern) -> (res: Self)
        ensures
            res@ == (port, regex@),
    {
        PortFilter { port, regex }
    }

    /// Whether the filter's regex matches the name of its end of the link.
    pub fn eval(&self, context: &Context<'_>) -> (res: bool)
        ensures
            res == regex_is_match(
                self@.1,
                port_name(self@.0, context.output_name@, context.input_name@),
            ),
    {
        let name = match self.port {
            Port::Input => context.input_name,
            Port::Output => context.output_name,
        };
        self.regex.is_match(name)
    }
}

impl View for Expr {
    type V = ExprModel;

    open spec fn view(&self) -> ExprModel
        decreases self,
    {
        match self {
            Expr::And(l, r) => ExprModel::And(Box::new((**l)@), Box::new((**r)@)),
            Expr::Or(l, r) => ExprModel::Or(Box::new((**l)@), Box::new((**r)@)),
            Expr::Not(x) => ExprModel::Not(Box::new((**x)@)),
            Expr::PortFilter(f) => ExprModel::Match(f@.0, f@.1),
        }
    }
}

impl Expr {
    /// Evaluates the expression for a link whose ends carry the names in `context`.
    pub fn eval(&self, context: &Context<'_>) -> (res: bool)
        ensures
            res == eval_model(self@, context.output_name@, context.input_name@),
        decreases self,
    {
        match self {
            Expr::And(lhs, rhs) => lhs.eval(context) && rhs.eval(context),
            Expr::Or(lhs, rhs) => lhs.eval(context) || rhs.eval(context),
            Expr::Not(expr) => !expr.eval(context),
            Expr::PortFilter(filter) => filter.eval(context),
        }
    }

    /// Reads an expression from the text of a configuration entry; when the
    /// text is not a valid filter, the error comes back as a rendered report
    /// of the error that `parse` finds.
    pub fn from_text(text: &str) -> (res: Result<Expr, String>)
        ensures
            res is Ok <==> (parse_spec(text@) matches Some(e) && patterns_valid(e)),
            res matches Ok(e) ==> parse_spec(text@) == Some(e@),
            res matches Err(message) ==> exists|colours: Seq<bool>|
                message@ == utf8_lossy(
                    #[trigger] ariadne_report(
                        report_title(),
                        parse_error_spec(text@).1 as nat,
                        parse_error_spec(text@).2 as nat,
                        parse_error_spec(text@).3,
                        text@,
                        colours,
                    ),
                ),
    {
        match parse(text) {
            Ok(expr) => Ok(expr),
            Err(err) => {
                let ghost (start, end, reason) = (err.start as nat, err.end as nat, err.reason@);
                let mut errs: Vec<ParseError> = Vec::new();
                errs.push(err);
                let message = format_errors(errs.as_slice(), text);
                proof {
                    let s = errs@;
                    let cs = choose|cs: Seq<Seq<bool>>|
                        cs.len() == s.len() && message@ == utf8_lossy(
                            #[trigger] crate::parsing::reports(s, text@, cs),
                        );
                    assert(s.drop_last() =~= Seq::<ParseError>::empty());
                    assert(s.last().start == start && s.last().end == end && s.last().reason@ == reason);
                    assert(crate::parsing::reports(s.drop_last(), text@, cs.drop_last()) =~= Seq::<
                        u8,
                    >::empty());
                    assert(crate::parsing::reports(s, text@, cs) =~= ariadne_report(
                        report_title(),
                        start,
                        end,
                        reason,
                        text@,
                        cs.last(),
                    ));
                    assert(parse_error_spec(text@).1 as nat == start);
                    assert(parse_error_spec(text@).2 as nat == end);
                    assert(parse_error_spec(text@).3 == reason);
                    assert(message@ == utf8_lossy(
                        ariadne_report(report_title(), start, end, reason, text@, cs.last()),
                    ));
                }
                Err(message)
            },
        }
    }
}

} // verus!

//! The configuration: which links to cut.

use vstd::prelude::*;

use crate::filter::{Expr, ExprModel};

verus! {

/// The configuration file's contents.
#[derive(Debug)]
pub struct Config {
    /// Only report the links that the filters match, without cutting them.
    pub log_only: bool,
    /// A link is cut when any of these filters matches it.
    pub unlink: Vec<Expr>,
}

/// The model of a configuration.
pub struct ConfigModel {
    pub log_only: bool,
    pub unlink: Seq<ExprModel>,
}

pub open spec fn exprs_model(exprs: Seq<Expr>) -> Seq<ExprModel> {
    exprs.map_values(|e: Expr| e@)
}

impl View for Config {
    type V = ConfigModel;

    open spec fn view(&self) -> ConfigModel {
        ConfigModel { log_only: self.log_only, unlink: exprs_model(self.unlink@) }
    }
}

} // verus!

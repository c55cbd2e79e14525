//! Engine of a parallel search-and-replace tool for byte patterns: the
//! matchers, the decisions of every pipeline stage, the ignore rules and the
//! rewriting of matched files, each with a machine-checked contract.

pub mod ambr;
pub mod ambs;
pub mod bin;
pub mod console;
pub mod ignore;
pub mod matcher;
pub mod matcher_fjs;
pub mod matcher_laws;
pub mod matcher_regex;
pub mod path_finder;
pub mod pipeline;
pub mod pipeline_filter;
pub mod pipeline_finder;
pub mod pipeline_matcher;
pub mod pipeline_printer;
pub mod pipeline_queue;
pub mod pipeline_replacer;
pub mod pipeline_sorter;
pub mod util;

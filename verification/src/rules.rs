//! Rule packages.

pub mod acceptance_laws;
pub mod catalog;
pub mod catalog_laws;
pub mod edit;
pub mod file_laws;
pub mod group;
pub mod group_laws;
pub mod grouping_laws;
pub mod match_laws;
pub mod matcher;
pub mod merge;
pub mod merge_laws;
pub mod model;
pub mod source;
pub mod source_laws;
pub mod taking_laws;
pub mod validate;

pub use group::swap_groups;
pub use matcher::Matcher;
pub use model::{
    Field, Layout, LogFile, Rule, RuleSet, Source, SystemRule, TimelineConfig, TimelineEventRule,
    TimelineJudgementRule, TimelineThresholds,
};

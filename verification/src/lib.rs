//! Verified core of the ferrum statistical-transform engine: the logic that
//! decides how rows are grouped, ordered, reshaped and labelled, and how a
//! transform pipeline routes its named outputs.

pub mod text;
pub mod dtype;
pub mod column;
pub mod order;
pub mod group_key;
pub mod partition;
pub mod pipeline;
pub mod window;
pub mod glm;
pub mod defaults;
pub mod options;
pub mod reshape;
pub mod stat_groups;
pub mod chacha_stream;
pub mod bootstrap;
pub mod letter_value;
pub mod contour;
pub mod grouped_ops;
pub mod hexbin;
pub mod config;
pub mod binning;

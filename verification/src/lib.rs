pub mod aggregate;
pub mod aggregate_function;
pub mod alias;
pub mod caches;
pub mod children;
pub mod claims;
pub mod codec;
pub mod codec_types;
pub mod column;
pub mod constraints;
pub mod df_schema;
pub mod field_bytes;
pub mod grouped;
pub mod hints;
pub mod indexed;
pub mod join;
pub mod join_mode;
pub mod join_plan;
pub mod join_report;
pub mod join_scope;
pub mod join_wiring;
pub mod like;
pub mod like_scan;
pub mod limit;
pub mod literal;
pub mod metadata;
pub mod nodes;
pub mod plan;
pub mod plan_copy;
pub mod rematerialize;
pub mod resolve;
pub mod schema;
pub mod seqs;
pub mod sort;
pub mod table;
pub mod text;
pub mod text_map;

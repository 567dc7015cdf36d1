//! Composable, typed unit graphs: graph compilation, conservative storage
//! planning, bounded run reporting, and a YAML definition frontend.

pub mod text;
pub mod ids;
pub mod types;
pub mod descriptor;
pub mod options;
pub mod sort;
pub mod topo;
pub mod compile;
pub mod resolve;
pub mod dense;
pub mod storage;
pub mod report;
pub mod module;
pub mod render;
pub mod inspection;
pub mod runtime_plan;
pub mod runtime;
pub mod yaml_syntax;
pub mod frontend;
pub mod debug;
pub mod navigation;
pub mod normal_form;
pub mod declaration_order;
pub mod dynamic_run;
pub mod error_text;

//! Message-descriptor extraction logic of the formatjs transform: whitespace
//! normalization of messages, interpolation of content-hash ids, option
//! validation and the rewriting of message descriptors found in calls and
//! JSX elements.

pub mod ast;
pub mod call;
pub mod config;
pub mod descriptor;
pub mod digest;
pub mod extract;
pub mod hash;
pub mod jsx;
pub mod text;
pub mod whitespace;

pub use ast::{CallExpr, Expr, ExprKind, JsxAttr, JsxAttrKind, JsxAttrName, JsxAttrValue, JsxOpening, MemberProp, ObjectLit, Prop, PropKind, PropName, Span};
pub use config::{formatjs, Config, ConfigError, FormatJsTransform, DEFAULT_ID_INTERPOLATION_PATTERN};
pub use descriptor::{DescriptorError, DescriptorKey, ExprShape, TransformError};
pub use hash::{interpolate_pattern, validate_pattern, PatternError};
pub use whitespace::normalize_whitespace;

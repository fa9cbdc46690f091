//! Analysis of whether an older interface can be implemented ("polyfilled")
//! purely by calling a newer version of that interface.
//!
//! Two parsed interface documents and a mapping from new-module name to
//! old-module name go in; a [`polyfill::Polyfill`] value tree comes out,
//! which pairs functions and parameters by name, classifies the type of each
//! pair under a representability relation, and renders a textual report.

pub mod ast;
pub mod id;
pub mod laws;
pub mod polyfill;
pub mod report;
pub mod representation;

pub use polyfill::FuncPolyfill;
pub use polyfill::ModulePolyfill;
pub use polyfill::ParamPolyfill;
pub use polyfill::ParamUnknown;
pub use polyfill::Polyfill;
pub use polyfill::PolyfillError;

pub use ast::BuiltinType;
pub use ast::Document;
pub use ast::InterfaceFunc;
pub use ast::InterfaceFuncParam;
pub use ast::Module;
pub use ast::TypeRef;
pub use id::Id;
pub use representation::RepEquality;

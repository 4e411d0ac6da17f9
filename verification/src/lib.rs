pub mod text;
pub mod strmap;
pub mod bytes;
pub mod sorting;
pub mod exec;
pub mod vir;
pub mod decode;
pub mod protocol;
pub mod runtime;
pub mod binding;
pub mod support;
pub mod diagnostic;
pub mod fetch;
pub mod compiler;
pub mod tools;
pub mod command;
pub mod modules;
pub mod attributes;
pub mod lint;
pub mod trace;
pub mod signature;
pub mod inference;
pub mod prelude;
pub mod patterns;
pub mod methods;
pub mod lowering;
pub mod surface;
pub mod values;

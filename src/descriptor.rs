//! The schema as this library reads it: files, messages, fields, enums and
//! services, with the comments attached to them.

use vstd::prelude::*;
use prost_types::{MethodOptions, ServiceOptions};

verus! {

#[verifier::external_type_specification]
#[verifier::external_body]
pub struct ExMethodOptions(MethodOptions);

#[verifier::external_type_specification]
#[verifier::external_body]
pub struct ExServiceOptions(ServiceOptions);

/// Relies on `<MethodOptions as Clone>::clone`: a copy of the options, which
/// are handed on unexamined.
#[verifier::external_body]
pub(crate) fn copy_method_options(o: &MethodOptions) -> (r: MethodOptions) {
    o.clone()
}

/// Relies on `<ServiceOptions as Clone>::clone`: a copy of the options, which
/// are handed on unexamined.
#[verifier::external_body]
pub(crate) fn copy_service_options(o: &ServiceOptions) -> (r: ServiceOptions) {
    o.clone()
}

/// The wire type of a field.
#[derive(Debug, Clone, Copy, PartialEq, Eq, Structural)]
pub enum FieldType {
    Double,
    Float,
    Int64,
    Uint64,
    Int32,
    Fixed64,
    Fixed32,
    Bool,
    String,
    Group,
    Message,
    Bytes,
    Uint32,
    Enum,
    Sfixed32,
    Sfixed64,
    Sint32,
    Sint64,
}

/// The cardinality of a field.
#[derive(Debug, Clone, Copy, PartialEq, Eq, Structural)]
pub enum Label {
    Optional,
    Required,
    Repeated,
}

/// The dialect a file is written in.
#[derive(Debug, Clone, Copy, PartialEq, Eq, Structural)]
pub enum Syntax {
    /// `proto2`: optional fields track presence, packing is opt-in.
    Proto2,
    /// `proto3`: scalars are always present, packing is on by default.
    Proto3,
}

/// One field of a message.
#[derive(Debug)]
pub struct FieldDescriptor {
    pub name: String,
    pub number: i32,
    pub label: Label,
    pub field_type: FieldType,
    /// Fully-qualified name of the message or enum type, empty for scalars.
    pub type_ref: String,
    pub default_value: Option<String>,
    pub oneof_index: Option<i32>,
    /// The `packed` option, when the schema sets it.
    pub packed: Option<bool>,
}

/// One `oneof` group of a message.
#[derive(Debug)]
pub struct OneofDescriptor {
    pub name: String,
}

/// One value of an enum.
#[derive(Debug)]
pub struct EnumValueDescriptor {
    pub name: String,
    pub number: i32,
}

/// An enum type.
#[derive(Debug)]
pub struct EnumDescriptor {
    pub name: String,
    pub values: Vec<EnumValueDescriptor>,
}

/// A message type.
#[derive(Debug)]
pub struct MessageDescriptor {
    pub name: String,
    pub fields: Vec<FieldDescriptor>,
    pub oneofs: Vec<OneofDescriptor>,
    pub nested: Vec<MessageDescriptor>,
    pub enums: Vec<EnumDescriptor>,
    /// Set on the synthetic entry type that stands for a map field.
    pub map_entry: bool,
}

/// One method of a service.
#[derive(Debug)]
pub struct MethodDescriptor {
    pub name: String,
    pub input_type: String,
    pub output_type: String,
    pub client_streaming: bool,
    pub server_streaming: bool,
    /// The method's options, passed through to the service generator.
    pub options: MethodOptions,
}

/// A service.
#[derive(Debug)]
pub struct ServiceDescriptor {
    pub name: String,
    pub methods: Vec<MethodDescriptor>,
    /// The service's options, passed through to the service generator.
    pub options: ServiceOptions,
}

/// The comment attached to the declaration at a structural path.
#[derive(Debug)]
pub struct Location {
    pub path: Vec<i32>,
    pub lines: Vec<String>,
}

/// One schema file.
#[derive(Debug)]
pub struct FileDescriptor {
    pub package: String,
    pub syntax: Option<String>,
    pub messages: Vec<MessageDescriptor>,
    pub enums: Vec<EnumDescriptor>,
    pub services: Vec<ServiceDescriptor>,
    pub locations: Vec<Location>,
}

} // verus!

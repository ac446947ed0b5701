//! Decisions made for one field or one type: its Rust type, its wire tag, its
//! container, and whether it needs a box.

use vstd::prelude::*;
use crate::config::{known_of, known_type, Config};
use crate::descriptor::{FieldDescriptor, FieldType, Label, Syntax};
use crate::graph::MessageGraph;
use crate::resolve::{is_qualified, resolve_ident, resolved, views};
use crate::text::chars_of;

verus! {

/// Why a file could not be lowered.
#[derive(Debug, Clone, Copy, PartialEq, Eq)]
pub enum GenError {
    /// The file names a syntax other than `proto2` and `proto3`.
    UnknownSyntax,
    /// A type name does not start with a dot.
    NotQualified,
    /// No comment entry exists for the path of a declaration.
    MissingComment,
    /// The oneof indices of the fields do not name exactly the declared oneofs.
    OneofMismatch,
    /// A map entry type does not hold exactly the fields `key` and `value`.
    MalformedMapEntry,
    /// A `bytes` default value is not a valid escaped literal.
    BadDefault,
    /// Types are nested deeper than the indentation counter allows.
    TooDeep,
}

/// The dialect named by a file's syntax string; no string means `proto2`.
pub open spec fn syntax_of(s: Option<Seq<char>>) -> Option<Syntax> {
    match s {
        None => Some(Syntax::Proto2),
        Some(t) => if t == "proto2"@ {
            Some(Syntax::Proto2)
        } else if t == "proto3"@ {
            Some(Syntax::Proto3)
        } else {
            None
        },
    }
}

/// Reads the dialect of a file.
pub fn parse_syntax(s: &Option<String>) -> (r: Result<Syntax, GenError>)
    ensures
        match syntax_of(match s { Some(t) => Some(t@), None => None }) {
            Some(x) => r == Ok::<Syntax, GenError>(x),
            None => r == Err::<Syntax, GenError>(GenError::UnknownSyntax),
        },
{
    match s {
        None => Ok(Syntax::Proto2),
        Some(t) => {
            let c = chars_of(t.as_str());
            if crate::config::str_is(c.as_slice(), "proto2") {
                Ok(Syntax::Proto2)
            } else if crate::config::str_is(c.as_slice(), "proto3") {
                Ok(Syntax::Proto3)
            } else {
                Err(GenError::UnknownSyntax)
            }
        },
    }
}

/// Whether a repeated field of this type can be packed.
pub open spec fn packable(t: FieldType) -> bool {
    !(t == FieldType::String || t == FieldType::Bytes || t == FieldType::Message || t == FieldType::Group)
}

/// Returns `true` if a repeated field of type `t` can be packed.
pub fn can_pack(t: FieldType) -> (r: bool)
    ensures
        r == packable(t),
{
    match t {
        FieldType::String | FieldType::Bytes | FieldType::Message | FieldType::Group => false,
        _ => true,
    }
}

/// Whether a field is wrapped in `Option`: an optional field of the legacy
/// `proto2` dialect, whatever its type. In `proto3` a singular field, of a
/// message type too, is written without the wrapper.
pub open spec fn is_optional(syntax: Syntax, f: FieldDescriptor) -> bool {
    f.label == Label::Optional && syntax == Syntax::Proto2
}

/// Whether the field is wrapped in `Option`.
pub fn optional(syntax: Syntax, f: &FieldDescriptor) -> (r: bool)
    ensures
        r == is_optional(syntax, *f),
{
    f.label == Label::Optional && syntax == Syntax::Proto2
}

/// Whether a repeated field is packed: as its option says, else by default
/// in `proto3` only.
pub open spec fn is_packed(syntax: Syntax, f: FieldDescriptor) -> bool {
    match f.packed {
        Some(p) => p,
        None => syntax == Syntax::Proto3,
    }
}

/// Whether a repeated field carries `packed="false"`: it could be packed but
/// is not.
pub open spec fn unpacked_mark(syntax: Syntax, f: FieldDescriptor) -> bool {
    packable(f.field_type) && !is_packed(syntax, f)
}

/// Whether the field's tag says `packed="false"`.
pub fn needs_unpacked_mark(syntax: Syntax, f: &FieldDescriptor) -> (r: bool)
    ensures
        r == unpacked_mark(syntax, *f),
{
    let packed = match f.packed {
        Some(p) => p,
        None => syntax == Syntax::Proto3,
    };
    can_pack(f.field_type) && !packed
}

/// Whether a field of a message named `msg` is boxed: it is a non-repeated
/// message field whose type holds `msg`.
pub open spec fn is_boxed(graph: MessageGraph, msg: Seq<char>, f: FieldDescriptor) -> bool {
    f.label != Label::Repeated && f.field_type == FieldType::Message && graph.nests(f.type_ref@, msg)
}

/// Whether the field needs a `Box` to break a recursive type.
pub fn field_boxed(graph: &MessageGraph, msg: &str, f: &FieldDescriptor) -> (r: bool)
    ensures
        r == is_boxed(*graph, msg@, *f),
{
    f.label != Label::Repeated && f.field_type == FieldType::Message
        && graph.is_nested(f.type_ref.as_str(), msg)
}

/// A non-repeated field of a message type is boxed when its type is the
/// message itself or a type with a field of the message's type; it is not
/// boxed when its type does not hold the message at all.
pub proof fn lemma_recursive_fields_boxed(graph: MessageGraph, msg: Seq<char>, f: FieldDescriptor)
    requires
        f.label != Label::Repeated,
        f.field_type == FieldType::Message,
        graph.has_node(msg),
        graph.has_node(f.type_ref@),
    ensures
        f.type_ref@ == msg ==> is_boxed(graph, msg, f),
        graph.has_edge(f.type_ref@, msg) ==> is_boxed(graph, msg, f),
        !graph.nests(f.type_ref@, msg) ==> !is_boxed(graph, msg, f),
{
    crate::graph::lemma_nests_self_and_fields(graph, f.type_ref@, msg);
}

/// The tag word of a field type, for all types but enums.
pub open spec fn scalar_tag(t: FieldType) -> Seq<char> {
    match t {
        FieldType::Float => "float"@,
        FieldType::Double => "double"@,
        FieldType::Int32 => "int32"@,
        FieldType::Int64 => "int64"@,
        FieldType::Uint32 => "uint32"@,
        FieldType::Uint64 => "uint64"@,
        FieldType::Sint32 => "sint32"@,
        FieldType::Sint64 => "sint64"@,
        FieldType::Fixed32 => "fixed32"@,
        FieldType::Fixed64 => "fixed64"@,
        FieldType::Sfixed32 => "sfixed32"@,
        FieldType::Sfixed64 => "sfixed64"@,
        FieldType::Bool => "bool"@,
        FieldType::String => "string"@,
        FieldType::Bytes => "bytes"@,
        FieldType::Group => "group"@,
        FieldType::Message => "message"@,
        FieldType::Enum => "enumeration"@,
    }
}

fn scalar_tag_exec(t: FieldType) -> (r: String)
    ensures
        r@ == scalar_tag(t),
{
    match t {
        FieldType::Float => "float".to_owned(),
        FieldType::Double => "double".to_owned(),
        FieldType::Int32 => "int32".to_owned(),
        FieldType::Int64 => "int64".to_owned(),
        FieldType::Uint32 => "uint32".to_owned(),
        FieldType::Uint64 => "uint64".to_owned(),
        FieldType::Sint32 => "sint32".to_owned(),
        FieldType::Sint64 => "sint64".to_owned(),
        FieldType::Fixed32 => "fixed32".to_owned(),
        FieldType::Fixed64 => "fixed64".to_owned(),
        FieldType::Sfixed32 => "sfixed32".to_owned(),
        FieldType::Sfixed64 => "sfixed64".to_owned(),
        FieldType::Bool => "bool".to_owned(),
        FieldType::String => "string".to_owned(),
        FieldType::Bytes => "bytes".to_owned(),
        FieldType::Group => "group".to_owned(),
        FieldType::Message => "message".to_owned(),
        FieldType::Enum => "enumeration".to_owned(),
    }
}

/// The type part of a field's wire tag, seen from the module `scope`:
/// `enumeration="Path"` for an enum, the type word otherwise.
pub open spec fn type_tag(scope: Seq<Seq<char>>, f: FieldDescriptor) -> Seq<char> {
    if f.field_type == FieldType::Enum {
        "enumeration=\""@ + resolved(scope, f.type_ref@) + "\""@
    } else {
        scalar_tag(f.field_type)
    }
}

/// The type part of a map value's wire tag: `enumeration(Path)` for an enum.
pub open spec fn map_value_tag(scope: Seq<Seq<char>>, f: FieldDescriptor) -> Seq<char> {
    if f.field_type == FieldType::Enum {
        "enumeration("@ + resolved(scope, f.type_ref@) + ")"@
    } else {
        scalar_tag(f.field_type)
    }
}

/// The type part of the wire tag of a field.
pub fn field_type_tag(scope: &Vec<String>, f: &FieldDescriptor) -> (r: Result<String, GenError>)
    ensures
        f.field_type == FieldType::Enum && !is_qualified(f.type_ref@) ==> r == Err::<String, GenError>(GenError::NotQualified),
        !(f.field_type == FieldType::Enum && !is_qualified(f.type_ref@)) ==> (r matches Ok(t) && t@ == type_tag(views(scope@), *f)),
{
    if f.field_type == FieldType::Enum {
        match resolve_ident(scope, f.type_ref.as_str()) {
            Some(p) => {
                let mut t = "enumeration=\"".to_owned();
                t.append(p.as_str());
                t.append("\"");
                Ok(t)
            },
            None => Err(GenError::NotQualified),
        }
    } else {
        Ok(scalar_tag_exec(f.field_type))
    }
}

/// The type part of the wire tag of a map's value.
pub fn map_value_type_tag(scope: &Vec<String>, f: &FieldDescriptor) -> (r: Result<String, GenError>)
    ensures
        f.field_type == FieldType::Enum && !is_qualified(f.type_ref@) ==> r == Err::<String, GenError>(GenError::NotQualified),
        !(f.field_type == FieldType::Enum && !is_qualified(f.type_ref@)) ==> (r matches Ok(t) && t@ == map_value_tag(views(scope@), *f)),
{
    if f.field_type == FieldType::Enum {
        match resolve_ident(scope, f.type_ref.as_str()) {
            Some(p) => {
                let mut t = "enumeration(".to_owned();
                t.append(p.as_str());
                t.append(")");
                Ok(t)
            },
            None => Err(GenError::NotQualified),
        }
    } else {
        Ok(scalar_tag_exec(f.field_type))
    }
}

/// The Rust type of a scalar or enum field.
pub open spec fn scalar_rust(t: FieldType) -> Seq<char> {
    match t {
        FieldType::Float => "f32"@,
        FieldType::Double => "f64"@,
        FieldType::Uint32 | FieldType::Fixed32 => "u32"@,
        FieldType::Uint64 | FieldType::Fixed64 => "u64"@,
        FieldType::Int32 | FieldType::Sfixed32 | FieldType::Sint32 | FieldType::Enum => "i32"@,
        FieldType::Int64 | FieldType::Sfixed64 | FieldType::Sint64 => "i64"@,
        FieldType::Bool => "bool"@,
        FieldType::String => "String"@,
        FieldType::Bytes => "Vec<u8>"@,
        FieldType::Group | FieldType::Message => Seq::empty(),
    }
}

/// The Rust type of the schema type `name` seen from `scope`: its
/// replacement if it has one, else its relative path.
pub open spec fn type_path(config: Config, scope: Seq<Seq<char>>, name: Seq<char>) -> Seq<char> {
    match known_of(config, name) {
        Some(t) => t,
        None => resolved(scope, name),
    }
}

/// The Rust type of a field's values.
pub open spec fn rust_type(config: Config, scope: Seq<Seq<char>>, f: FieldDescriptor) -> Seq<char> {
    if f.field_type == FieldType::Message || f.field_type == FieldType::Group {
        type_path(config, scope, f.type_ref@)
    } else {
        scalar_rust(f.field_type)
    }
}

/// Resolves the schema type `name` into a Rust type seen from `scope`.
pub fn resolve_name(config: &Config, scope: &Vec<String>, name: &str) -> (r: Result<String, GenError>)
    ensures
        known_of(*config, name@) is None && !is_qualified(name@) ==> r == Err::<String, GenError>(GenError::NotQualified),
        !(known_of(*config, name@) is None && !is_qualified(name@)) ==> (r matches Ok(t) && t@ == type_path(*config, views(scope@), name@)),
{
    let c = chars_of(name);
    match known_type(config, c.as_slice()) {
        Some(t) => Ok(t),
        None => match resolve_ident(scope, name) {
            Some(p) => Ok(p),
            None => Err(GenError::NotQualified),
        },
    }
}

/// The Rust type of a field's values.
pub fn resolve_type(config: &Config, scope: &Vec<String>, f: &FieldDescriptor) -> (r: Result<String, GenError>)
    ensures
        (f.field_type == FieldType::Message || f.field_type == FieldType::Group)
            && known_of(*config, f.type_ref@) is None && !is_qualified(f.type_ref@)
            ==> r == Err::<String, GenError>(GenError::NotQualified),
        !((f.field_type == FieldType::Message || f.field_type == FieldType::Group)
            && known_of(*config, f.type_ref@) is None && !is_qualified(f.type_ref@))
            ==> (r matches Ok(t) && t@ == rust_type(*config, views(scope@), *f)),
{
    match f.field_type {
        FieldType::Float => Ok("f32".to_owned()),
        FieldType::Double => Ok("f64".to_owned()),
        FieldType::Uint32 | FieldType::Fixed32 => Ok("u32".to_owned()),
        FieldType::Uint64 | FieldType::Fixed64 => Ok("u64".to_owned()),
        FieldType::Int32 | FieldType::Sfixed32 | FieldType::Sint32 | FieldType::Enum => Ok("i32".to_owned()),
        FieldType::Int64 | FieldType::Sfixed64 | FieldType::Sint64 => Ok("i64".to_owned()),
        FieldType::Bool => Ok("bool".to_owned()),
        FieldType::String => Ok("String".to_owned()),
        FieldType::Bytes => Ok("Vec<u8>".to_owned()),
        FieldType::Group | FieldType::Message => resolve_name(config, scope, f.type_ref.as_str()),
    }
}

} // verus!

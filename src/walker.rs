//! The generator state and the writing of declarations.

use vstd::prelude::*;
use vstd::utf8::encode_utf8;
use crate::codegen::{
    declaration_locations, distinct_values, first_occurrences, nested_where, sorted_of, doc_at, doc_text, find_location, first_location, has_location, indent, retain_declaration_locations,
    sort_numbers, split_nested, MethodDescription, ServiceDescription,
};
use crate::config::{known_of, known_type, match_ident, rule_matches, rule_path, Config};
use crate::descriptor::{
    copy_method_options, copy_service_options,
    EnumDescriptor, EnumValueDescriptor, FieldDescriptor, FieldType, FileDescriptor, Label,
    Location, MessageDescriptor, MethodDescriptor, OneofDescriptor, ServiceDescriptor, Syntax,
};
use crate::escape::{
    escape_all, escape_bytes, quote_all, quote_bytes, unescape, unescape_c_escape_string,
};
use crate::graph::MessageGraph;
use crate::groups::{group_oneof_fields, groups_match, members};
use crate::lower::{
    field_boxed, field_type_tag, is_boxed, is_optional, map_value_type_tag, needs_unpacked_mark,
    map_value_tag, optional, parse_syntax, resolve_name, resolve_type, rust_type, syntax_of, type_path,
    type_tag,
    unpacked_mark, GenError,
};
use crate::naming::{camel_of, snake_of, strip_enum_prefix, stripped_name, to_snake, to_upper_camel};
use crate::resolve::{is_qualified, split_at_dots, split_dots, views};
use crate::text::{chars_of, decimal, decimal_of, string_of};

verus! {

/// The state of one generation pass over one file.
pub struct CodeGenerator {
    /// The dotted schema scope of the module being written.
    pub package: String,
    /// The same scope as a list of parts, for name resolution.
    pub scope: Vec<String>,
    pub syntax: Syntax,
    /// Indentation depth of the next line.
    pub depth: u8,
    /// Structural path of the declaration being visited.
    pub path: Vec<i32>,
    /// The text written so far.
    pub buf: String,
    /// Comment entries, by structural path.
    pub locations: Vec<Location>,
    /// Services described so far.
    pub services: Vec<ServiceDescription>,
}

/// The part of a generator's state that decides the text of one field: its
/// scope, dialect, depth, structural path and comment entries.
pub struct St {
    pub package: Seq<char>,
    pub scope: Seq<Seq<char>>,
    pub syntax: Syntax,
    pub depth: nat,
    pub path: Seq<i32>,
    pub locs: Seq<Location>,
}

/// The state `g` as far as the text of a field depends on it.
pub open spec fn st_of(g: CodeGenerator) -> St {
    St { package: g.package@, scope: views(g.scope@), syntax: g.syntax, depth: g.depth as nat, path: g.path@, locs: g.locations@ }
}

/// The fully-qualified schema name of the type `name` declared in the scope
/// `package`.
pub open spec fn qualified_name(package: Seq<char>, name: Seq<char>) -> Seq<char> {
    if package.len() == 0 {
        seq!['.'] + name
    } else {
        seq!['.'] + package + seq!['.'] + name
    }
}

/// The lines of the attributes whose matchers select `path`, each indented
/// to depth `d`, in the order of the rules.
pub open spec fn attr_text(d: nat, rules: Seq<(String, String)>, path: Seq<char>) -> Seq<char>
    decreases rules.len(),
{
    if rules.len() == 0 {
        Seq::empty()
    } else {
        let prev = attr_text(d, rules.drop_last(), path);
        if rule_matches(rules.last().0@, path) {
            prev + indent(d) + rules.last().1@ + "\n"@
        } else {
            prev
        }
    }
}

/// The name written for an enum value: upper camel case, with `prefix`
/// stripped when given.
pub open spec fn value_name(prefix: Option<Seq<char>>, name: Seq<char>) -> Seq<char> {
    match prefix {
        Some(p) => stripped_name(p, camel_of(name)),
        None => camel_of(name),
    }
}

/// The view of an optional string.
pub open spec fn opt_view(o: Option<String>) -> Option<Seq<char>> {
    match o {
        Some(t) => Some(t@),
        None => None,
    }
}

/// The text written for the enum values at the positions `idxs` of `vals`,
/// in that order, at depth `d` under the path `path`; `None` when one of them
/// has no comment entry.
pub open spec fn values_text(
    locs: Seq<Location>,
    path: Seq<i32>,
    d: nat,
    config: Config,
    fq: Seq<char>,
    vals: Seq<EnumValueDescriptor>,
    idxs: Seq<usize>,
    prefix: Option<Seq<char>>,
) -> Option<Seq<char>>
    decreases idxs.len(),
{
    if idxs.len() == 0 {
        Some(Seq::empty())
    } else {
        match values_text(locs, path, d, config, fq, vals, idxs.drop_last(), prefix) {
            None => None,
            Some(t) => {
                let k = idxs.last() as int;
                match doc_at(locs, path.push(idxs.last() as i32), d) {
                    None => None,
                    Some(doc) => Some(t + doc
                        + attr_text(d, config.field_attributes@, rule_path(fq, Some(vals[k].name@)))
                        + indent(d) + value_name(prefix, vals[k].name@) + " = "@
                        + decimal_of(vals[k].number as int) + ",\n"@),
                }
            },
        }
    }
}

proof fn lemma_values_prefix(
    locs: Seq<Location>,
    path: Seq<i32>,
    d: nat,
    config: Config,
    fq: Seq<char>,
    vals: Seq<EnumValueDescriptor>,
    idxs: Seq<usize>,
    prefix: Option<Seq<char>>,
    n: int,
)
    requires
        0 <= n <= idxs.len(),
        values_text(locs, path, d, config, fq, vals, idxs, prefix) is Some,
    ensures
        values_text(locs, path, d, config, fq, vals, idxs.take(n), prefix) is Some,
    decreases idxs.len() - n,
{
    if n < idxs.len() {
        lemma_values_prefix(locs, path, d, config, fq, vals, idxs, prefix, n + 1);
        assert(idxs.take(n + 1).drop_last() =~= idxs.take(n));
    } else {
        assert(idxs.take(n) =~= idxs);
    }
}

/// The derive line of an enum type.
pub open spec fn enum_derive() -> Seq<char> {
    "#[derive(Clone, Copy, Debug, PartialEq, Eq, Hash, PartialOrd, Ord, Enumeration)]\n"@
}

/// The text written for the enum `desc` by the generator in state `g`;
/// `None` when a comment entry is missing or the depth is at its limit.
pub open spec fn enum_text(g: St, config: Config, desc: EnumDescriptor) -> Option<Seq<char>> {
    let d = g.depth;
    let fq = qualified_name(g.package, desc.name@);
    let prefix = if config.strip_enum_prefix { Some(camel_of(desc.name@)) } else { None };
    if known_of(config, fq) is Some {
        Some(Seq::empty())
    } else if doc_at(g.locs, g.path, d) is None || g.depth == 255 {
        None
    } else {
        match values_text(g.locs, g.path.push(2), d + 1, config, fq, desc.values@,
            first_occurrences(desc.values@), prefix) {
            None => None,
            Some(v) => Some(doc_at(g.locs, g.path, d)->0 + indent(d) + enum_derive()
                + attr_text(d, config.type_attributes@, rule_path(fq, None))
                + indent(d) + "pub enum "@ + camel_of(desc.name@) + " {\n"@
                + v + indent(d) + "}\n"@),
        }
    }
}

/// The cardinality part of a field's tag.
pub open spec fn label_text(syntax: Syntax, f: FieldDescriptor) -> Seq<char> {
    match f.label {
        Label::Optional => if is_optional(syntax, f) { ", optional"@ } else { Seq::empty() },
        Label::Required => ", required"@,
        Label::Repeated => ", repeated"@ + if unpacked_mark(syntax, f) {
            ", packed=\"false\""@
        } else {
            Seq::empty()
        },
    }
}

/// The default value `dv` of a field as its tag writes it: a `bytes` value
/// is decoded and written as an escaped byte string, an enum value is
/// written as its variant name; `None` when a `bytes` value cannot be decoded.
pub open spec fn default_text(config: Config, f: FieldDescriptor, dv: Seq<char>) -> Option<Seq<char>> {
    if f.field_type == FieldType::Bytes {
        match unescape(encode_utf8(dv)) {
            Ok(b) => Some("b\\\""@ + quote_all(escape_all(b)) + "\\\""@),
            Err(_) => None,
        }
    } else if f.field_type == FieldType::Enum {
        Some(camel_of(
            if config.strip_enum_prefix {
                stripped_name(camel_of(split_dots(f.type_ref@).last()), camel_of(dv))
            } else {
                dv
            },
        ))
    } else {
        Some(dv)
    }
}

/// The Rust type of a field with its container: `Vec` when repeated, else
/// `Option` when optional, with a `Box` inside when boxed.
pub open spec fn wrapped_type(repeated: bool, optional: bool, boxed: bool, ty: Seq<char>) -> Seq<char> {
    (if repeated { "::std::vec::Vec<"@ } else if optional { "::std::option::Option<"@ } else { Seq::empty() })
        + (if boxed { "::std::boxed::Box<"@ } else { Seq::empty() })
        + ty
        + (if boxed { ">"@ } else { Seq::empty() })
        + (if repeated || optional { ">"@ } else { Seq::empty() })
}

/// The default part of a field's tag: empty without a default value; `None`
/// when the default value cannot be written.
pub open spec fn default_part(config: Config, f: FieldDescriptor) -> Option<Seq<char>> {
    match f.default_value {
        Some(dv) => match default_text(config, f, dv@) {
            Some(t) => Some("\", default=\""@ + t),
            None => None,
        },
        None => Some(Seq::empty()),
    }
}

/// The tag line of a field at depth `d`, seen from the module `scope`.
pub open spec fn tag_line(d: nat, scope: Seq<Seq<char>>, syntax: Syntax, config: Config, f: FieldDescriptor, boxed: bool) -> Seq<char> {
    indent(d) + "#[prost("@ + type_tag(scope, f) + label_text(syntax, f)
        + (if boxed { ", boxed"@ } else { Seq::empty() })
        + ", tag=\""@ + decimal_of(f.number as int) + default_part(config, f)->0 + "\")]\n"@
}

/// The declaration line of a field named `name` of type `ty` at depth `d`.
pub open spec fn decl_line(d: nat, name: Seq<char>, ty: Seq<char>) -> Seq<char> {
    indent(d) + "pub "@ + snake_of(name) + ": "@ + ty + ",\n"@
}

/// The text written for the ordinary field `f` of the message named `msg`
/// by the generator in state `g`: its doc lines, its tag, its attributes and
/// its declaration. `None` when one of its parts cannot be written.
pub open spec fn field_text(g: St, config: Config, graph: MessageGraph, msg: Seq<char>, f: FieldDescriptor) -> Option<Seq<char>> {
    let d = g.depth;
    let scope = g.scope;
    if (f.field_type == FieldType::Message || f.field_type == FieldType::Group)
        && known_of(config, f.type_ref@) is None && !is_qualified(f.type_ref@) {
        None
    } else if doc_at(g.locs, g.path, d) is None {
        None
    } else if f.field_type == FieldType::Enum && !is_qualified(f.type_ref@) {
        None
    } else if default_part(config, f) is None {
        None
    } else {
        Some(doc_at(g.locs, g.path, d)->0
            + tag_line(d, scope, g.syntax, config, f, is_boxed(graph, msg, f))
            + attr_text(d, config.field_attributes@, rule_path(msg, Some(f.name@)))
            + decl_line(d, f.name@, wrapped_type(
                f.label == Label::Repeated, is_optional(g.syntax, f), is_boxed(graph, msg, f),
                rust_type(config, scope, f))))
    }
}

/// Whether the map field `field` of the message `msg` is a `BTreeMap`: some
/// rule of the user's list selects it.
pub open spec fn btree_selected(config: Config, msg: Seq<char>, field: Seq<char>) -> bool {
    exists|i: int| 0 <= i < config.btree_map@.len()
        && rule_matches(#[trigger] config.btree_map@[i]@, rule_path(msg, Some(field)))
}

/// Whether the map field `field` of the message `msg` is a `BTreeMap`.
pub fn uses_btree_map(config: &Config, msg: &str, field: &str) -> (r: bool)
    ensures
        r == btree_selected(*config, msg@, field@),
{
    let n = chars_of(msg);
    let mut found = false;
    let mut i: usize = 0;
    while i < config.btree_map.len()
        invariant
            0 <= i <= config.btree_map@.len(),
            n@ == msg@,
            found == exists|j: int| 0 <= j < i
                && rule_matches(#[trigger] config.btree_map@[j]@, rule_path(msg@, Some(field@))),
        decreases config.btree_map@.len() - i,
    {
        if match_ident(config.btree_map[i].as_str(), n.as_slice(), Some(field)) {
            found = true;
        }
        i = i + 1;
    }
    found
}

/// The tag line of a map field.
pub open spec fn map_tag_line(d: nat, btree: bool, key_tag: Seq<char>, value_tag: Seq<char>, number: i32) -> Seq<char> {
    indent(d) + "#[prost("@ + (if btree { "btree_map"@ } else { "map"@ }) + "=\""@ + key_tag + ", "@
        + value_tag + "\", tag=\""@ + decimal_of(number as int) + "\")]\n"@
}

/// The declaration line of a map field.
pub open spec fn map_decl_line(d: nat, btree: bool, name: Seq<char>, key_ty: Seq<char>, value_ty: Seq<char>) -> Seq<char> {
    indent(d) + "pub "@ + snake_of(name) + ": ::std::collections::"@
        + (if btree { "BTreeMap"@ } else { "HashMap"@ }) + "<"@ + key_ty + ", "@ + value_ty + ">,\n"@
}

/// Whether the Rust type of a field cannot be named: a message type that
/// nothing replaces and whose name is not absolute.
pub open spec fn type_unresolvable(config: Config, f: FieldDescriptor) -> bool {
    (f.field_type == FieldType::Message || f.field_type == FieldType::Group)
        && known_of(config, f.type_ref@) is None && !is_qualified(f.type_ref@)
}

/// Whether the tag of a field cannot be written: an enum whose name is not
/// absolute.
pub open spec fn tag_unwritable(f: FieldDescriptor) -> bool {
    f.field_type == FieldType::Enum && !is_qualified(f.type_ref@)
}

/// The text written for the map field `f` of the message named `msg`, whose
/// entries have the fields `key` and `value`; `None` when one of its parts
/// cannot be written.
pub open spec fn map_field_text(
    g: St,
    config: Config,
    msg: Seq<char>,
    f: FieldDescriptor,
    key: FieldDescriptor,
    value: FieldDescriptor,
) -> Option<Seq<char>> {
    let d = g.depth;
    let scope = g.scope;
    let btree = btree_selected(config, msg, f.name@);
    if type_unresolvable(config, key) || type_unresolvable(config, value)
        || doc_at(g.locs, g.path, d) is None || tag_unwritable(key) || tag_unwritable(value) {
        None
    } else {
        Some(doc_at(g.locs, g.path, d)->0
            + map_tag_line(d, btree, type_tag(scope, key), map_value_tag(scope, value), f.number)
            + attr_text(d, config.field_attributes@, rule_path(msg, Some(f.name@)))
            + map_decl_line(d, btree, f.name@, rust_type(config, scope, key), rust_type(config, scope, value)))
    }
}

/// The numbers in decimal, separated by `, `.
pub open spec fn tags_text(nums: Seq<i32>) -> Seq<char>
    decreases nums.len(),
{
    if nums.len() == 0 {
        Seq::empty()
    } else if nums.len() == 1 {
        decimal_of(nums[0] as int)
    } else {
        tags_text(nums.drop_last()) + ", "@ + decimal_of(nums.last() as int)
    }
}

/// The text written for the field that holds the oneof named `oneof` of the
/// message `message_name` (fully qualified `fq`), whose members have the
/// field numbers `numbers`. Assumes a comment entry exists for it.
pub open spec fn oneof_field_text(
    g: St,
    config: Config,
    message_name: Seq<char>,
    fq: Seq<char>,
    oneof: Seq<char>,
    numbers: Seq<i32>,
) -> Seq<char> {
    let d = g.depth;
    let name = snake_of(message_name) + "::"@ + camel_of(oneof);
    doc_at(g.locs, g.path, d)->0 + indent(d) + "#[prost(oneof=\""@ + name + "\", tags=\""@
        + tags_text(numbers) + "\")]\n"@
        + attr_text(d, config.field_attributes@, rule_path(fq, Some(oneof)))
        + indent(d) + "pub "@ + snake_of(oneof) + ": ::std::option::Option<"@ + name + ">,\n"@
}

/// The comment lines at path `p`; empty when there is no entry.
pub open spec fn comment_at(locs: Seq<Location>, p: Seq<i32>) -> Seq<Seq<char>> {
    match first_location(locs, p) {
        Some(i) => views(locs[i].lines@),
        None => Seq::empty(),
    }
}

/// Whether `md` describes the method `m`, the `j`-th of the service at
/// path `path`, with names resolved from the module `scope`: its names,
/// comment, resolved types and streaming flags.
pub open spec fn method_described(
    md: MethodDescription,
    m: MethodDescriptor,
    config: Config,
    scope: Seq<Seq<char>>,
    locs: Seq<Location>,
    path: Seq<i32>,
    j: int,
) -> bool {
    &&& md.name@ == snake_of(m.name@)
    &&& md.proto_name@ == m.name@
    &&& views(md.comments@) == comment_at(locs, path.push(2).push(j as i32))
    &&& md.input_type@ == type_path(config, scope, m.input_type@)
    &&& md.output_type@ == type_path(config, scope, m.output_type@)
    &&& md.input_proto_type@ == m.input_type@
    &&& md.output_proto_type@ == m.output_type@
    &&& md.client_streaming == m.client_streaming
    &&& md.server_streaming == m.server_streaming
}

/// Whether the `j`-th method of the service at path `path` can be described:
/// it has a comment entry, and its input and output types can be named.
pub open spec fn method_ok(m: MethodDescriptor, config: Config, locs: Seq<Location>, path: Seq<i32>, j: int) -> bool {
    &&& has_location(locs, path.push(2).push(j as i32))
    &&& (known_of(config, m.input_type@) is Some || is_qualified(m.input_type@))
    &&& (known_of(config, m.output_type@) is Some || is_qualified(m.output_type@))
}

/// Whether the service at path `path` can be described: it and each of its
/// methods have a comment entry, and every type they name can be named.
pub open spec fn service_ok(s: ServiceDescriptor, config: Config, locs: Seq<Location>, path: Seq<i32>) -> bool {
    &&& has_location(locs, path)
    &&& forall|j: int| 0 <= j < s.methods@.len() ==> method_ok(#[trigger] s.methods@[j], config, locs, path, j)
}

/// Whether `d` describes the service `s` declared at path `path` of the
/// scope `package` (parts `scope`), with comments from `locs`.
pub open spec fn described(
    d: ServiceDescription,
    s: ServiceDescriptor,
    config: Config,
    package: Seq<char>,
    scope: Seq<Seq<char>>,
    locs: Seq<Location>,
    path: Seq<i32>,
) -> bool {
    &&& d.name@ == camel_of(s.name@)
    &&& d.proto_name@ == s.name@
    &&& d.package@ == package
    &&& views(d.comments@) == comment_at(locs, path)
    &&& d.methods@.len() == s.methods@.len()
    &&& forall|j: int| 0 <= j < s.methods@.len()
        ==> method_described(#[trigger] d.methods@[j], s.methods@[j], config, scope, locs, path, j)
}

/// The module parts of the scope `package`: none for the empty scope.
pub open spec fn package_scope(package: Seq<char>) -> Seq<Seq<char>> {
    if package.len() == 0 {
        Seq::empty()
    } else {
        split_dots(package)
    }
}

/// The text written for the variant of the member field at position `pos`
/// of `fields`, in the oneof type named `oneof` of the message `msg`; `None`
/// when one of its parts cannot be written.
pub open spec fn variant_text(
    locs: Seq<Location>,
    path: Seq<i32>,
    d: nat,
    scope: Seq<Seq<char>>,
    config: Config,
    graph: MessageGraph,
    msg: Seq<char>,
    oneof: Seq<char>,
    fields: Seq<FieldDescriptor>,
    pos: int,
) -> Option<Seq<char>> {
    let f = fields[pos];
    let ty = rust_type(config, scope, f);
    let boxed = f.field_type == FieldType::Message && graph.nests(f.type_ref@, msg);
    if doc_at(locs, path.push(pos as i32), d) is None || tag_unwritable(f) || type_unresolvable(config, f) {
        None
    } else {
        Some(doc_at(locs, path.push(pos as i32), d)->0 + indent(d) + "#[prost("@ + type_tag(scope, f)
            + ", tag=\""@ + decimal_of(f.number as int) + "\")]\n"@
            + attr_text(d, config.field_attributes@, rule_path(oneof, Some(f.name@)))
            + indent(d) + camel_of(f.name@)
            + if boxed { "(Box<"@ + ty + ">),\n"@ } else { "("@ + ty + "),\n"@ })
    }
}

/// The variants for the member fields at the positions `members`, in order;
/// positions out of range and group fields give none.
pub open spec fn variants_text(
    locs: Seq<Location>,
    path: Seq<i32>,
    d: nat,
    scope: Seq<Seq<char>>,
    config: Config,
    graph: MessageGraph,
    msg: Seq<char>,
    oneof: Seq<char>,
    fields: Seq<FieldDescriptor>,
    members: Seq<usize>,
) -> Option<Seq<char>>
    decreases members.len(),
{
    if members.len() == 0 {
        Some(Seq::empty())
    } else {
        match variants_text(locs, path, d, scope, config, graph, msg, oneof, fields, members.drop_last()) {
            None => None,
            Some(t) => {
                let k = members.last();
                if k >= fields.len() || fields[k as int].field_type == FieldType::Group {
                    Some(t)
                } else {
                    match variant_text(locs, path, d, scope, config, graph, msg, oneof, fields, k as int) {
                        None => None,
                        Some(v) => Some(t + v),
                    }
                }
            },
        }
    }
}

proof fn lemma_variants_prefix(
    locs: Seq<Location>,
    path: Seq<i32>,
    d: nat,
    scope: Seq<Seq<char>>,
    config: Config,
    graph: MessageGraph,
    msg: Seq<char>,
    oneof: Seq<char>,
    fields: Seq<FieldDescriptor>,
    members: Seq<usize>,
    n: int,
)
    requires
        0 <= n <= members.len(),
        variants_text(locs, path, d, scope, config, graph, msg, oneof, fields, members) is Some,
    ensures
        variants_text(locs, path, d, scope, config, graph, msg, oneof, fields, members.take(n)) is Some,
    decreases members.len() - n,
{
    if n < members.len() {
        lemma_variants_prefix(locs, path, d, scope, config, graph, msg, oneof, fields, members, n + 1);
        assert(members.take(n + 1).drop_last() =~= members.take(n));
    } else {
        assert(members.take(n) =~= members);
    }
}

/// The text written for the enum type of the oneof named `oneof` (number
/// `idx`) of the message `msg` by the generator in state `g`; `None` when a
/// part of it cannot be written.
pub open spec fn oneof_text(
    g: St,
    config: Config,
    graph: MessageGraph,
    msg: Seq<char>,
    oneof: Seq<char>,
    idx: i32,
    members: Seq<usize>,
    fields: Seq<FieldDescriptor>,
) -> Option<Seq<char>> {
    let d = g.depth;
    let oneof_fq = msg + seq!['.'] + oneof;
    let doc = doc_at(g.locs, g.path.push(8).push(idx), d);
    if doc is None || g.depth == 255 {
        None
    } else {
        match variants_text(g.locs, g.path.push(2), d + 1, g.scope, config, graph, msg,
            oneof_fq, fields, members) {
            None => None,
            Some(v) => Some(doc->0 + indent(d) + "#[derive(Clone, Oneof, PartialEq)]\n"@
                + attr_text(d, config.type_attributes@, rule_path(oneof_fq, None))
                + indent(d) + "pub enum "@ + camel_of(oneof) + " {\n"@ + v + indent(d) + "}\n"@),
        }
    }
}

/// Whether a map entry type holds exactly the fields `key` and `value`, in
/// that order.
pub open spec fn entry_ok(entry: MessageDescriptor) -> bool {
    entry.fields@.len() == 2 && entry.fields@[0].name@ == "key"@ && entry.fields@[1].name@ == "value"@
}

/// Whether every map entry type nested in `msg` is well formed.
pub open spec fn entries_ok(msg: MessageDescriptor) -> bool {
    forall|i: int| 0 <= i < msg.nested@.len() && msg.nested@[i].map_entry ==> entry_ok(#[trigger] msg.nested@[i])
}

/// The oneof index of each field of `msg`.
pub open spec fn oneof_indices(msg: MessageDescriptor) -> Seq<Option<i32>> {
    msg.fields@.map_values(|f: FieldDescriptor| f.oneof_index)
}

/// Whether the oneof indices of the fields of `msg` name exactly its declared
/// oneofs.
pub open spec fn oneofs_consistent(msg: MessageDescriptor) -> bool {
    msg.oneofs@.len() <= i32::MAX && groups_match(oneof_indices(msg), msg.oneofs@.len())
}

/// Whether `r` is not the error of an unknown dialect, which only the
/// reading of a file's syntax gives.
pub open spec fn no_syntax_error(r: Result<(), GenError>) -> bool {
    !(r is Err && r->Err_0 == GenError::UnknownSyntax)
}

/// The schema names of the map entry types at the positions `maps` of
/// `nested`, declared in the message named `fq`.
pub open spec fn entry_names(fq: Seq<char>, nested: Seq<MessageDescriptor>, maps: Seq<usize>) -> Seq<Seq<char>> {
    maps.map_values(|k: usize| fq + seq!['.'] + nested[k as int].name@)
}

/// The position of the first of `names` that is `t`.
pub open spec fn first_eq(names: Seq<Seq<char>>, t: Seq<char>) -> Option<int>
    decreases names.len(),
{
    if names.len() == 0 {
        None
    } else {
        match first_eq(names.drop_last(), t) {
            Some(i) => Some(i),
            None => if names.last() == t {
                Some(names.len() - 1)
            } else {
                None
            },
        }
    }
}

proof fn lemma_first_eq_prefix(names: Seq<Seq<char>>, t: Seq<char>, n: int)
    requires
        0 < n <= names.len(),
        first_eq(names.take(n), t) is Some,
    ensures
        first_eq(names, t) == first_eq(names.take(n), t),
    decreases names.len() - n,
{
    if n < names.len() {
        assert(names.take(n + 1).drop_last() =~= names.take(n));
        lemma_first_eq_prefix(names, t, n + 1);
    } else {
        assert(names.take(n) =~= names);
    }
}

/// The position among the nested types of `msg` (named `fq`) of the map
/// entry type named `t`, if there is one.
pub open spec fn map_entry_for(fq: Seq<char>, msg: MessageDescriptor, t: Seq<char>) -> Option<int> {
    let maps = nested_where(msg.nested@, true);
    match first_eq(entry_names(fq, msg.nested@, maps), t) {
        Some(j) => Some(maps[j] as int),
        None => None,
    }
}

/// The text written in the struct of the message `msg` (named `fq`) for its
/// field at position `i`, by a generator at the message's state `s`: nothing
/// for a oneof member or a group; a map field when its type is one of the
/// message's map entry types; an ordinary field otherwise.
pub open spec fn one_field_text(s: St, config: Config, graph: MessageGraph, fq: Seq<char>, msg: MessageDescriptor, i: usize) -> Option<Seq<char>> {
    let f = msg.fields@[i as int];
    let fs = St { package: s.package, scope: s.scope, syntax: s.syntax, depth: s.depth + 1, path: s.path.push(2).push(i as i32), locs: s.locs };
    if f.oneof_index is Some {
        Some(Seq::empty())
    } else {
        match map_entry_for(fq, msg, f.type_ref@) {
            Some(e) => map_field_text(fs, config, fq, f, msg.nested@[e].fields@[0], msg.nested@[e].fields@[1]),
            None => if f.field_type == FieldType::Group {
                Some(Seq::empty())
            } else {
                field_text(fs, config, graph, fq, f)
            },
        }
    }
}

/// The text written for the first `n` fields of the message `msg`, in order.
pub open spec fn fields_text(s: St, config: Config, graph: MessageGraph, fq: Seq<char>, msg: MessageDescriptor, n: usize) -> Option<Seq<char>>
    decreases n,
{
    if n == 0 {
        Some(Seq::empty())
    } else {
        match fields_text(s, config, graph, fq, msg, (n - 1) as usize) {
            None => None,
            Some(t) => match one_field_text(s, config, graph, fq, msg, (n - 1) as usize) {
                None => None,
                Some(u) => Some(t + u),
            },
        }
    }
}

/// The field numbers of the members at the positions `ms` of `fields`.
pub open spec fn member_numbers(fields: Seq<FieldDescriptor>, ms: Seq<usize>) -> Seq<i32>
    decreases ms.len(),
{
    if ms.len() == 0 {
        Seq::empty()
    } else {
        let prev = member_numbers(fields, ms.drop_last());
        if (ms.last() as int) < fields.len() {
            prev.push(fields[ms.last() as int].number)
        } else {
            prev
        }
    }
}

/// The views of a vector of position lists.
pub open spec fn group_views(groups: Seq<Vec<usize>>) -> Seq<Seq<usize>> {
    groups.map_values(|g: Vec<usize>| g@)
}

/// The text written for the fields of the first `n` oneofs of `msg` (named
/// `fq`), whose members are at the positions `groups`, by a generator at the
/// message's state `s`: each with its member numbers in ascending order.
pub open spec fn oneof_fields_text(s: St, config: Config, msg: MessageDescriptor, fq: Seq<char>, groups: Seq<Seq<usize>>, n: usize) -> Option<Seq<char>>
    decreases n,
{
    if n == 0 {
        Some(Seq::empty())
    } else {
        match oneof_fields_text(s, config, msg, fq, groups, (n - 1) as usize) {
            None => None,
            Some(t) => {
                let o = (n - 1) as usize;
                let os = St { package: s.package, scope: s.scope, syntax: s.syntax, depth: s.depth + 1, path: s.path.push(8).push(o as i32), locs: s.locs };
                if doc_at(os.locs, os.path, os.depth) is None {
                    None
                } else {
                    Some(t + oneof_field_text(os, config, msg.name@, fq, msg.oneofs@[o as int].name@,
                        sorted_of(member_numbers(msg.fields@, groups[o as int]))))
                }
            },
        }
    }
}

/// The positions of the members of each oneof of `msg`, in order.
pub open spec fn members_of(msg: MessageDescriptor) -> Seq<Seq<usize>> {
    Seq::new(msg.oneofs@.len(), |o: int| members(oneof_indices(msg), o as i32))
}

/// The struct that the generator in state `g` writes for the message `msg`:
/// its head, its fields in order (map fields for map entry types), the
/// field of each oneof, and the closing brace; `None` when a part of it
/// cannot be written.
pub open spec fn struct_text(g: St, config: Config, graph: MessageGraph, msg: MessageDescriptor) -> Option<Seq<char>> {
    let fq = qualified_name(g.package, msg.name@);
    let f = fields_text(g, config, graph, fq, msg, msg.fields@.len() as usize);
    let o = oneof_fields_text(g, config, msg, fq, members_of(msg), msg.oneofs@.len() as usize);
    if doc_at(g.locs, g.path, g.depth) is None || g.depth >= 255 || f is None || o is None {
        None
    } else {
        Some(message_head(g, config, msg) + f->0 + o->0 + indent(g.depth) + "}\n"@)
    }
}

/// The state `s` at the structural path `p`.
pub open spec fn at_path(s: St, p: Seq<i32>) -> St {
    St { package: s.package, scope: s.scope, syntax: s.syntax, depth: s.depth, path: p, locs: s.locs }
}

/// The state inside the module that the message `msg` opens at state `s`.
pub open spec fn module_state(s: St, msg: MessageDescriptor) -> St {
    St {
        package: if s.package.len() == 0 { msg.name@ } else { s.package + seq!['.'] + msg.name@ },
        scope: s.scope.push(msg.name@),
        syntax: s.syntax,
        depth: s.depth + 1,
        path: s.path,
        locs: s.locs,
    }
}

/// The whole text written for the message `msg` at state `s`: nothing for a
/// type that a Rust type replaces; else its struct and, when it needs one,
/// its module holding its nested messages that are not map entries, its
/// nested enums and its oneof types. `None` when the message cannot be
/// written.
pub open spec fn message_text(s: St, config: Config, graph: MessageGraph, msg: MessageDescriptor) -> Option<Seq<char>>
    decreases msg, msg.nested@.len() + 2,
{
    let fq = qualified_name(s.package, msg.name@);
    if known_of(config, fq) is Some {
        Some(Seq::empty())
    } else if !entries_ok(msg) || !oneofs_consistent(msg) {
        None
    } else {
        match struct_text(s, config, graph, msg) {
            None => None,
            Some(t) => if !has_module(msg) {
                Some(t)
            } else {
                match module_text(s, config, graph, msg) {
                    None => None,
                    Some(m) => Some(t + m),
                }
            },
        }
    }
}

/// The module of the message `msg` written at state `s`: the `pub mod`
/// line, its nested messages that are not map entries, its nested enums,
/// its oneof types, and the closing brace.
pub open spec fn module_text(s: St, config: Config, graph: MessageGraph, msg: MessageDescriptor) -> Option<Seq<char>>
    decreases msg, msg.nested@.len() + 1,
{
    let fq = qualified_name(s.package, msg.name@);
    let ms = module_state(s, msg);
    if s.depth >= 255 {
        None
    } else {
        match nested_text(at_path(ms, s.path.push(3)), config, graph, msg, msg.nested@.len() as usize) {
            None => None,
            Some(n) => match enums_text(at_path(ms, s.path.push(4)), config, msg.enums@, msg.enums@.len() as usize) {
                None => None,
                Some(e) => match oneofs_text(ms, config, graph, fq, msg, msg.oneofs@.len() as usize) {
                    None => None,
                    Some(o) => Some(indent(s.depth) + "pub mod "@ + snake_of(msg.name@) + " {\n"@
                        + n + e + o + indent(s.depth) + "}\n"@),
                },
            },
        }
    }
}

/// The text of the first `n` nested types of `parent` that are not map
/// entries, each at its own path under `s`.
pub open spec fn nested_text(s: St, config: Config, graph: MessageGraph, parent: MessageDescriptor, n: usize) -> Option<Seq<char>>
    decreases parent, n as nat,
{
    if n == 0 || n > parent.nested@.len() {
        Some(Seq::empty())
    } else {
        match nested_text(s, config, graph, parent, (n - 1) as usize) {
            None => None,
            Some(t) => {
                let k = (n - 1) as usize;
                if parent.nested@[k as int].map_entry {
                    Some(t)
                } else {
                    proof {
                        assert(decreases_to!(parent => parent.nested@[k as int]));
                    }
                    match message_text(at_path(s, s.path.push(k as i32)), config, graph, parent.nested@[k as int]) {
                        None => None,
                        Some(u) => Some(t + u),
                    }
                }
            },
        }
    }
}

/// The text of the first `n` of `enums`, each at its own path under `s`.
pub open spec fn enums_text(s: St, config: Config, enums: Seq<EnumDescriptor>, n: usize) -> Option<Seq<char>>
    decreases n,
{
    if n == 0 || n > enums.len() {
        Some(Seq::empty())
    } else {
        match enums_text(s, config, enums, (n - 1) as usize) {
            None => None,
            Some(t) => {
                let k = (n - 1) as usize;
                match enum_text(at_path(s, s.path.push(k as i32)), config, enums[k as int]) {
                    None => None,
                    Some(u) => Some(t + u),
                }
            },
        }
    }
}

/// The oneof types of the first `n` oneofs of `msg` (named `fq`), in the
/// module state `s`.
pub open spec fn oneofs_text(s: St, config: Config, graph: MessageGraph, fq: Seq<char>, msg: MessageDescriptor, n: usize) -> Option<Seq<char>>
    decreases n,
{
    if n == 0 || n > msg.oneofs@.len() {
        Some(Seq::empty())
    } else {
        match oneofs_text(s, config, graph, fq, msg, (n - 1) as usize) {
            None => None,
            Some(t) => {
                let o = (n - 1) as usize;
                match oneof_text(s, config, graph, fq, msg.oneofs@[o as int].name@, o as i32,
                    members_of(msg)[o as int], msg.fields@) {
                    None => None,
                    Some(u) => Some(t + u),
                }
            },
        }
    }
}

/// The text of the first `n` of the messages `msgs`, each at its own path
/// under `s`.
pub open spec fn messages_text(s: St, config: Config, graph: MessageGraph, msgs: Seq<MessageDescriptor>, n: usize) -> Option<Seq<char>>
    decreases n,
{
    if n == 0 || n > msgs.len() {
        Some(Seq::empty())
    } else {
        match messages_text(s, config, graph, msgs, (n - 1) as usize) {
            None => None,
            Some(t) => {
                let k = (n - 1) as usize;
                match message_text(at_path(s, s.path.push(k as i32)), config, graph, msgs[k as int]) {
                    None => None,
                    Some(u) => Some(t + u),
                }
            },
        }
    }
}

/// The state at the start of a pass over `file` written in the dialect
/// `syntax`.
pub open spec fn file_state(file: FileDescriptor, syntax: Syntax) -> St {
    St {
        package: file.package@,
        scope: package_scope(file.package@),
        syntax,
        depth: 0,
        path: Seq::empty(),
        locs: declaration_locations(file.locations@),
    }
}

/// The text written for `file`: its messages in order, each at path
/// `[4, i]`, then its enums in order, each at path `[5, i]`. `None` when the
/// dialect is unknown or a declaration cannot be written.
pub open spec fn file_text(config: Config, graph: MessageGraph, file: FileDescriptor) -> Option<Seq<char>> {
    match syntax_of(match file.syntax { Some(t) => Some(t@), None => None }) {
        None => None,
        Some(syntax) => {
            let s = file_state(file, syntax);
            match messages_text(at_path(s, seq![4i32]), config, graph, file.messages@, file.messages@.len() as usize) {
                None => None,
                Some(m) => match enums_text(at_path(s, seq![5i32]), config, file.enums@, file.enums@.len() as usize) {
                    None => None,
                    Some(e) => Some(m + e),
                },
            }
        },
    }
}

proof fn lemma_fields_prefix(s: St, config: Config, graph: MessageGraph, fq: Seq<char>, msg: MessageDescriptor, n: usize, m: usize)
    requires
        m <= n,
        fields_text(s, config, graph, fq, msg, n) is Some,
    ensures
        fields_text(s, config, graph, fq, msg, m) is Some,
    decreases n,
{
    if m < n {
        lemma_fields_prefix(s, config, graph, fq, msg, (n - 1) as usize, m);
    }
}

proof fn lemma_oneof_fields_prefix(s: St, config: Config, msg: MessageDescriptor, fq: Seq<char>, groups: Seq<Seq<usize>>, n: usize, m: usize)
    requires
        m <= n,
        oneof_fields_text(s, config, msg, fq, groups, n) is Some,
    ensures
        oneof_fields_text(s, config, msg, fq, groups, m) is Some,
    decreases n,
{
    if m < n {
        lemma_oneof_fields_prefix(s, config, msg, fq, groups, (n - 1) as usize, m);
    }
}

proof fn lemma_nested_prefix(s: St, config: Config, graph: MessageGraph, parent: MessageDescriptor, n: usize, m: usize)
    requires
        m <= n <= parent.nested@.len(),
        nested_text(s, config, graph, parent, n) is Some,
    ensures
        nested_text(s, config, graph, parent, m) is Some,
    decreases n,
{
    if m < n {
        lemma_nested_prefix(s, config, graph, parent, (n - 1) as usize, m);
    }
}

proof fn lemma_enums_prefix(s: St, config: Config, enums: Seq<EnumDescriptor>, n: usize, m: usize)
    requires
        m <= n <= enums.len(),
        enums_text(s, config, enums, n) is Some,
    ensures
        enums_text(s, config, enums, m) is Some,
    decreases n,
{
    if m < n {
        lemma_enums_prefix(s, config, enums, (n - 1) as usize, m);
    }
}

proof fn lemma_oneofs_prefix(s: St, config: Config, graph: MessageGraph, fq: Seq<char>, msg: MessageDescriptor, n: usize, m: usize)
    requires
        m <= n <= msg.oneofs@.len(),
        oneofs_text(s, config, graph, fq, msg, n) is Some,
    ensures
        oneofs_text(s, config, graph, fq, msg, m) is Some,
    decreases n,
{
    if m < n {
        lemma_oneofs_prefix(s, config, graph, fq, msg, (n - 1) as usize, m);
    }
}

proof fn lemma_messages_prefix(s: St, config: Config, graph: MessageGraph, msgs: Seq<MessageDescriptor>, n: usize, m: usize)
    requires
        m <= n <= msgs.len(),
        messages_text(s, config, graph, msgs, n) is Some,
    ensures
        messages_text(s, config, graph, msgs, m) is Some,
    decreases n,
{
    if m < n {
        lemma_messages_prefix(s, config, graph, msgs, (n - 1) as usize, m);
    }
}

/// Whether the message `msg` gets a module of its own: it has nested types
/// that are not map entries, nested enums, or oneofs.
pub open spec fn has_module(msg: MessageDescriptor) -> bool {
    nested_where(msg.nested@, false).len() > 0 || msg.enums@.len() > 0 || msg.oneofs@.len() > 0
}

/// Whether the text `b` ends with the text `e`.
pub open spec fn ends_with(b: Seq<char>, e: Seq<char>) -> bool {
    e.len() <= b.len() && b.subrange(b.len() - e.len(), b.len() as int) == e
}

/// The head of the declaration of the message `msg` written by the
/// generator in state `g`: its doc lines, derive line, type attributes and
/// the line that opens its struct.
pub open spec fn message_head(g: St, config: Config, msg: MessageDescriptor) -> Seq<char> {
    let d = g.depth;
    doc_at(g.locs, g.path, d)->0 + indent(d) + "#[derive(Clone, PartialEq, Message)]\n"@
        + attr_text(d, config.type_attributes@, rule_path(qualified_name(g.package, msg.name@), None))
        + indent(d) + "pub struct "@ + camel_of(msg.name@) + " {\n"@
}

/// Whether the text `b` starts with the text `a`.
pub open spec fn grows(a: Seq<char>, b: Seq<char>) -> bool {
    a.len() <= b.len() && forall|i: int| 0 <= i < a.len() ==> a[i] == b[i]
}

impl CodeGenerator {
    /// Whether `o` has the same settings as `self`.
    pub open spec fn fixed(self, o: Self) -> bool {
        self.syntax == o.syntax && self.locations == o.locations
    }

    /// Whether `o` is back at the module, depth and path of `self`.
    pub open spec fn restored(self, o: Self) -> bool {
        self.package@ == o.package@ && self.scope@ == o.scope@ && self.depth == o.depth
            && self.path@ == o.path@
    }

    /// Whether `o` has the settings and services of `self`, and, when `ok`,
    /// is back at its module, depth and path.
    pub open spec fn after(self, o: Self, ok: bool) -> bool {
        self.fixed(o) && self.services == o.services && (ok ==> self.restored(o))
    }

    /// Whether `o` differs from `self` in its text at most.
    pub open spec fn same_but_text(self, o: Self) -> bool {
        self.fixed(o) && self.restored(o) && self.services == o.services
    }

    /// Appends `s` to the text.
    pub fn emit(&mut self, s: &str)
        ensures
            final(self).buf@ == old(self).buf@ + s@,
            old(self).same_but_text(*final(self)),
    {
        self.buf.append(s);
    }

    /// Appends the indentation of the current depth.
    pub fn push_indent(&mut self)
        ensures
            final(self).buf@ == old(self).buf@ + indent(old(self).depth as nat),
            old(self).same_but_text(*final(self)),
    {
        let mut i: u8 = 0;
        while i < self.depth
            invariant
                0 <= i <= self.depth,
                self.buf@ == old(self).buf@ + indent(i as nat),
                old(self).same_but_text(*self),
            decreases self.depth - i,
        {
            proof {
                reveal_strlit("    ");
            }
            self.emit("    ");
            proof {
                assert(indent((i + 1) as nat) == indent(i as nat) + "    "@);
                assert(self.buf@ =~= old(self).buf@ + indent((i + 1) as nat));
            }
            i = i + 1;
        }
    }

    fn enter(&mut self, k: i32)
        ensures
            final(self).path@ == old(self).path@.push(k),
            final(self).fixed(*old(self)),
            final(self).package@ == old(self).package@,
            final(self).scope@ == old(self).scope@,
            final(self).depth == old(self).depth,
            final(self).services == old(self).services,
            final(self).buf == old(self).buf,
    {
        self.path.push(k);
    }

    fn leave(&mut self)
        requires
            old(self).path@.len() > 0,
        ensures
            final(self).path@ == old(self).path@.drop_last(),
            final(self).fixed(*old(self)),
            final(self).package@ == old(self).package@,
            final(self).scope@ == old(self).scope@,
            final(self).depth == old(self).depth,
            final(self).services == old(self).services,
            final(self).buf == old(self).buf,
    {
        self.path.pop();
    }

    /// The comment lines attached to the current path.
    fn comment_lines(&self) -> (r: Result<Vec<String>, GenError>)
        ensures
            r is Err <==> !has_location(self.locations@, self.path@),
            r matches Ok(v) ==> views(v@) == comment_at(self.locations@, self.path@),
            r matches Err(e) ==> e == GenError::MissingComment,
    {
        match find_location(&self.locations, &self.path) {
            Some(i) => {
                let lines = &self.locations[i].lines;
                let mut out: Vec<String> = Vec::new();
                let mut j: usize = 0;
                while j < lines.len()
                    invariant
                        0 <= j <= lines@.len(),
                        views(out@) == views(lines@.take(j as int)),
                    decreases lines@.len() - j,
                {
                    let ghost o = out@;
                    let line = lines[j].clone();
                    out.push(line);
                    proof {
                        assert(views(out@) =~= views(o).push(line@));
                        assert(views(lines@.take(j + 1)) =~= views(lines@.take(j as int)).push(lines@[j as int]@));
                    }
                    j = j + 1;
                }
                assert(lines@.take(j as int) =~= lines@);
                Ok(out)
            },
            None => Err(GenError::MissingComment),
        }
    }

    /// Writes the comment attached to the current path as doc lines; fails
    /// when the comment index has no entry for the path.
    pub fn append_doc(&mut self) -> (r: Result<(), GenError>)
        ensures
            no_syntax_error(r),
            r is Err <==> !has_location(old(self).locations@, old(self).path@),
            r is Err <==> doc_at(old(self).locations@, old(self).path@, old(self).depth as nat) is None,
            r is Err ==> *final(self) == *old(self),
            old(self).same_but_text(*final(self)),
            r is Ok ==> final(self).buf@ == old(self).buf@
                + doc_at(old(self).locations@, old(self).path@, old(self).depth as nat)->0,
    {
        let i = match find_location(&self.locations, &self.path) {
            Some(i) => i,
            None => return Err(GenError::MissingComment),
        };
        let ghost lines = self.locations@[i as int].lines@;
        let mut j: usize = 0;
        while j < self.locations[i].lines.len()
            invariant
                old(self).same_but_text(*self),
                i < self.locations@.len(),
                lines == self.locations@[i as int].lines@,
                0 <= j <= lines.len(),
                self.buf@ == old(self).buf@ + doc_text(self.depth as nat, lines.take(j as int)),
            decreases lines.len() - j,
        {
            let line = self.locations[i].lines[j].clone();
            self.push_indent();
            self.emit("///");
            self.emit(line.as_str());
            self.emit("\n");
            proof {
                assert(lines.take(j + 1).drop_last() =~= lines.take(j as int));
                assert(self.buf@ =~= old(self).buf@ + doc_text(self.depth as nat, lines.take(j + 1)));
            }
            j = j + 1;
        }
        proof {
            assert(lines.take(j as int) =~= lines);
        }
        Ok(())
    }

    /// Writes each attribute whose matcher selects the type `name`.
    pub fn append_type_attributes(&mut self, config: &Config, name: &str)
        ensures
            old(self).same_but_text(*final(self)),
            final(self).buf@ == old(self).buf@ + attr_text(old(self).depth as nat, config.type_attributes@, rule_path(name@, None)),
    {
        let n = chars_of(name);
        let mut i: usize = 0;
        while i < config.type_attributes.len()
            invariant
                0 <= i <= config.type_attributes@.len(),
                n@ == name@,
                old(self).same_but_text(*self),
                self.buf@ == old(self).buf@ + attr_text(self.depth as nat, config.type_attributes@.take(i as int), rule_path(name@, None)),
            decreases config.type_attributes@.len() - i,
        {
            proof {
                assert(config.type_attributes@.take(i + 1).drop_last() =~= config.type_attributes@.take(i as int));
            }
            if match_ident(config.type_attributes[i].0.as_str(), n.as_slice(), None) {
                self.push_indent();
                self.emit(config.type_attributes[i].1.as_str());
                self.emit("\n");
            }
            proof {
                assert(self.buf@ =~= old(self).buf@ + attr_text(self.depth as nat, config.type_attributes@.take(i + 1), rule_path(name@, None)));
            }
            i = i + 1;
        }
        assert(config.type_attributes@.take(i as int) =~= config.type_attributes@);
    }

    /// Writes each attribute whose matcher selects the member `field` of `name`.
    pub fn append_field_attributes(&mut self, config: &Config, name: &str, field: &str)
        ensures
            old(self).same_but_text(*final(self)),
            final(self).buf@ == old(self).buf@ + attr_text(old(self).depth as nat, config.field_attributes@, rule_path(name@, Some(field@))),
    {
        let n = chars_of(name);
        let mut i: usize = 0;
        while i < config.field_attributes.len()
            invariant
                0 <= i <= config.field_attributes@.len(),
                n@ == name@,
                old(self).same_but_text(*self),
                self.buf@ == old(self).buf@ + attr_text(self.depth as nat, config.field_attributes@.take(i as int), rule_path(name@, Some(field@))),
            decreases config.field_attributes@.len() - i,
        {
            proof {
                assert(config.field_attributes@.take(i + 1).drop_last() =~= config.field_attributes@.take(i as int));
            }
            if match_ident(config.field_attributes[i].0.as_str(), n.as_slice(), Some(field)) {
                self.push_indent();
                self.emit(config.field_attributes[i].1.as_str());
                self.emit("\n");
            }
            proof {
                assert(self.buf@ =~= old(self).buf@ + attr_text(self.depth as nat, config.field_attributes@.take(i + 1), rule_path(name@, Some(field@))));
            }
            i = i + 1;
        }
        assert(config.field_attributes@.take(i as int) =~= config.field_attributes@);
    }

    /// Writes the default value of a field inside its tag.
    fn append_default(&mut self, config: &Config, field: &FieldDescriptor, default: &String) -> (r: Result<(), GenError>)
        ensures
            no_syntax_error(r),
            old(self).after(*final(self), r is Ok),
            r is Ok <==> default_text(*config, *field, default@) is Some,
            r is Ok ==> final(self).buf@ == old(self).buf@ + default_text(*config, *field, default@)->0,
    {
        if field.field_type == FieldType::Bytes {
            let bytes = match unescape_c_escape_string(default.as_str()) {
                Ok(b) => b,
                Err(_) => return Err(GenError::BadDefault),
            };
            let escaped = escape_bytes(bytes.as_slice());
            let quoted = quote_bytes(escaped.as_slice());
            let text = string_of(quoted.as_slice());
            self.emit("b\\\"");
            self.emit(text.as_str());
            self.emit("\\\"");
            proof {
                assert(self.buf@ =~= old(self).buf@ + default_text(*config, *field, default@)->0);
            }
        } else if field.field_type == FieldType::Enum {
            let value = to_upper_camel(default.as_str());
            let stripped = if config.strip_enum_prefix {
                let parts = split_at_dots(chars_of(field.type_ref.as_str()).as_slice());
                proof {
                    crate::resolve::lemma_split_dots_len(field.type_ref@);
                }
                let enum_name = to_upper_camel(parts[parts.len() - 1].as_str());
                strip_enum_prefix(enum_name.as_str(), value.as_str())
            } else {
                default.clone()
            };
            self.emit(to_upper_camel(stripped.as_str()).as_str());
        } else {
            self.emit(default.as_str());
        }
        Ok(())
    }

    /// Writes the cardinality part of a field's tag.
    fn append_label(&mut self, field: &FieldDescriptor)
        ensures
            old(self).same_but_text(*final(self)),
            final(self).buf@ == old(self).buf@ + label_text(old(self).syntax, *field),
    {
        match field.label {
            Label::Optional => {
                if optional(self.syntax, field) {
                    self.emit(", optional");
                }
            },
            Label::Required => self.emit(", required"),
            Label::Repeated => {
                self.emit(", repeated");
                if needs_unpacked_mark(self.syntax, field) {
                    self.emit(", packed=\"false\"");
                }
            },
        }
        assert(self.buf@ =~= old(self).buf@ + label_text(old(self).syntax, *field));
    }

    /// Writes the tag line of a field: its type, cardinality, box, number and
    /// default value.
    #[verifier::rlimit(100)]
    fn append_field_tag(&mut self, config: &Config, field: &FieldDescriptor, boxed: bool) -> (r: Result<(), GenError>)
        requires
            !(field.field_type == FieldType::Enum && !is_qualified(field.type_ref@)),
        ensures
            no_syntax_error(r),
            old(self).after(*final(self), r is Ok),
            r is Ok <==> default_part(*config, *field) is Some,
            r is Ok ==> final(self).buf@ == old(self).buf@
                + tag_line(old(self).depth as nat, views(old(self).scope@), old(self).syntax, *config, *field, boxed),
    {
        let ghost d = self.depth as nat;
        self.push_indent();
        self.emit("#[prost(");
        let type_tag = match field_type_tag(&self.scope, field) {
            Ok(t) => t,
            Err(e) => return Err(e),
        };
        self.emit(type_tag.as_str());
        self.append_label(field);
        if boxed {
            self.emit(", boxed");
        }
        self.emit(", tag=\"");
        self.emit(decimal(field.number).as_str());
        let ghost b2 = self.buf@;
        match &field.default_value {
            Some(default) => {
                self.emit("\", default=\"");
                self.append_default(config, field, default)?;
            },
            None => {},
        }
        assert(self.buf@ =~= b2 + default_part(*config, *field)->0);
        self.emit("\")]\n");
        assert(self.buf@ =~= old(self).buf@
            + tag_line(d, views(old(self).scope@), old(self).syntax, *config, *field, boxed));
        Ok(())
    }

    /// Writes the declaration line of a field.
    fn append_field_decl(&mut self, name: &str, repeated: bool, optional: bool, boxed: bool, ty: &str)
        ensures
            old(self).same_but_text(*final(self)),
            final(self).buf@ == old(self).buf@
                + decl_line(old(self).depth as nat, name@, wrapped_type(repeated, optional, boxed, ty@)),
    {
        self.push_indent();
        self.emit("pub ");
        self.emit(to_snake(name).as_str());
        self.emit(": ");
        if repeated {
            self.emit("::std::vec::Vec<");
        } else if optional {
            self.emit("::std::option::Option<");
        }
        if boxed {
            self.emit("::std::boxed::Box<");
        }
        self.emit(ty);
        if boxed {
            self.emit(">");
        }
        if repeated || optional {
            self.emit(">");
        }
        self.emit(",\n");
        assert(self.buf@ =~= old(self).buf@
            + decl_line(old(self).depth as nat, name@, wrapped_type(repeated, optional, boxed, ty@)));
    }

    /// Writes one ordinary field of the message `msg_name`. Group fields are
    /// not supported and are left out.
    #[verifier::rlimit(100)]
    pub fn append_field(&mut self, config: &Config, graph: &MessageGraph, msg_name: &str, field: &FieldDescriptor) -> (r: Result<(), GenError>)
        ensures
            no_syntax_error(r),
            old(self).after(*final(self), r is Ok),
            field.field_type == FieldType::Group ==> r is Ok && *final(self) == *old(self),
            field.field_type != FieldType::Group ==>
                (r is Ok <==> field_text(st_of(*old(self)), *config, *graph, msg_name@, *field) is Some),
            field.field_type != FieldType::Group && r is Ok ==> final(self).buf@ == old(self).buf@
                + field_text(st_of(*old(self)), *config, *graph, msg_name@, *field)->0,
    {
        if field.field_type == FieldType::Group {
            return Ok(());
        }
        let repeated = field.label == Label::Repeated;
        let optional = optional(self.syntax, field);
        let ty = resolve_type(config, &self.scope, field)?;
        let boxed = field_boxed(graph, msg_name, field);
        self.append_doc()?;
        if field.field_type == FieldType::Enum && chars_of(field.type_ref.as_str()).len() == 0 {
            return Err(GenError::NotQualified);
        }
        let c = chars_of(field.type_ref.as_str());
        if field.field_type == FieldType::Enum && c[0] != '.' {
            return Err(GenError::NotQualified);
        }
        let ghost b1 = self.buf@;
        self.append_field_tag(config, field, boxed)?;
        let ghost b2 = self.buf@;
        self.append_field_attributes(config, msg_name, field.name.as_str());
        let ghost b3 = self.buf@;
        self.append_field_decl(field.name.as_str(), repeated, optional, boxed, ty.as_str());
        proof {
            let g = *old(self);
            let d = g.depth as nat;
            assert(b1 == g.buf@ + doc_at(g.locations@, g.path@, d)->0);
            assert(self.buf@ =~= g.buf@ + field_text(st_of(g), *config, *graph, msg_name@, *field)->0);
        }
        Ok(())
    }

    /// Writes a map field of the message `msg_name`, whose entries have the
    /// given key and value fields.
    #[verifier::rlimit(100)]
    pub fn append_map_field(
        &mut self,
        config: &Config,
        msg_name: &str,
        field: &FieldDescriptor,
        key: &FieldDescriptor,
        value: &FieldDescriptor,
    ) -> (r: Result<(), GenError>)
        ensures
            no_syntax_error(r),
            old(self).after(*final(self), r is Ok),
            r is Ok <==> map_field_text(st_of(*old(self)), *config, msg_name@, *field, *key, *value) is Some,
            r is Ok ==> final(self).buf@ == old(self).buf@
                + map_field_text(st_of(*old(self)), *config, msg_name@, *field, *key, *value)->0,
    {
        let key_ty = resolve_type(config, &self.scope, key)?;
        let value_ty = resolve_type(config, &self.scope, value)?;
        self.append_doc()?;
        let ghost b1 = self.buf@;
        let btree_map = uses_btree_map(config, msg_name, field.name.as_str());
        let key_tag = field_type_tag(&self.scope, key)?;
        let value_tag = map_value_type_tag(&self.scope, value)?;
        self.append_map_tag(btree_map, key_tag.as_str(), value_tag.as_str(), field.number);
        self.append_field_attributes(config, msg_name, field.name.as_str());
        self.append_map_decl(btree_map, field.name.as_str(), key_ty.as_str(), value_ty.as_str());
        proof {
            let g = *old(self);
            assert(self.buf@ =~= g.buf@ + map_field_text(st_of(g), *config, msg_name@, *field, *key, *value)->0);
        }
        Ok(())
    }

    fn append_map_tag(&mut self, btree_map: bool, key_tag: &str, value_tag: &str, number: i32)
        ensures
            old(self).same_but_text(*final(self)),
            final(self).buf@ == old(self).buf@
                + map_tag_line(old(self).depth as nat, btree_map, key_tag@, value_tag@, number),
    {
        self.push_indent();
        self.emit("#[prost(");
        self.emit(if btree_map { "btree_map" } else { "map" });
        self.emit("=\"");
        self.emit(key_tag);
        self.emit(", ");
        self.emit(value_tag);
        self.emit("\", tag=\"");
        self.emit(decimal(number).as_str());
        self.emit("\")]\n");
        assert(self.buf@ =~= old(self).buf@
            + map_tag_line(old(self).depth as nat, btree_map, key_tag@, value_tag@, number));
    }

    fn append_map_decl(&mut self, btree_map: bool, name: &str, key_ty: &str, value_ty: &str)
        ensures
            old(self).same_but_text(*final(self)),
            final(self).buf@ == old(self).buf@
                + map_decl_line(old(self).depth as nat, btree_map, name@, key_ty@, value_ty@),
    {
        self.push_indent();
        self.emit("pub ");
        self.emit(to_snake(name).as_str());
        self.emit(": ::std::collections::");
        self.emit(if btree_map { "BTreeMap" } else { "HashMap" });
        self.emit("<");
        self.emit(key_ty);
        self.emit(", ");
        self.emit(value_ty);
        self.emit(">,\n");
        assert(self.buf@ =~= old(self).buf@
            + map_decl_line(old(self).depth as nat, btree_map, name@, key_ty@, value_ty@));
    }

    /// Writes the field that holds the oneof `oneof` of the message named
    /// `message_name`; `numbers` are the field numbers of its members.
    #[verifier::rlimit(100)]
    pub fn append_oneof_field(
        &mut self,
        config: &Config,
        message_name: &str,
        fq_message_name: &str,
        oneof: &OneofDescriptor,
        numbers: &Vec<i32>,
    ) -> (r: Result<(), GenError>)
        ensures
            no_syntax_error(r),
            old(self).after(*final(self), r is Ok),
            r is Ok <==> doc_at(old(self).locations@, old(self).path@, old(self).depth as nat) is Some,
            r is Ok ==> final(self).buf@ == old(self).buf@ + oneof_field_text(
                st_of(*old(self)), *config, message_name@, fq_message_name@, oneof.name@, numbers@),
    {
        let mut name = to_snake(message_name);
        name.append("::");
        name.append(to_upper_camel(oneof.name.as_str()).as_str());
        self.append_doc()?;
        let ghost b1 = self.buf@;
        self.push_indent();
        self.emit("#[prost(oneof=\"");
        self.emit(name.as_str());
        self.emit("\", tags=\"");
        let ghost b2 = self.buf@;
        let mut i: usize = 0;
        while i < numbers.len()
            invariant
                0 <= i <= numbers@.len(),
                old(self).same_but_text(*self),
                self.buf@ == b2 + tags_text(numbers@.take(i as int)),
            decreases numbers@.len() - i,
        {
            proof {
                assert(numbers@.take(i + 1).drop_last() =~= numbers@.take(i as int));
                if i == 0 {
                    assert(numbers@.take(0) =~= Seq::<i32>::empty());
                }
            }
            if i > 0 {
                self.emit(", ");
            }
            self.emit(decimal(numbers[i]).as_str());
            proof {
                assert(self.buf@ =~= b2 + tags_text(numbers@.take(i + 1)));
            }
            i = i + 1;
        }
        assert(numbers@.take(i as int) =~= numbers@);
        self.emit("\")]\n");
        self.append_field_attributes(config, fq_message_name, oneof.name.as_str());
        self.push_indent();
        self.emit("pub ");
        self.emit(to_snake(oneof.name.as_str()).as_str());
        self.emit(": ::std::option::Option<");
        self.emit(name.as_str());
        self.emit(">,\n");
        proof {
            assert(self.buf@ =~= old(self).buf@ + oneof_field_text(
                st_of(*old(self)), *config, message_name@, fq_message_name@, oneof.name@, numbers@));
        }
        Ok(())
    }

    /// Writes the variant of a oneof type for the member field at position
    /// `pos` of `fields`.
    #[verifier::rlimit(100)]
    fn append_variant(
        &mut self,
        config: &Config,
        graph: &MessageGraph,
        msg_name: &str,
        oneof_name: &str,
        fields: &Vec<FieldDescriptor>,
        pos: usize,
    ) -> (r: Result<(), GenError>)
        requires
            pos < fields@.len(),
        ensures
            no_syntax_error(r),
            old(self).after(*final(self), r is Ok),
            r is Ok <==> variant_text(old(self).locations@, old(self).path@, old(self).depth as nat,
                views(old(self).scope@), *config, *graph, msg_name@, oneof_name@, fields@, pos as int) is Some,
            r is Ok ==> final(self).buf@ == old(self).buf@ + variant_text(old(self).locations@, old(self).path@,
                old(self).depth as nat, views(old(self).scope@), *config, *graph, msg_name@, oneof_name@,
                fields@, pos as int)->0,
    {
        let field = &fields[pos];
        let ghost start_path = self.path@;
        self.enter(pos as i32);
        self.append_doc()?;
        self.leave();
        assert(self.path@ =~= start_path);
        self.push_indent();
        let ty_tag = field_type_tag(&self.scope, field)?;
        self.emit("#[prost(");
        self.emit(ty_tag.as_str());
        self.emit(", tag=\"");
        self.emit(decimal(field.number).as_str());
        self.emit("\")]\n");
        self.append_field_attributes(config, oneof_name, field.name.as_str());
        self.push_indent();
        let ty = resolve_type(config, &self.scope, field)?;
        let boxed = field.field_type == FieldType::Message
            && graph.is_nested(field.type_ref.as_str(), msg_name);
        self.append_variant_decl(field.name.as_str(), boxed, ty.as_str());
        proof {
            assert(self.buf@ =~= old(self).buf@ + variant_text(old(self).locations@, old(self).path@,
                old(self).depth as nat, views(old(self).scope@), *config, *graph, msg_name@, oneof_name@,
                fields@, pos as int)->0);
        }
        Ok(())
    }

    /// Writes the variant line of a oneof member named `name` of type `ty`.
    fn append_variant_decl(&mut self, name: &str, boxed: bool, ty: &str)
        ensures
            old(self).same_but_text(*final(self)),
            final(self).buf@ == old(self).buf@ + camel_of(name@)
                + if boxed { "(Box<"@ + ty@ + ">),\n"@ } else { "("@ + ty@ + "),\n"@ },
    {
        self.emit(to_upper_camel(name).as_str());
        if boxed {
            self.emit("(Box<");
            self.emit(ty);
            self.emit(">),\n");
        } else {
            self.emit("(");
            self.emit(ty);
            self.emit("),\n");
        }
        assert(self.buf@ =~= old(self).buf@ + camel_of(name@)
            + if boxed { "(Box<"@ + ty@ + ">),\n"@ } else { "("@ + ty@ + "),\n"@ });
    }

    /// Writes the variants for the member fields at the positions `members`.
    fn append_variants(
        &mut self,
        config: &Config,
        graph: &MessageGraph,
        msg_name: &str,
        oneof_name: &str,
        fields: &Vec<FieldDescriptor>,
        members: &Vec<usize>,
    ) -> (r: Result<(), GenError>)
        ensures
            no_syntax_error(r),
            old(self).after(*final(self), r is Ok),
            r is Ok <==> variants_text(old(self).locations@, old(self).path@, old(self).depth as nat,
                views(old(self).scope@), *config, *graph, msg_name@, oneof_name@, fields@, members@) is Some,
            r is Ok ==> final(self).buf@ == old(self).buf@ + variants_text(old(self).locations@, old(self).path@,
                old(self).depth as nat, views(old(self).scope@), *config, *graph, msg_name@, oneof_name@,
                fields@, members@)->0,
    {
        let ghost g = *old(self);
        let ghost d = g.depth as nat;
        let ghost sc = views(g.scope@);
        proof {
            assert(members@.take(0) =~= Seq::<usize>::empty());
            assert(g.buf@ =~= g.buf@ + Seq::<char>::empty());
        }
        let mut i: usize = 0;
        while i < members.len()
            invariant
                0 <= i <= members@.len(),
                g == *old(self),
                d == g.depth as nat,
                sc == views(g.scope@),
                g.fixed(*self),
                g.restored(*self),
                self.services == g.services,
                variants_text(g.locations@, g.path@, d, sc, *config, *graph, msg_name@, oneof_name@, fields@,
                    members@.take(i as int)) is Some,
                self.buf@ == g.buf@ + variants_text(g.locations@, g.path@, d, sc, *config, *graph, msg_name@,
                    oneof_name@, fields@, members@.take(i as int))->0,
            decreases members@.len() - i,
        {
            let pos = members[i];
            proof {
                assert(members@.take(i + 1).drop_last() =~= members@.take(i as int));
                assert(members@.take(i + 1).last() == pos);
                if variants_text(g.locations@, g.path@, d, sc, *config, *graph, msg_name@, oneof_name@, fields@,
                    members@) is Some {
                    lemma_variants_prefix(g.locations@, g.path@, d, sc, *config, *graph, msg_name@, oneof_name@,
                        fields@, members@, i + 1);
                }
            }
            if pos < fields.len() && fields[pos].field_type != FieldType::Group {
                match self.append_variant(config, graph, msg_name, oneof_name, fields, pos) {
                    Ok(()) => {},
                    Err(e) => {
                        proof {
                            assert(variants_text(g.locations@, g.path@, d, sc, *config, *graph, msg_name@,
                                oneof_name@, fields@, members@.take(i + 1)) is None);
                        }
                        return Err(e);
                    },
                }
            }
            proof {
                assert(self.buf@ =~= g.buf@ + variants_text(g.locations@, g.path@, d, sc, *config, *graph,
                    msg_name@, oneof_name@, fields@, members@.take(i + 1))->0);
            }
            i = i + 1;
        }
        assert(members@.take(i as int) =~= members@);
        Ok(())
    }

    /// Writes the enum type of the oneof `oneof` (number `idx`) of the message
    /// `msg_name`, with one variant per member field at the positions `members`.
    #[verifier::rlimit(100)]
    pub fn append_oneof(
        &mut self,
        config: &Config,
        graph: &MessageGraph,
        msg_name: &str,
        oneof: &OneofDescriptor,
        idx: i32,
        members: &Vec<usize>,
        fields: &Vec<FieldDescriptor>,
    ) -> (r: Result<(), GenError>)
        ensures
            no_syntax_error(r),
            old(self).after(*final(self), r is Ok),
            r is Ok <==> oneof_text(st_of(*old(self)), *config, *graph, msg_name@, oneof.name@, idx, members@, fields@) is Some,
            r is Ok ==> final(self).buf@ == old(self).buf@
                + oneof_text(st_of(*old(self)), *config, *graph, msg_name@, oneof.name@, idx, members@, fields@)->0,
    {
        let ghost start_path = self.path@;
        self.enter(8);
        self.enter(idx);
        assert(self.path@ == start_path.push(8).push(idx));
        self.append_doc()?;
        self.leave();
        self.leave();
        assert(self.path@ =~= start_path);
        self.push_indent();
        self.emit("#[derive(Clone, Oneof, PartialEq)]\n");
        let mut oneof_name = msg_name.to_owned();
        oneof_name.append(".");
        oneof_name.append(oneof.name.as_str());
        proof {
            reveal_strlit(".");
            assert(oneof_name@ =~= msg_name@ + seq!['.'] + oneof.name@);
        }
        self.append_type_attributes(config, oneof_name.as_str());
        self.push_indent();
        self.emit("pub enum ");
        self.emit(to_upper_camel(oneof.name.as_str()).as_str());
        self.emit(" {\n");
        if self.depth == 255 {
            return Err(GenError::TooDeep);
        }
        self.enter(2);
        self.depth = self.depth + 1;
        self.append_variants(config, graph, msg_name, oneof_name.as_str(), fields, members)?;
        self.depth = self.depth - 1;
        self.leave();
        assert(self.path@ =~= start_path);
        self.push_indent();
        self.emit("}\n");
        proof {
            assert(self.buf@ =~= old(self).buf@
                + oneof_text(st_of(*old(self)), *config, *graph, msg_name@, oneof.name@, idx, members@, fields@)->0);
        }
        Ok(())
    }

    /// Writes one value of the enum named `fq_enum_name`, with `prefix`
    /// stripped from its name when given.
    #[verifier::rlimit(100)]
    pub fn append_enum_value(
        &mut self,
        config: &Config,
        fq_enum_name: &str,
        value: &EnumValueDescriptor,
        prefix: &Option<String>,
    ) -> (r: Result<(), GenError>)
        ensures
            no_syntax_error(r),
            old(self).after(*final(self), r is Ok),
            r is Err <==> doc_at(old(self).locations@, old(self).path@, old(self).depth as nat) is None,
            r is Ok ==> final(self).buf@ == old(self).buf@
                + doc_at(old(self).locations@, old(self).path@, old(self).depth as nat)->0
                + attr_text(old(self).depth as nat, config.field_attributes@, rule_path(fq_enum_name@, Some(value.name@)))
                + indent(old(self).depth as nat) + value_name(opt_view(*prefix), value.name@) + " = "@
                + decimal_of(value.number as int) + ",\n"@,
    {
        self.append_doc()?;
        self.append_field_attributes(config, fq_enum_name, value.name.as_str());
        self.push_indent();
        let name = to_upper_camel(value.name.as_str());
        let shown = match prefix {
            Some(p) => strip_enum_prefix(p.as_str(), name.as_str()),
            None => name,
        };
        self.emit(shown.as_str());
        self.emit(" = ");
        self.emit(decimal(value.number).as_str());
        self.emit(",\n");
        proof {
            let d = old(self).depth as nat;
            assert(self.buf@ =~= old(self).buf@
                + doc_at(old(self).locations@, old(self).path@, d)->0
                + attr_text(d, config.field_attributes@, rule_path(fq_enum_name@, Some(value.name@)))
                + indent(d) + value_name(opt_view(*prefix), value.name@) + " = "@
                + decimal_of(value.number as int) + ",\n"@);
        }
        Ok(())
    }

    /// The fully-qualified schema name of the type `name` in the current scope.
    fn qualified(&self, name: &String) -> (r: String)
        ensures
            r@ == qualified_name(self.package@, name@),
    {
        proof {
            reveal_strlit(".");
        }
        let mut fq = ".".to_owned();
        if !self.package.as_str().is_empty() {
            fq.append(self.package.as_str());
            fq.append(".");
        }
        fq.append(name.as_str());
        fq
    }

    /// Writes the values of an enum at the positions `idxs`, each under its
    /// own path.
    fn append_enum_values(
        &mut self,
        config: &Config,
        fq_enum_name: &str,
        desc: &EnumDescriptor,
        prefix: &Option<String>,
        idxs: &Vec<usize>,
    ) -> (r: Result<(), GenError>)
        requires
            forall|k: int| 0 <= k < idxs@.len() ==> #[trigger] idxs@[k] < desc.values@.len(),
        ensures
            no_syntax_error(r),
            old(self).after(*final(self), r is Ok),
            r is Ok <==> values_text(old(self).locations@, old(self).path@, old(self).depth as nat, *config,
                fq_enum_name@, desc.values@, idxs@, opt_view(*prefix)) is Some,
            r is Ok ==> final(self).buf@ == old(self).buf@ + values_text(old(self).locations@, old(self).path@,
                old(self).depth as nat, *config, fq_enum_name@, desc.values@, idxs@, opt_view(*prefix))->0,
    {
        let ghost g = *old(self);
        let ghost d = g.depth as nat;
        let ghost start_path = g.path@;
        let ghost pv = opt_view(*prefix);
        proof {
            assert(idxs@.take(0) =~= Seq::<usize>::empty());
            assert(g.buf@ =~= g.buf@ + Seq::<char>::empty());
        }
        let mut i: usize = 0;
        while i < idxs.len()
            invariant
                0 <= i <= idxs@.len(),
                forall|k: int| 0 <= k < idxs@.len() ==> #[trigger] idxs@[k] < desc.values@.len(),
                g.fixed(*self),
                g.restored(*self),
                g == *old(self),
                start_path == g.path@,
                d == g.depth as nat,
                pv == opt_view(*prefix),
                self.services == g.services,
                values_text(g.locations@, start_path, d, *config, fq_enum_name@, desc.values@, idxs@.take(i as int), pv) is Some,
                self.buf@ == g.buf@ + values_text(g.locations@, start_path, d, *config, fq_enum_name@, desc.values@,
                    idxs@.take(i as int), pv)->0,
            decreases idxs@.len() - i,
        {
            let idx = idxs[i];
            proof {
                assert(idxs@.take(i + 1).drop_last() =~= idxs@.take(i as int));
                assert(idxs@.take(i + 1).last() == idx);
                if values_text(g.locations@, start_path, d, *config, fq_enum_name@, desc.values@, idxs@, pv) is Some {
                    lemma_values_prefix(g.locations@, start_path, d, *config, fq_enum_name@, desc.values@, idxs@, pv, i + 1);
                }
            }
            self.enter(idx as i32);
            assert(self.path@ == start_path.push(idx as i32));
            match self.append_enum_value(config, fq_enum_name, &desc.values[idx], prefix) {
                Ok(()) => {},
                Err(e) => {
                    proof {
                        assert(values_text(g.locations@, start_path, d, *config, fq_enum_name@, desc.values@,
                            idxs@.take(i + 1), pv) is None);
                    }
                    return Err(e);
                },
            }
            self.leave();
            assert(self.path@ =~= start_path);
            proof {
                assert(self.buf@ =~= g.buf@ + values_text(g.locations@, start_path, d, *config,
                    fq_enum_name@, desc.values@, idxs@.take(i + 1), pv)->0);
            }
            i = i + 1;
        }
        assert(idxs@.take(i as int) =~= idxs@);
        Ok(())
    }

    /// Writes an enum type, leaving out its aliases. Nothing is written for a
    /// type that a Rust type replaces.
    #[verifier::rlimit(100)]
    pub fn append_enum(&mut self, config: &Config, desc: &EnumDescriptor) -> (r: Result<(), GenError>)
        ensures
            no_syntax_error(r),
            old(self).after(*final(self), r is Ok),
            r is Ok <==> enum_text(st_of(*old(self)), *config, *desc) is Some,
            r is Ok && known_of(*config, qualified_name(old(self).package@, desc.name@)) is None
                ==> has_location(old(self).locations@, old(self).path@),
            r is Ok ==> final(self).buf@ == old(self).buf@ + enum_text(st_of(*old(self)), *config, *desc)->0,
            known_of(*config, qualified_name(old(self).package@, desc.name@)) is Some
                ==> r is Ok && *final(self) == *old(self),
    {
        let fq_enum_name = self.qualified(&desc.name);
        let fq_chars = chars_of(fq_enum_name.as_str());
        assert(fq_chars@ == fq_enum_name@);
        match known_type(config, fq_chars.as_slice()) {
            Some(_) => return Ok(()),
            None => {},
        }
        self.append_doc()?;
        self.push_indent();
        self.emit("#[derive(Clone, Copy, Debug, PartialEq, Eq, Hash, PartialOrd, Ord, Enumeration)]\n");
        self.append_type_attributes(config, fq_enum_name.as_str());
        self.push_indent();
        self.emit("pub enum ");
        self.emit(to_upper_camel(desc.name.as_str()).as_str());
        self.emit(" {\n");
        if self.depth == 255 {
            return Err(GenError::TooDeep);
        }
        let ghost b0 = self.buf@;
        let ghost start_path = self.path@;
        self.depth = self.depth + 1;
        self.enter(2);
        let prefix = if config.strip_enum_prefix {
            Some(to_upper_camel(desc.name.as_str()))
        } else {
            None
        };
        let firsts = distinct_values(&desc.values);
        self.append_enum_values(config, fq_enum_name.as_str(), desc, &prefix, &firsts)?;
        self.leave();
        assert(self.path@ =~= start_path);
        self.depth = self.depth - 1;
        self.push_indent();
        self.emit("}\n");
        proof {
            assert(self.buf@ =~= old(self).buf@ + enum_text(st_of(*old(self)), *config, *desc)->0);
        }
        Ok(())
    }

    /// Describes a service and its methods for the service generator.
    pub fn push_service(&mut self, config: &Config, service: &ServiceDescriptor) -> (r: Result<(), GenError>)
        ensures
            no_syntax_error(r),
            old(self).fixed(*final(self)),
            r is Ok ==> old(self).restored(*final(self)),
            r is Ok ==> final(self).services@.len() == old(self).services@.len() + 1,
            r is Ok ==> final(self).services@.drop_last() == old(self).services@,
            r is Ok ==> described(final(self).services@.last(), *service, *config, old(self).package@,
                views(old(self).scope@), old(self).locations@, old(self).path@),
            final(self).buf == old(self).buf,
            r is Ok <==> service_ok(*service, *config, old(self).locations@, old(self).path@),
    {
        let comments = self.comment_lines()?;
        let ghost start_path = self.path@;
        self.enter(2);
        let mut methods: Vec<MethodDescription> = Vec::new();
        let mut i: usize = 0;
        while i < service.methods.len()
            invariant
                old(self).fixed(*self),
                self.buf == old(self).buf,
                has_location(old(self).locations@, old(self).path@),
                forall|j: int| 0 <= j < i ==> method_ok(#[trigger] service.methods@[j], *config,
                    old(self).locations@, old(self).path@, j),
                self.package@ == old(self).package@,
                self.scope@ == old(self).scope@,
                self.depth == old(self).depth,
                self.path@ == start_path.push(2),
                self.services == old(self).services,
                0 <= i <= service.methods@.len(),
                methods@.len() == i,
                start_path == old(self).path@,
                forall|j: int| 0 <= j < i ==> method_described(#[trigger] methods@[j], service.methods@[j], *config,
                    views(old(self).scope@), old(self).locations@, old(self).path@, j),
            decreases service.methods@.len() - i,
        {
            let method = &service.methods[i];
            self.enter(i as i32);
            assert(self.path@ == old(self).path@.push(2).push(i as i32));
            let method_comments = match self.comment_lines() {
                Ok(c) => c,
                Err(e) => {
                    assert(!method_ok(service.methods@[i as int], *config, old(self).locations@, old(self).path@, i as int));
                    return Err(e);
                },
            };
            self.leave();
            assert(self.path@ =~= start_path.push(2));
            let input_type = match resolve_name(config, &self.scope, method.input_type.as_str()) {
                Ok(t) => t,
                Err(e) => {
                    assert(!method_ok(service.methods@[i as int], *config, old(self).locations@, old(self).path@, i as int));
                    return Err(e);
                },
            };
            let output_type = match resolve_name(config, &self.scope, method.output_type.as_str()) {
                Ok(t) => t,
                Err(e) => {
                    assert(!method_ok(service.methods@[i as int], *config, old(self).locations@, old(self).path@, i as int));
                    return Err(e);
                },
            };
            methods.push(MethodDescription {
                name: to_snake(method.name.as_str()),
                proto_name: method.name.clone(),
                comments: method_comments,
                input_type,
                output_type,
                input_proto_type: method.input_type.clone(),
                output_proto_type: method.output_type.clone(),
                client_streaming: method.client_streaming,
                server_streaming: method.server_streaming,
                options: copy_method_options(&method.options),
            });
            proof {
                assert(method_described(methods@[i as int], service.methods@[i as int], *config,
                    views(old(self).scope@), old(self).locations@, old(self).path@, i as int));
            }
            i = i + 1;
        }
        self.leave();
        assert(self.path@ =~= start_path);
        let described = ServiceDescription {
            name: to_upper_camel(service.name.as_str()),
            proto_name: service.name.clone(),
            package: self.package.clone(),
            comments,
            methods,
            options: copy_service_options(&service.options),
        };
        let ghost s0 = self.services@;
        self.services.push(described);
        proof {
            assert(self.services@.drop_last() =~= s0);
        }
        Ok(())
    }

    /// Opens the module of the message `name`: its nested types and oneofs
    /// are written inside it.
    fn push_mod(&mut self, name: &String) -> (r: Result<(), GenError>)
        ensures
            no_syntax_error(r),
            final(self).fixed(*old(self)),
            final(self).services == old(self).services,
            final(self).path@ == old(self).path@,
            r is Ok ==> final(self).scope@ == old(self).scope@.push(*name),
            r is Ok ==> final(self).depth == old(self).depth + 1,
            r is Ok ==> final(self).package@ == (if old(self).package@.len() == 0 { name@ } else {
                old(self).package@ + seq!['.'] + name@
            }),
            r is Ok ==> final(self).buf@ == old(self).buf@ + indent(old(self).depth as nat) + "pub mod "@
                + snake_of(name@) + " {\n"@,
            r is Err <==> old(self).depth == 255,
            r is Err ==> *final(self) == *old(self),
    {
        if self.depth == 255 {
            return Err(GenError::TooDeep);
        }
        self.push_indent();
        self.emit("pub mod ");
        self.emit(to_snake(name.as_str()).as_str());
        self.emit(" {\n");
        proof {
            reveal_strlit(".");
        }
        if !self.package.as_str().is_empty() {
            self.package.append(".");
        }
        self.package.append(name.as_str());
        self.scope.push(name.clone());
        self.depth = self.depth + 1;
        assert(self.package@ =~= (if old(self).package@.len() == 0 { name@ } else {
            old(self).package@ + seq!['.'] + name@
        }));
        Ok(())
    }

    /// Closes the module opened last, going back to the scope `package`.
    fn pop_mod(&mut self, package: String)
        requires
            old(self).depth > 0,
            old(self).scope@.len() > 0,
        ensures
            final(self).fixed(*old(self)),
            final(self).services == old(self).services,
            final(self).path@ == old(self).path@,
            final(self).package@ == package@,
            final(self).scope@ == old(self).scope@.drop_last(),
            final(self).depth == old(self).depth - 1,
            final(self).buf@ == old(self).buf@ + indent((old(self).depth - 1) as nat) + "}\n"@,
    {
        self.depth = self.depth - 1;
        self.package = package;
        self.scope.pop();
        self.push_indent();
        self.emit("}\n");
    }

    /// Whether the entry type of a map field holds exactly the fields `key`
    /// and `value`, in that order.
    fn map_entry_ok(entry: &MessageDescriptor) -> (r: bool)
        ensures
            r == entry_ok(*entry),
    {
        entry.fields.len() == 2
            && crate::config::str_is(chars_of(entry.fields[0].name.as_str()).as_slice(), "key")
            && crate::config::str_is(chars_of(entry.fields[1].name.as_str()).as_slice(), "value")
    }

    /// The schema names of the map entry types at the positions `maps`.
    fn map_entry_names(fq: &String, nested: &Vec<MessageDescriptor>, maps: &Vec<usize>) -> (r: Vec<String>)
        requires
            forall|j: int| 0 <= j < maps@.len() ==> #[trigger] maps@[j] < nested@.len(),
        ensures
            views(r@) == entry_names(fq@, nested@, maps@),
    {
        let mut names: Vec<String> = Vec::new();
        let mut m: usize = 0;
        while m < maps.len()
            invariant
                0 <= m <= maps@.len(),
                forall|j: int| 0 <= j < maps@.len() ==> #[trigger] maps@[j] < nested@.len(),
                views(names@) == entry_names(fq@, nested@, maps@.take(m as int)),
            decreases maps@.len() - m,
        {
            proof {
                reveal_strlit(".");
            }
            let mut name = fq.clone();
            name.append(".");
            name.append(nested[maps[m]].name.as_str());
            assert(name@ == fq@ + seq!['.'] + nested@[maps@[m as int] as int].name@);
            let ghost before = names@;
            names.push(name);
            proof {
                assert(views(names@) =~= views(before).push(name@));
                assert(views(names@) =~= entry_names(fq@, nested@, maps@.take(m + 1)));
            }
            m = m + 1;
        }
        assert(maps@.take(m as int) =~= maps@);
        names
    }

    /// The position of the first of `names` that is `t`.
    fn find_name(names: &Vec<String>, t: &String) -> (r: Option<usize>)
        ensures
            match r {
                Some(e) => e < names@.len() && first_eq(views(names@), t@) == Some(e as int),
                None => first_eq(views(names@), t@) is None,
            },
    {
        let mut j: usize = 0;
        assert(views(names@).take(0) =~= Seq::<Seq<char>>::empty());
        while j < names.len()
            invariant
                0 <= j <= names@.len(),
                first_eq(views(names@).take(j as int), t@) is None,
            decreases names@.len() - j,
        {
            proof {
                assert(views(names@).take(j + 1).drop_last() =~= views(names@).take(j as int));
            }
            if names[j] == *t {
                proof {
                    lemma_first_eq_prefix(views(names@), t@, j + 1);
                }
                return Some(j);
            }
            j = j + 1;
        }
        assert(views(names@).take(j as int) =~= views(names@));
        None
    }

    /// Writes the fields of the struct of the message `msg` named `fq`: one
    /// per field that is in no oneof, a map field where its type is one of the
    /// map entry types `maps` (named `names`).
    #[verifier::rlimit(100)]
    fn append_fields(
        &mut self,
        config: &Config,
        graph: &MessageGraph,
        fq: &String,
        msg: &MessageDescriptor,
        maps: &Vec<usize>,
        names: &Vec<String>,
    ) -> (r: Result<(), GenError>)
        requires
            old(self).depth < 255,
            maps@ == nested_where(msg.nested@, true),
            views(names@) == entry_names(fq@, msg.nested@, maps@),
            forall|j: int| 0 <= j < maps@.len() ==> #[trigger] maps@[j] < msg.nested@.len()
                && msg.nested@[maps@[j] as int].fields@.len() >= 2,
        ensures
            no_syntax_error(r),
            old(self).after(*final(self), r is Ok),
            r is Ok <==> fields_text(st_of(*old(self)), *config, *graph, fq@, *msg, msg.fields@.len() as usize) is Some,
            r is Ok ==> final(self).buf@ == old(self).buf@
                + fields_text(st_of(*old(self)), *config, *graph, fq@, *msg, msg.fields@.len() as usize)->0,
    {
        let ghost s0 = st_of(*old(self));
        let ghost start_path = self.path@;
        assert(fields_text(s0, *config, *graph, fq@, *msg, 0) == Some(Seq::<char>::empty()));
        assert(self.buf@ =~= old(self).buf@ + Seq::<char>::empty());
        self.depth = self.depth + 1;
        self.enter(2);
        let mut i: usize = 0;
        while i < msg.fields.len()
            invariant
                0 <= i <= msg.fields@.len(),
                s0 == st_of(*old(self)),
                start_path == old(self).path@,
                old(self).fixed(*self),
                self.package@ == old(self).package@,
                self.scope@ == old(self).scope@,
                self.depth == old(self).depth + 1,
                self.path@ == start_path.push(2),
                self.services == old(self).services,
                fields_text(s0, *config, *graph, fq@, *msg, i) is Some,
                self.buf@ == old(self).buf@ + fields_text(s0, *config, *graph, fq@, *msg, i)->0,
                maps@ == nested_where(msg.nested@, true),
                views(names@) == entry_names(fq@, msg.nested@, maps@),
                forall|j: int| 0 <= j < maps@.len() ==> #[trigger] maps@[j] < msg.nested@.len()
                    && msg.nested@[maps@[j] as int].fields@.len() >= 2,
            decreases msg.fields@.len() - i,
        {
            let field = &msg.fields[i];
            proof {
                if fields_text(s0, *config, *graph, fq@, *msg, msg.fields@.len() as usize) is Some {
                    lemma_fields_prefix(s0, *config, *graph, fq@, *msg, msg.fields@.len() as usize, (i + 1) as usize);
                }
            }
            if field.oneof_index.is_none() {
                self.enter(i as i32);
                assert(st_of(*self).path =~= s0.path.push(2).push(i as i32));
                match Self::find_name(names, &field.type_ref) {
                    Some(e) => {
                        let nested = &msg.nested[maps[e]];
                        self.append_map_field(config, fq.as_str(), field, &nested.fields[0], &nested.fields[1])?;
                    },
                    None => {
                        self.append_field(config, graph, fq.as_str(), field)?;
                    },
                }
                self.leave();
                assert(self.path@ =~= start_path.push(2));
            }
            proof {
                assert(self.buf@ =~= old(self).buf@ + fields_text(s0, *config, *graph, fq@, *msg, (i + 1) as usize)->0);
            }
            i = i + 1;
        }
        self.leave();
        assert(self.path@ =~= start_path);
        self.depth = self.depth - 1;
        assert(msg.fields@.len() as usize == i);
        Ok(())
    }

    /// Writes the field of each oneof of the message `msg` named `fq`, each
    /// with the numbers of its member fields in ascending order.
    fn append_oneof_fields(
        &mut self,
        config: &Config,
        msg: &MessageDescriptor,
        fq: &String,
        groups: &Vec<Vec<usize>>,
    ) -> (r: Result<(), GenError>)
        requires
            old(self).depth < 255,
            groups@.len() == msg.oneofs@.len(),
            msg.oneofs@.len() <= 2147483647,
        ensures
            no_syntax_error(r),
            old(self).after(*final(self), r is Ok),
            r is Ok <==> oneof_fields_text(st_of(*old(self)), *config, *msg, fq@, group_views(groups@),
                msg.oneofs@.len() as usize) is Some,
            r is Ok ==> final(self).buf@ == old(self).buf@ + oneof_fields_text(st_of(*old(self)), *config, *msg,
                fq@, group_views(groups@), msg.oneofs@.len() as usize)->0,
    {
        let ghost s0 = st_of(*old(self));
        let ghost gv = group_views(groups@);
        let ghost start_path = self.path@;
        assert(self.buf@ =~= old(self).buf@ + Seq::<char>::empty());
        self.depth = self.depth + 1;
        self.enter(8);
        assert(self.path@ =~= start_path.push(8));
        let mut o: usize = 0;
        while o < msg.oneofs.len()
            invariant
                0 <= o <= msg.oneofs@.len(),
                s0 == st_of(*old(self)),
                gv == group_views(groups@),
                start_path == old(self).path@,
                old(self).fixed(*self),
                self.package@ == old(self).package@,
                self.scope@ == old(self).scope@,
                self.depth == old(self).depth + 1,
                self.path@ == start_path.push(8),
                self.services == old(self).services,
                groups@.len() == msg.oneofs@.len(),
                msg.oneofs@.len() <= 2147483647,
                oneof_fields_text(s0, *config, *msg, fq@, gv, o) is Some,
                self.buf@ == old(self).buf@ + oneof_fields_text(s0, *config, *msg, fq@, gv, o)->0,
            decreases msg.oneofs@.len() - o,
        {
            proof {
                if oneof_fields_text(s0, *config, *msg, fq@, gv, msg.oneofs@.len() as usize) is Some {
                    lemma_oneof_fields_prefix(s0, *config, *msg, fq@, gv, msg.oneofs@.len() as usize, (o + 1) as usize);
                }
            }
            self.enter(o as i32);
            assert(st_of(*self).path =~= s0.path.push(8).push(o as i32));
            let members = &groups[o];
            let mut numbers: Vec<i32> = Vec::new();
            let mut k: usize = 0;
            assert(members@.take(0) =~= Seq::<usize>::empty());
            while k < members.len()
                invariant
                    0 <= k <= members@.len(),
                    numbers@ == member_numbers(msg.fields@, members@.take(k as int)),
                decreases members@.len() - k,
            {
                proof {
                    assert(members@.take(k + 1).drop_last() =~= members@.take(k as int));
                }
                if members[k] < msg.fields.len() {
                    numbers.push(msg.fields[members[k]].number);
                }
                k = k + 1;
            }
            assert(members@.take(k as int) =~= members@);
            assert(gv[o as int] == members@);
            let numbers = sort_numbers(&numbers);
            self.append_oneof_field(config, msg.name.as_str(), fq.as_str(), &msg.oneofs[o], &numbers)?;
            self.leave();
            assert(self.path@ =~= start_path.push(8));
            proof {
                assert(self.buf@ =~= old(self).buf@ + oneof_fields_text(s0, *config, *msg, fq@, gv, (o + 1) as usize)->0);
            }
            o = o + 1;
        }
        self.leave();
        assert(self.path@ =~= start_path);
        self.depth = self.depth - 1;
        Ok(())
    }

    /// Whether every map entry type of `msg` (at the positions `maps`) holds
    /// exactly the fields `key` and `value`.
    fn map_entries_ok(msg: &MessageDescriptor, maps: &Vec<usize>) -> (r: bool)
        requires
            maps@ == nested_where(msg.nested@, true),
            forall|k: int| 0 <= k < maps@.len() ==>
                #[trigger] maps@[k] < msg.nested@.len() && msg.nested@[maps@[k] as int].map_entry,
            forall|i: int| 0 <= i < msg.nested@.len() && msg.nested@[i].map_entry ==> maps@.contains(i as usize),
        ensures
            r == entries_ok(*msg),
            r ==> forall|j: int| 0 <= j < maps@.len() ==> #[trigger] maps@[j] < msg.nested@.len()
                && msg.nested@[maps@[j] as int].fields@.len() >= 2,
    {
        let n_nested = msg.nested.len();
        let mut m: usize = 0;
        while m < maps.len()
            invariant
                m <= maps@.len(),
                n_nested == msg.nested@.len(),
                forall|k: int| 0 <= k < maps@.len() ==>
                    #[trigger] maps@[k] < msg.nested@.len() && msg.nested@[maps@[k] as int].map_entry,
                forall|j: int| 0 <= j < m ==> maps@[j] < msg.nested@.len() && msg.nested@[maps@[j] as int].fields@.len() >= 2,
                forall|j: int| 0 <= j < m ==> entry_ok(#[trigger] msg.nested@[maps@[j] as int]),
            decreases maps@.len() - m,
        {
            let k = maps[m];
            if k >= n_nested || !Self::map_entry_ok(&msg.nested[k]) {
                proof {
                    assert(msg.nested@[maps@[m as int] as int].map_entry);
                }
                return false;
            }
            m = m + 1;
        }
        proof {
            assert forall|i: int| 0 <= i < msg.nested@.len() && msg.nested@[i].map_entry
                implies entry_ok(msg.nested@[i]) by {
                assert(maps@.contains(i as usize));
                let k = choose|k: int| 0 <= k < maps@.len() && maps@[k] == i as usize;
                assert(maps@[k] as int == i);
                assert(entry_ok(msg.nested@[maps@[k] as int]));
            }
        }
        true
    }

    /// The positions of the member fields of each oneof of `msg`; `None`
    /// when the fields do not name exactly its oneofs.
    fn oneof_groups(msg: &MessageDescriptor) -> (r: Option<Vec<Vec<usize>>>)
        ensures
            r is Some <==> oneofs_consistent(*msg),
            r matches Some(g) ==> g@.len() == msg.oneofs@.len() && group_views(g@) == members_of(*msg),
    {
        let mut idx: Vec<Option<i32>> = Vec::new();
        let mut i: usize = 0;
        while i < msg.fields.len()
            invariant
                0 <= i <= msg.fields@.len(),
                idx@ == oneof_indices(*msg).take(i as int),
            decreases msg.fields@.len() - i,
        {
            idx.push(msg.fields[i].oneof_index);
            proof {
                assert(idx@ =~= oneof_indices(*msg).take(i + 1));
            }
            i = i + 1;
        }
        assert(idx@ =~= oneof_indices(*msg));
        if msg.oneofs.len() > 2147483647 {
            return None;
        }
        match group_oneof_fields(&idx, msg.oneofs.len()) {
            Some(g) => {
                assert(group_views(g@) =~= members_of(*msg));
                Some(g)
            },
            None => None,
        }
    }

    /// Writes the struct of the message `msg` named `fq`.
    #[verifier::rlimit(100)]
    fn append_struct(
        &mut self,
        config: &Config,
        graph: &MessageGraph,
        fq: &String,
        msg: &MessageDescriptor,
        maps: &Vec<usize>,
        groups: &Vec<Vec<usize>>,
    ) -> (r: Result<(), GenError>)
        requires
            fq@ == qualified_name(old(self).package@, msg.name@),
            maps@ == nested_where(msg.nested@, true),
            forall|j: int| 0 <= j < maps@.len() ==> #[trigger] maps@[j] < msg.nested@.len()
                && msg.nested@[maps@[j] as int].fields@.len() >= 2,
            groups@.len() == msg.oneofs@.len(),
            msg.oneofs@.len() <= 2147483647,
            group_views(groups@) == members_of(*msg),
        ensures
            no_syntax_error(r),
            old(self).after(*final(self), r is Ok),
            r is Ok <==> struct_text(st_of(*old(self)), *config, *graph, *msg) is Some,
            r is Ok ==> final(self).buf@ == old(self).buf@ + struct_text(st_of(*old(self)), *config, *graph, *msg)->0,
    {
        self.append_doc()?;
        self.push_indent();
        self.emit("#[derive(Clone, PartialEq, Message)]\n");
        self.append_type_attributes(config, fq.as_str());
        self.push_indent();
        self.emit("pub struct ");
        self.emit(to_upper_camel(msg.name.as_str()).as_str());
        self.emit(" {\n");
        let ghost head = self.buf@;
        proof {
            assert(head =~= old(self).buf@ + message_head(st_of(*old(self)), *config, *msg));
        }
        if self.depth == 255 {
            return Err(GenError::TooDeep);
        }
        let map_names = Self::map_entry_names(fq, &msg.nested, maps);
        self.append_fields(config, graph, fq, msg, maps, &map_names)?;
        self.append_oneof_fields(config, msg, fq, groups)?;
        self.push_indent();
        self.emit("}\n");
        proof {
            assert(self.buf@ =~= old(self).buf@ + struct_text(st_of(*old(self)), *config, *graph, *msg)->0);
        }
        Ok(())
    }

    /// Writes the enums `enums`, each under its own path.
    fn append_enums(&mut self, config: &Config, enums: &Vec<EnumDescriptor>) -> (r: Result<(), GenError>)
        ensures
            no_syntax_error(r),
            old(self).after(*final(self), r is Ok),
            r is Ok <==> enums_text(st_of(*old(self)), *config, enums@, enums@.len() as usize) is Some,
            r is Ok ==> final(self).buf@ == old(self).buf@
                + enums_text(st_of(*old(self)), *config, enums@, enums@.len() as usize)->0,
    {
        let ghost s0 = st_of(*old(self));
        let ghost p0 = self.path@;
        assert(self.buf@ =~= old(self).buf@ + Seq::<char>::empty());
        let mut e: usize = 0;
        while e < enums.len()
            invariant
                0 <= e <= enums@.len(),
                s0 == st_of(*old(self)),
                p0 == old(self).path@,
                old(self).fixed(*self),
                old(self).restored(*self),
                self.services == old(self).services,
                enums_text(s0, *config, enums@, e) is Some,
                self.buf@ == old(self).buf@ + enums_text(s0, *config, enums@, e)->0,
            decreases enums@.len() - e,
        {
            proof {
                if enums_text(s0, *config, enums@, enums@.len() as usize) is Some {
                    lemma_enums_prefix(s0, *config, enums@, enums@.len() as usize, (e + 1) as usize);
                }
            }
            self.enter(e as i32);
            assert(st_of(*self) =~= at_path(s0, s0.path.push(e as i32)));
            self.append_enum(config, &enums[e])?;
            self.leave();
            assert(self.path@ =~= p0);
            proof {
                assert(self.buf@ =~= old(self).buf@ + enums_text(s0, *config, enums@, (e + 1) as usize)->0);
            }
            e = e + 1;
        }
        Ok(())
    }

    /// Writes the oneof types of the message `msg` named `fq`.
    fn append_oneofs(
        &mut self,
        config: &Config,
        graph: &MessageGraph,
        fq: &String,
        msg: &MessageDescriptor,
        groups: &Vec<Vec<usize>>,
    ) -> (r: Result<(), GenError>)
        requires
            groups@.len() == msg.oneofs@.len(),
            msg.oneofs@.len() <= 2147483647,
            group_views(groups@) == members_of(*msg),
        ensures
            no_syntax_error(r),
            old(self).after(*final(self), r is Ok),
            r is Ok <==> oneofs_text(st_of(*old(self)), *config, *graph, fq@, *msg, msg.oneofs@.len() as usize) is Some,
            r is Ok ==> final(self).buf@ == old(self).buf@
                + oneofs_text(st_of(*old(self)), *config, *graph, fq@, *msg, msg.oneofs@.len() as usize)->0,
    {
        let ghost s0 = st_of(*old(self));
        assert(self.buf@ =~= old(self).buf@ + Seq::<char>::empty());
        let mut o: usize = 0;
        while o < msg.oneofs.len()
            invariant
                0 <= o <= msg.oneofs@.len(),
                s0 == st_of(*old(self)),
                old(self).fixed(*self),
                old(self).restored(*self),
                self.services == old(self).services,
                groups@.len() == msg.oneofs@.len(),
                msg.oneofs@.len() <= 2147483647,
                group_views(groups@) == members_of(*msg),
                oneofs_text(s0, *config, *graph, fq@, *msg, o) is Some,
                self.buf@ == old(self).buf@ + oneofs_text(s0, *config, *graph, fq@, *msg, o)->0,
            decreases msg.oneofs@.len() - o,
        {
            proof {
                if oneofs_text(s0, *config, *graph, fq@, *msg, msg.oneofs@.len() as usize) is Some {
                    lemma_oneofs_prefix(s0, *config, *graph, fq@, *msg, msg.oneofs@.len() as usize, (o + 1) as usize);
                }
            }
            assert(st_of(*self) =~= s0);
            assert(groups@[o as int]@ == members_of(*msg)[o as int]);
            self.append_oneof(config, graph, fq.as_str(), &msg.oneofs[o], o as i32, &groups[o], &msg.fields)?;
            proof {
                assert(self.buf@ =~= old(self).buf@ + oneofs_text(s0, *config, *graph, fq@, *msg, (o + 1) as usize)->0);
            }
            o = o + 1;
        }
        Ok(())
    }

    /// Writes the nested messages of `msg` that are not map entries, each
    /// under its own path.
    #[verifier::rlimit(100)]
    fn append_nested(&mut self, config: &Config, graph: &MessageGraph, msg: &MessageDescriptor) -> (r: Result<(), GenError>)
        ensures
            no_syntax_error(r),
            old(self).after(*final(self), r is Ok),
            r is Ok <==> nested_text(st_of(*old(self)), *config, *graph, *msg, msg.nested@.len() as usize) is Some,
            r is Ok ==> final(self).buf@ == old(self).buf@
                + nested_text(st_of(*old(self)), *config, *graph, *msg, msg.nested@.len() as usize)->0,
        decreases msg, 0nat,
    {
        let ghost s0 = st_of(*old(self));
        let ghost p0 = self.path@;
        let ghost start = self.buf@;
        let mut k: usize = 0;
        assert(start =~= start + Seq::<char>::empty());
        while k < msg.nested.len()
            invariant
                0 <= k <= msg.nested@.len(),
                s0 == st_of(*old(self)),
                p0 == old(self).path@,
                start == old(self).buf@,
                old(self).fixed(*self),
                old(self).restored(*self),
                self.services == old(self).services,
                nested_text(s0, *config, *graph, *msg, k) is Some,
                self.buf@ == start + nested_text(s0, *config, *graph, *msg, k)->0,
            decreases msg.nested@.len() - k,
        {
            proof {
                if nested_text(s0, *config, *graph, *msg, msg.nested@.len() as usize) is Some {
                    lemma_nested_prefix(s0, *config, *graph, *msg, msg.nested@.len() as usize, (k + 1) as usize);
                }
            }
            if !msg.nested[k].map_entry {
                self.enter(k as i32);
                assert(st_of(*self) =~= at_path(s0, p0.push(k as i32)));
                proof {
                    assert(decreases_to!(msg => msg.nested@[k as int]));
                }
                self.append_message(config, graph, &msg.nested[k])?;
                self.leave();
                assert(self.path@ =~= p0);
            }
            proof {
                assert(self.buf@ =~= start + nested_text(s0, *config, *graph, *msg, (k + 1) as usize)->0);
            }
            k = k + 1;
        }
        Ok(())
    }

    /// Writes the module of the message `msg` named `fq`: its nested
    /// messages that are not map entries, its nested enums and its oneof
    /// types.
    #[verifier::loop_isolation(false)]
    #[verifier::rlimit(100)]
    fn append_module(
        &mut self,
        config: &Config,
        graph: &MessageGraph,
        msg: &MessageDescriptor,
        fq: &String,
        groups: &Vec<Vec<usize>>,
    ) -> (r: Result<(), GenError>)
        requires
            fq@ == qualified_name(old(self).package@, msg.name@),
            groups@.len() == msg.oneofs@.len(),
            msg.oneofs@.len() <= 2147483647,
            group_views(groups@) == members_of(*msg),
        ensures
            no_syntax_error(r),
            old(self).after(*final(self), r is Ok),
            r is Ok <==> module_text(st_of(*old(self)), *config, *graph, *msg) is Some,
            r is Ok ==> final(self).buf@ == old(self).buf@ + module_text(st_of(*old(self)), *config, *graph, *msg)->0,
        decreases msg, 1nat,
    {
        let ghost s0 = st_of(*old(self));
        let ghost start_path = self.path@;
        let saved = self.package.clone();
        let ghost scope0 = self.scope@;
        let ghost ms = module_state(s0, *msg);
        self.push_mod(&msg.name)?;
        let ghost opened = self.buf@;
        assert(opened =~= old(self).buf@ + indent(old(self).depth as nat) + "pub mod "@ + snake_of(msg.name@) + " {\n"@);
        assert(views(self.scope@) =~= ms.scope);
        self.enter(3);
        assert(st_of(*self) =~= at_path(ms, start_path.push(3)));
        self.append_nested(config, graph, msg)?;
        self.leave();
        self.enter(4);
        assert(self.path@ =~= start_path.push(4));
        assert(st_of(*self) =~= at_path(ms, start_path.push(4)));
        self.append_enums(config, &msg.enums)?;
        self.leave();
        assert(self.path@ =~= start_path);
        assert(st_of(*self) =~= ms);
        self.append_oneofs(config, graph, &fq, msg, &groups)?;
        self.pop_mod(saved);
        assert(self.scope@ =~= scope0);
        proof {
            assert(self.buf@ =~= old(self).buf@ + module_text(s0, *config, *graph, *msg)->0);
        }
        Ok(())
    }

    /// Writes a message type: its struct with one field per ordinary field,
    /// map field and oneof, then, in a module of its own, its nested messages,
    /// its nested enums and its oneof types. Nothing is written for a type
    /// that a Rust type replaces.
    #[verifier::loop_isolation(false)]
    #[verifier::rlimit(100)]
    #[verifier::spinoff_prover]
    pub fn append_message(&mut self, config: &Config, graph: &MessageGraph, msg: &MessageDescriptor) -> (r: Result<(), GenError>)
        ensures
            no_syntax_error(r),
            old(self).after(*final(self), r is Ok),
            r is Ok ==> grows(old(self).buf@, final(self).buf@),
            r is Ok <==> message_text(st_of(*old(self)), *config, *graph, *msg) is Some,
            r is Ok ==> final(self).buf@ == old(self).buf@ + message_text(st_of(*old(self)), *config, *graph, *msg)->0,
            known_of(*config, qualified_name(old(self).package@, msg.name@)) is Some
                ==> r is Ok && *final(self) == *old(self),
            r is Ok && known_of(*config, qualified_name(old(self).package@, msg.name@)) is None
                ==> has_location(old(self).locations@, old(self).path@),
            known_of(*config, qualified_name(old(self).package@, msg.name@)) is None && !entries_ok(*msg)
                ==> r == Err::<(), GenError>(GenError::MalformedMapEntry),
            known_of(*config, qualified_name(old(self).package@, msg.name@)) is None && entries_ok(*msg)
                && !oneofs_consistent(*msg) ==> r == Err::<(), GenError>(GenError::OneofMismatch),
        decreases msg, 2nat,
    {
        let fq = self.qualified(&msg.name);
        let fq_chars = chars_of(fq.as_str());
        assert(fq_chars@ == fq@);
        match known_type(config, fq_chars.as_slice()) {
            Some(_) => return Ok(()),
            None => {},
        }
        let (plain, maps) = split_nested(&msg.nested);
        if !Self::map_entries_ok(msg, &maps) {
            return Err(GenError::MalformedMapEntry);
        }
        let groups = match Self::oneof_groups(msg) {
            Some(g) => g,
            None => return Err(GenError::OneofMismatch),
        };
        self.append_struct(config, graph, &fq, msg, &maps, &groups)?;
        proof {
            crate::codegen::lemma_first_location(old(self).locations@, old(self).path@);
        }
        let ghost start_path = self.path@;
        let ghost body = self.buf@;
        if msg.enums.len() > 0 || plain.len() > 0 || msg.oneofs.len() > 0 {
            self.append_module(config, graph, msg, &fq, &groups)?;
            proof {
                assert(self.buf@ =~= old(self).buf@ + message_text(st_of(*old(self)), *config, *graph, *msg)->0);
            }
        } else {
            assert(body =~= old(self).buf@ + message_text(st_of(*old(self)), *config, *graph, *msg)->0);
        }
        Ok(())
    }

    /// Writes the Rust declarations of one schema file to the end of `buf`:
    /// its messages, then its enums. When a service generator is configured,
    /// returns a description of each service, in order; otherwise none. On an
    /// error `buf` is left as it was.
    pub fn generate(config: &Config, graph: &MessageGraph, file: FileDescriptor, buf: &mut String) -> (r: Result<Vec<ServiceDescription>, GenError>)
        ensures
            syntax_of(match file.syntax { Some(t) => Some(t@), None => None }) is None
                ==> r == Err::<Vec<ServiceDescription>, GenError>(GenError::UnknownSyntax),
            syntax_of(match file.syntax { Some(t) => Some(t@), None => None }) is Some
                ==> !(r is Err && r->Err_0 == GenError::UnknownSyntax),
            r is Err ==> final(buf)@ == old(buf)@,
            r is Ok ==> old(buf)@.is_prefix_of(final(buf)@),
            r is Ok ==> file_text(*config, *graph, file) is Some,
            syntax_of(match file.syntax { Some(t) => Some(t@), None => None }) is Some ==> (r is Ok <==> (
                file_text(*config, *graph, file) is Some
                && (config.service_generator ==> forall|k: int| 0 <= k < file.services@.len() ==>
                    service_ok(#[trigger] file.services@[k], *config, declaration_locations(file.locations@),
                        seq![6i32, k as i32])))),
            r is Ok ==> final(buf)@ == old(buf)@ + file_text(*config, *graph, file)->0,
            r is Ok ==> forall|i: int| 0 <= i < file.messages@.len() ==>
                known_of(*config, qualified_name(file.package@, #[trigger] file.messages@[i].name@)) is Some
                || has_location(declaration_locations(file.locations@), seq![4i32, i as i32]),
            r is Ok ==> forall|i: int| 0 <= i < file.enums@.len() ==>
                known_of(*config, qualified_name(file.package@, #[trigger] file.enums@[i].name@)) is Some
                || has_location(declaration_locations(file.locations@), seq![5i32, i as i32]),
            r is Ok && config.service_generator ==> forall|k: int| 0 <= k < file.services@.len() ==>
                service_ok(#[trigger] file.services@[k], *config, declaration_locations(file.locations@),
                    seq![6i32, k as i32]),
            r matches Ok(v) ==> v@.len() == (if config.service_generator { file.services@.len() } else { 0 }),
            r matches Ok(v) ==> forall|k: int| 0 <= k < v@.len() ==> described(
                #[trigger] v@[k], file.services@[k], *config, file.package@, package_scope(file.package@),
                declaration_locations(file.locations@), seq![6i32, k as i32]),
    {
        let syntax = parse_syntax(&file.syntax)?;
        let locations = retain_declaration_locations(file.locations);
        let scope = if file.package.as_str().is_empty() {
            Vec::new()
        } else {
            split_at_dots(chars_of(file.package.as_str()).as_slice())
        };
        assert(views(scope@) =~= package_scope(file.package@));
        let ghost pkg = file.package@;
        let ghost fs = file_state(file, syntax);
        let ghost file_locs = file.locations@;
        let mut code_gen = CodeGenerator {
            package: file.package,
            scope,
            syntax,
            depth: 0,
            path: Vec::new(),
            buf: String::new(),
            locations,
            services: Vec::new(),
        };
        code_gen.enter(4);
        assert(code_gen.buf@ =~= Seq::<char>::empty() + Seq::<char>::empty());
        let mut i: usize = 0;
        while i < file.messages.len()
            invariant
                code_gen.path@ == seq![4i32],
                0 <= i <= file.messages@.len(),
                code_gen.syntax == syntax,
                code_gen.depth == 0,
                fs == file_state(file, syntax),
                pkg == file.package@,
                file_locs == file.locations@,
                messages_text(at_path(fs, seq![4i32]), *config, *graph, file.messages@, i) is Some,
                code_gen.buf@ == messages_text(at_path(fs, seq![4i32]), *config, *graph, file.messages@, i)->0,
                forall|j: int| 0 <= j < i ==>
                    known_of(*config, qualified_name(pkg, #[trigger] file.messages@[j].name@)) is Some
                    || has_location(declaration_locations(file_locs), seq![4i32, j as i32]),
                code_gen.package@ == pkg,
                views(code_gen.scope@) == package_scope(pkg),
                code_gen.locations@ == declaration_locations(file_locs),
                syntax_of(match file.syntax { Some(t) => Some(t@), None => None }) == Some(syntax),
                code_gen.services@.len() == 0,
            decreases file.messages@.len() - i,
        {
            proof {
                if messages_text(at_path(fs, seq![4i32]), *config, *graph, file.messages@, file.messages@.len() as usize) is Some {
                    lemma_messages_prefix(at_path(fs, seq![4i32]), *config, *graph, file.messages@,
                        file.messages@.len() as usize, (i + 1) as usize);
                }
            }
            code_gen.enter(i as i32);
            assert(code_gen.path@ =~= seq![4i32, i as i32]);
            assert(seq![4i32].push(i as i32) =~= seq![4i32, i as i32]);
            assert(st_of(code_gen) =~= at_path(at_path(fs, seq![4i32]), seq![4i32].push(i as i32)));
            match code_gen.append_message(config, graph, &file.messages[i]) {
                Ok(()) => {},
                Err(e) => {
                    proof {
                        assert(messages_text(at_path(fs, seq![4i32]), *config, *graph, file.messages@, (i + 1) as usize) is None);
                        assert(file_text(*config, *graph, file) is None);
                    }
                    return Err(e);
                },
            }
            code_gen.leave();
            assert(code_gen.path@ =~= seq![4i32]);
            assert(code_gen.buf@ =~= messages_text(at_path(fs, seq![4i32]), *config, *graph, file.messages@, (i + 1) as usize)->0);
            i = i + 1;
        }
        code_gen.leave();
        code_gen.enter(5);
        assert(code_gen.path@ =~= seq![5i32]);
        let ghost msgs_done = code_gen.buf@;
        assert(msgs_done =~= msgs_done + Seq::<char>::empty());
        let mut i: usize = 0;
        while i < file.enums.len()
            invariant
                code_gen.path@ == seq![5i32],
                0 <= i <= file.enums@.len(),
                code_gen.syntax == syntax,
                code_gen.depth == 0,
                fs == file_state(file, syntax),
                pkg == file.package@,
                file_locs == file.locations@,
                enums_text(at_path(fs, seq![5i32]), *config, file.enums@, i) is Some,
                messages_text(at_path(fs, seq![4i32]), *config, *graph, file.messages@, file.messages@.len() as usize) is Some,
                msgs_done == messages_text(at_path(fs, seq![4i32]), *config, *graph, file.messages@, file.messages@.len() as usize)->0,
                code_gen.buf@ == msgs_done + enums_text(at_path(fs, seq![5i32]), *config, file.enums@, i)->0,
                forall|j: int| 0 <= j < i ==>
                    known_of(*config, qualified_name(pkg, #[trigger] file.enums@[j].name@)) is Some
                    || has_location(declaration_locations(file_locs), seq![5i32, j as i32]),
                code_gen.package@ == pkg,
                views(code_gen.scope@) == package_scope(pkg),
                code_gen.locations@ == declaration_locations(file_locs),
                syntax_of(match file.syntax { Some(t) => Some(t@), None => None }) == Some(syntax),
                code_gen.services@.len() == 0,
            decreases file.enums@.len() - i,
        {
            proof {
                if enums_text(at_path(fs, seq![5i32]), *config, file.enums@, file.enums@.len() as usize) is Some {
                    lemma_enums_prefix(at_path(fs, seq![5i32]), *config, file.enums@, file.enums@.len() as usize, (i + 1) as usize);
                }
            }
            code_gen.enter(i as i32);
            assert(code_gen.path@ =~= seq![5i32, i as i32]);
            assert(seq![5i32].push(i as i32) =~= seq![5i32, i as i32]);
            assert(st_of(code_gen) =~= at_path(at_path(fs, seq![5i32]), seq![5i32].push(i as i32)));
            match code_gen.append_enum(config, &file.enums[i]) {
                Ok(()) => {},
                Err(e) => {
                    proof {
                        assert(enums_text(at_path(fs, seq![5i32]), *config, file.enums@, (i + 1) as usize) is None);
                        assert(file_text(*config, *graph, file) is None);
                    }
                    return Err(e);
                },
            }
            code_gen.leave();
            assert(code_gen.path@ =~= seq![5i32]);
            assert(code_gen.buf@ =~= msgs_done + enums_text(at_path(fs, seq![5i32]), *config, file.enums@, (i + 1) as usize)->0);
            i = i + 1;
        }
        code_gen.leave();
        let ghost old_text = code_gen.buf@;
        assert(old_text == file_text(*config, *graph, file)->0);
        if config.service_generator {
            code_gen.enter(6);
            assert(code_gen.path@ =~= seq![6i32]);
            let mut i: usize = 0;
            while i < file.services.len()
                invariant
                    0 <= i <= file.services@.len(),
                    code_gen.package@ == pkg,
                    views(code_gen.scope@) == package_scope(pkg),
                    code_gen.locations@ == declaration_locations(file_locs),
                    forall|k: int| 0 <= k < i ==> described(
                        #[trigger] code_gen.services@[k], file.services@[k], *config, pkg, package_scope(pkg),
                        declaration_locations(file_locs), seq![6i32, k as i32]),
                    code_gen.path@ == seq![6i32],
                    file_locs == file.locations@,
                    config.service_generator,
                    code_gen.buf@ == old_text,
                    forall|j: int| 0 <= j < i ==> service_ok(#[trigger] file.services@[j], *config,
                        declaration_locations(file_locs), seq![6i32, j as i32]),
                    syntax_of(match file.syntax { Some(t) => Some(t@), None => None }) is Some,
                    code_gen.services@.len() == i,
                decreases file.services@.len() - i,
            {
                code_gen.enter(i as i32);
                assert(code_gen.path@ =~= seq![6i32, i as i32]);
                let ghost before = code_gen.services@;
                match code_gen.push_service(config, &file.services[i]) {
                    Ok(()) => {},
                    Err(e) => {
                        proof {
                            assert(seq![6i32, i as i32] =~= seq![6i32, (i as int) as i32]);
                            assert(!service_ok(file.services@[i as int], *config, declaration_locations(file_locs),
                                seq![6i32, (i as int) as i32]));
                            assert(!(forall|k: int| 0 <= k < file.services@.len() ==> service_ok(
                                #[trigger] file.services@[k], *config, declaration_locations(file.locations@),
                                seq![6i32, k as i32])));
                            assert(!(file_text(*config, *graph, file) is Some
                                && (config.service_generator ==> forall|k: int| 0 <= k < file.services@.len() ==>
                                    service_ok(#[trigger] file.services@[k], *config, declaration_locations(file.locations@),
                                        seq![6i32, k as i32]))));
                        }
                        return Err(e);
                    },
                }
                proof {
                    assert forall|k: int| 0 <= k < i implies code_gen.services@[k] == before[k] by {
                        assert(code_gen.services@.drop_last()[k] == code_gen.services@[k]);
                    }
                    assert(code_gen.services@.last() == code_gen.services@[i as int]);
                    assert(seq![6i32, i as i32] =~= seq![6i32, (i as int) as i32]);
                    assert(described(code_gen.services@[i as int], file.services@[i as int], *config, pkg,
                        package_scope(pkg), declaration_locations(file_locs), seq![6i32, i as i32]));
                    assert forall|k: int| 0 <= k < i + 1 implies described(
                        #[trigger] code_gen.services@[k], file.services@[k], *config, pkg, package_scope(pkg),
                        declaration_locations(file_locs), seq![6i32, k as i32]) by {
                        if k < i {
                            assert(code_gen.services@[k] == before[k]);
                        }
                    }
                }
                code_gen.leave();
                assert(code_gen.path@ =~= seq![6i32]);
                i = i + 1;
            }
            code_gen.leave();
        }
        let ghost b0 = buf@;
        buf.append(code_gen.buf.as_str());
        assert(b0.is_prefix_of(buf@)) by {
            assert(buf@.subrange(0, b0.len() as int) =~= b0);
        }
        Ok(code_gen.services)
    }
}

/// The parts of a dotted name that are not empty.
pub open spec fn nonempty_parts(parts: Seq<Seq<char>>) -> Seq<Seq<char>>
    decreases parts.len(),
{
    if parts.len() == 0 {
        Seq::empty()
    } else if parts.last().len() > 0 {
        nonempty_parts(parts.drop_last()).push(parts.last())
    } else {
        nonempty_parts(parts.drop_last())
    }
}

/// The Rust module path of a file: the non-empty parts of its package, in
/// snake case.
pub fn module(file: &FileDescriptor) -> (r: Vec<String>)
    ensures
        views(r@) == nonempty_parts(split_dots(file.package@)).map_values(|p: Seq<char>| snake_of(p)),
{
    let parts = split_at_dots(chars_of(file.package.as_str()).as_slice());
    let ghost ps = views(parts@);
    let mut out: Vec<String> = Vec::new();
    let mut i: usize = 0;
    while i < parts.len()
        invariant
            ps == views(parts@),
            0 <= i <= parts@.len(),
            views(out@) == nonempty_parts(ps.take(i as int)).map_values(|p: Seq<char>| snake_of(p)),
        decreases parts@.len() - i,
    {
        proof {
            assert(ps.take(i + 1).drop_last() =~= ps.take(i as int));
        }
        if !parts[i].as_str().is_empty() {
            let ghost o = out@;
            let snake = to_snake(parts[i].as_str());
            out.push(snake);
            proof {
                assert(views(out@) =~= views(o).push(snake@));
                assert(views(out@) =~= nonempty_parts(ps.take(i + 1)).map_values(|p: Seq<char>| snake_of(p)));
            }
        } else {
            proof {
                assert(nonempty_parts(ps.take(i + 1)) == nonempty_parts(ps.take(i as int)));
            }
        }
        i = i + 1;
    }
    assert(ps.take(i as int) =~= ps);
    out
}

} // verus!

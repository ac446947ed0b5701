//! The customization rules of a generation pass, and the types that are
//! never generated because Rust already has them.

use vstd::prelude::*;
use crate::text::chars_of;

verus! {

/// Customization rules, fixed for a whole generation pass.
pub struct Config {
    /// Attributes put on a type whose fully-qualified name the matcher matches.
    pub type_attributes: Vec<(String, String)>,
    /// Attributes put on a field or enum value that the matcher matches.
    pub field_attributes: Vec<(String, String)>,
    /// Matchers of the map fields that become a `BTreeMap` instead of a `HashMap`.
    pub btree_map: Vec<String>,
    /// Fully-qualified schema names with the Rust type that replaces them.
    pub mapped_types: Vec<(String, String)>,
    /// Whether an enum's name is stripped from the front of its value names.
    pub strip_enum_prefix: bool,
    /// Whether the well-known `google.protobuf` types map to `prost_types`.
    pub prost_types: bool,
    /// Whether services are described for a service generator.
    pub service_generator: bool,
}

/// Whether `a` and `lit` hold the same characters.
pub fn str_is(a: &[char], lit: &str) -> (r: bool)
    ensures
        r == (a@ == lit@),
{
    let b = chars_of(lit);
    if a.len() != b.len() {
        return false;
    }
    let mut i: usize = 0;
    while i < a.len()
        invariant
            a@.len() == b@.len(),
            b@ == lit@,
            0 <= i <= a@.len(),
            forall|j: int| 0 <= j < i ==> a@[j] == b@[j],
        decreases a@.len() - i,
    {
        if a[i] != b[i] {
            assert(a@[i as int] != lit@[i as int]);
            return false;
        }
        i = i + 1;
    }
    assert(a@ =~= b@);
    true
}

/// The Rust type of a well-known `google.protobuf` type, if `fq` names one.
pub open spec fn well_known_of(fq: Seq<char>) -> Option<Seq<char>> {
    if fq == ".google.protobuf.BoolValue"@ {
        Some("bool"@)
    } else if fq == ".google.protobuf.BytesValue"@ {
        Some("::std::vec::Vec<u8>"@)
    } else if fq == ".google.protobuf.DoubleValue"@ {
        Some("f64"@)
    } else if fq == ".google.protobuf.Empty"@ {
        Some("()"@)
    } else if fq == ".google.protobuf.FloatValue"@ {
        Some("f32"@)
    } else if fq == ".google.protobuf.Int32Value"@ {
        Some("i32"@)
    } else if fq == ".google.protobuf.Int64Value"@ {
        Some("i64"@)
    } else if fq == ".google.protobuf.StringValue"@ {
        Some("::std::string::String"@)
    } else if fq == ".google.protobuf.UInt32Value"@ {
        Some("u32"@)
    } else if fq == ".google.protobuf.UInt64Value"@ {
        Some("u64"@)
    } else if fq == ".google.protobuf.Any"@ {
        Some("::prost_types::Any"@)
    } else if fq == ".google.protobuf.Api"@ {
        Some("::prost_types::Api"@)
    } else if fq == ".google.protobuf.DescriptorProto"@ {
        Some("::prost_types::DescriptorProto"@)
    } else if fq == ".google.protobuf.Duration"@ {
        Some("::prost_types::Duration"@)
    } else if fq == ".google.protobuf.Enum"@ {
        Some("::prost_types::Enum"@)
    } else if fq == ".google.protobuf.EnumDescriptorProto"@ {
        Some("::prost_types::EnumDescriptorProto"@)
    } else if fq == ".google.protobuf.EnumOptions"@ {
        Some("::prost_types::EnumOptions"@)
    } else if fq == ".google.protobuf.EnumValue"@ {
        Some("::prost_types::EnumValue"@)
    } else if fq == ".google.protobuf.EnumValueDescriptorProto"@ {
        Some("::prost_types::EnumValueDescriptorProto"@)
    } else if fq == ".google.protobuf.EnumValueOptions"@ {
        Some("::prost_types::EnumValueOptions"@)
    } else if fq == ".google.protobuf.ExtensionRangeOptions"@ {
        Some("::prost_types::ExtensionRangeOptions"@)
    } else if fq == ".google.protobuf.Field"@ {
        Some("::prost_types::Field"@)
    } else if fq == ".google.protobuf.FieldDescriptorProto"@ {
        Some("::prost_types::FieldDescriptorProto"@)
    } else if fq == ".google.protobuf.FieldMask"@ {
        Some("::prost_types::FieldMask"@)
    } else if fq == ".google.protobuf.FieldOptions"@ {
        Some("::prost_types::FieldOptions"@)
    } else if fq == ".google.protobuf.FileDescriptorProto"@ {
        Some("::prost_types::FileDescriptorProto"@)
    } else if fq == ".google.protobuf.FileDescriptorSet"@ {
        Some("::prost_types::FileDescriptorSet"@)
    } else if fq == ".google.protobuf.FileOptions"@ {
        Some("::prost_types::FileOptions"@)
    } else if fq == ".google.protobuf.GeneratedCodeInfo"@ {
        Some("::prost_types::GeneratedCodeInfo"@)
    } else if fq == ".google.protobuf.ListValue"@ {
        Some("::prost_types::ListValue"@)
    } else if fq == ".google.protobuf.MessageOptions"@ {
        Some("::prost_types::MessageOptions"@)
    } else if fq == ".google.protobuf.Method"@ {
        Some("::prost_types::Method"@)
    } else if fq == ".google.protobuf.MethodDescriptorProto"@ {
        Some("::prost_types::MethodDescriptorProto"@)
    } else if fq == ".google.protobuf.MethodOptions"@ {
        Some("::prost_types::MethodOptions"@)
    } else if fq == ".google.protobuf.Mixin"@ {
        Some("::prost_types::Mixin"@)
    } else if fq == ".google.protobuf.NullValue"@ {
        Some("::prost_types::NullValue"@)
    } else if fq == ".google.protobuf.OneofDescriptorProto"@ {
        Some("::prost_types::OneofDescriptorProto"@)
    } else if fq == ".google.protobuf.OneofOptions"@ {
        Some("::prost_types::OneofOptions"@)
    } else if fq == ".google.protobuf.Option"@ {
        Some("::prost_types::Option"@)
    } else if fq == ".google.protobuf.ServiceDescriptorProto"@ {
        Some("::prost_types::ServiceDescriptorProto"@)
    } else if fq == ".google.protobuf.ServiceOptions"@ {
        Some("::prost_types::ServiceOptions"@)
    } else if fq == ".google.protobuf.SourceCodeInfo"@ {
        Some("::prost_types::SourceCodeInfo"@)
    } else if fq == ".google.protobuf.SourceContext"@ {
        Some("::prost_types::SourceContext"@)
    } else if fq == ".google.protobuf.Struct"@ {
        Some("::prost_types::Struct"@)
    } else if fq == ".google.protobuf.Timestamp"@ {
        Some("::prost_types::Timestamp"@)
    } else if fq == ".google.protobuf.Type"@ {
        Some("::prost_types::Type"@)
    } else if fq == ".google.protobuf.UninterpretedOption"@ {
        Some("::prost_types::UninterpretedOption"@)
    } else if fq == ".google.protobuf.Value"@ {
        Some("::prost_types::Value"@)
    } else {
        None
    }
}

/// The Rust type that `prost_types` provides for a well-known type; `None`
/// when `fq` names none or when that mapping is switched off.
#[verifier::rlimit(40)]
pub fn well_known_type(config: &Config, fq: &[char]) -> (r: Option<String>)
    ensures
        !config.prost_types ==> r is None,
        config.prost_types ==> (r matches Some(t) ==> well_known_of(fq@) == Some(t@)),
        config.prost_types ==> (r is None <==> well_known_of(fq@) is None),
{
    if !config.prost_types {
        return None;
    }
    if str_is(fq, ".google.protobuf.BoolValue") {
        return Some("bool".to_owned());
    }
    if str_is(fq, ".google.protobuf.BytesValue") {
        return Some("::std::vec::Vec<u8>".to_owned());
    }
    if str_is(fq, ".google.protobuf.DoubleValue") {
        return Some("f64".to_owned());
    }
    if str_is(fq, ".google.protobuf.Empty") {
        return Some("()".to_owned());
    }
    if str_is(fq, ".google.protobuf.FloatValue") {
        return Some("f32".to_owned());
    }
    if str_is(fq, ".google.protobuf.Int32Value") {
        return Some("i32".to_owned());
    }
    if str_is(fq, ".google.protobuf.Int64Value") {
        return Some("i64".to_owned());
    }
    if str_is(fq, ".google.protobuf.StringValue") {
        return Some("::std::string::String".to_owned());
    }
    if str_is(fq, ".google.protobuf.UInt32Value") {
        return Some("u32".to_owned());
    }
    if str_is(fq, ".google.protobuf.UInt64Value") {
        return Some("u64".to_owned());
    }
    if str_is(fq, ".google.protobuf.Any") {
        return Some("::prost_types::Any".to_owned());
    }
    if str_is(fq, ".google.protobuf.Api") {
        return Some("::prost_types::Api".to_owned());
    }
    if str_is(fq, ".google.protobuf.DescriptorProto") {
        return Some("::prost_types::DescriptorProto".to_owned());
    }
    if str_is(fq, ".google.protobuf.Duration") {
        return Some("::prost_types::Duration".to_owned());
    }
    if str_is(fq, ".google.protobuf.Enum") {
        return Some("::prost_types::Enum".to_owned());
    }
    if str_is(fq, ".google.protobuf.EnumDescriptorProto") {
        return Some("::prost_types::EnumDescriptorProto".to_owned());
    }
    if str_is(fq, ".google.protobuf.EnumOptions") {
        return Some("::prost_types::EnumOptions".to_owned());
    }
    if str_is(fq, ".google.protobuf.EnumValue") {
        return Some("::prost_types::EnumValue".to_owned());
    }
    if str_is(fq, ".google.protobuf.EnumValueDescriptorProto") {
        return Some("::prost_types::EnumValueDescriptorProto".to_owned());
    }
    if str_is(fq, ".google.protobuf.EnumValueOptions") {
        return Some("::prost_types::EnumValueOptions".to_owned());
    }
    if str_is(fq, ".google.protobuf.ExtensionRangeOptions") {
        return Some("::prost_types::ExtensionRangeOptions".to_owned());
    }
    if str_is(fq, ".google.protobuf.Field") {
        return Some("::prost_types::Field".to_owned());
    }
    if str_is(fq, ".google.protobuf.FieldDescriptorProto") {
        return Some("::prost_types::FieldDescriptorProto".to_owned());
    }
    if str_is(fq, ".google.protobuf.FieldMask") {
        return Some("::prost_types::FieldMask".to_owned());
    }
    if str_is(fq, ".google.protobuf.FieldOptions") {
        return Some("::prost_types::FieldOptions".to_owned());
    }
    if str_is(fq, ".google.protobuf.FileDescriptorProto") {
        return Some("::prost_types::FileDescriptorProto".to_owned());
    }
    if str_is(fq, ".google.protobuf.FileDescriptorSet") {
        return Some("::prost_types::FileDescriptorSet".to_owned());
    }
    if str_is(fq, ".google.protobuf.FileOptions") {
        return Some("::prost_types::FileOptions".to_owned());
    }
    if str_is(fq, ".google.protobuf.GeneratedCodeInfo") {
        return Some("::prost_types::GeneratedCodeInfo".to_owned());
    }
    if str_is(fq, ".google.protobuf.ListValue") {
        return Some("::prost_types::ListValue".to_owned());
    }
    if str_is(fq, ".google.protobuf.MessageOptions") {
        return Some("::prost_types::MessageOptions".to_owned());
    }
    if str_is(fq, ".google.protobuf.Method") {
        return Some("::prost_types::Method".to_owned());
    }
    if str_is(fq, ".google.protobuf.MethodDescriptorProto") {
        return Some("::prost_types::MethodDescriptorProto".to_owned());
    }
    if str_is(fq, ".google.protobuf.MethodOptions") {
        return Some("::prost_types::MethodOptions".to_owned());
    }
    if str_is(fq, ".google.protobuf.Mixin") {
        return Some("::prost_types::Mixin".to_owned());
    }
    if str_is(fq, ".google.protobuf.NullValue") {
        return Some("::prost_types::NullValue".to_owned());
    }
    if str_is(fq, ".google.protobuf.OneofDescriptorProto") {
        return Some("::prost_types::OneofDescriptorProto".to_owned());
    }
    if str_is(fq, ".google.protobuf.OneofOptions") {
        return Some("::prost_types::OneofOptions".to_owned());
    }
    if str_is(fq, ".google.protobuf.Option") {
        return Some("::prost_types::Option".to_owned());
    }
    if str_is(fq, ".google.protobuf.ServiceDescriptorProto") {
        return Some("::prost_types::ServiceDescriptorProto".to_owned());
    }
    if str_is(fq, ".google.protobuf.ServiceOptions") {
        return Some("::prost_types::ServiceOptions".to_owned());
    }
    if str_is(fq, ".google.protobuf.SourceCodeInfo") {
        return Some("::prost_types::SourceCodeInfo".to_owned());
    }
    if str_is(fq, ".google.protobuf.SourceContext") {
        return Some("::prost_types::SourceContext".to_owned());
    }
    if str_is(fq, ".google.protobuf.Struct") {
        return Some("::prost_types::Struct".to_owned());
    }
    if str_is(fq, ".google.protobuf.Timestamp") {
        return Some("::prost_types::Timestamp".to_owned());
    }
    if str_is(fq, ".google.protobuf.Type") {
        return Some("::prost_types::Type".to_owned());
    }
    if str_is(fq, ".google.protobuf.UninterpretedOption") {
        return Some("::prost_types::UninterpretedOption".to_owned());
    }
    if str_is(fq, ".google.protobuf.Value") {
        return Some("::prost_types::Value".to_owned());
    }
    None
}

/// The replacement type that the user's table gives for `fq`: the first entry
/// whose name is `fq`.
pub open spec fn mapped_of(m: Seq<(String, String)>, fq: Seq<char>) -> Option<Seq<char>>
    decreases m.len(),
{
    if m.len() == 0 {
        None
    } else if m[0].0@ == fq {
        Some(m[0].1@)
    } else {
        mapped_of(m.skip(1), fq)
    }
}

/// The Rust type that replaces the schema type `fq`, if any: a well-known type
/// first, then the user's table.
pub open spec fn known_of(config: Config, fq: Seq<char>) -> Option<Seq<char>> {
    if config.prost_types && well_known_of(fq) is Some {
        well_known_of(fq)
    } else {
        mapped_of(config.mapped_types@, fq)
    }
}

/// Looks `fq` up in the user's table of replacement types.
fn mapped_type(config: &Config, fq: &[char]) -> (r: Option<String>)
    ensures
        r matches Some(t) ==> mapped_of(config.mapped_types@, fq@) == Some(t@),
        r is None <==> mapped_of(config.mapped_types@, fq@) is None,
{
    let m = &config.mapped_types;
    let mut i: usize = 0;
    assert(m@.skip(0) =~= m@);
    while i < m.len()
        invariant
            m@ == config.mapped_types@,
            0 <= i <= m@.len(),
            mapped_of(m@, fq@) == mapped_of(m@.skip(i as int), fq@),
        decreases m@.len() - i,
    {
        proof {
            assert(m@.skip(i as int).skip(1) =~= m@.skip(i + 1));
        }
        let name = chars_of(m[i].0.as_str());
        if eq_chars(name.as_slice(), fq) {
            assert(m@.skip(i as int)[0] == m@[i as int]);
            assert(mapped_of(m@.skip(i as int), fq@) == Some(m@[i as int].1@));
            let t = m[i].1.clone();
            assert(t@ == m@[i as int].1@);
            return Some(t);
        }
        i = i + 1;
    }
    None
}

/// Whether two character sequences are equal.
pub fn eq_chars(a: &[char], b: &[char]) -> (r: bool)
    ensures
        r == (a@ == b@),
{
    if a.len() != b.len() {
        return false;
    }
    let mut i: usize = 0;
    while i < a.len()
        invariant
            a@.len() == b@.len(),
            0 <= i <= a@.len(),
            forall|j: int| 0 <= j < i ==> a@[j] == b@[j],
        decreases a@.len() - i,
    {
        if a[i] != b[i] {
            assert(a@[i as int] != b@[i as int]);
            return false;
        }
        i = i + 1;
    }
    assert(a@ =~= b@);
    true
}

/// The Rust type that replaces the schema type `fq`, if any.
pub fn known_type(config: &Config, fq: &[char]) -> (r: Option<String>)
    ensures
        r matches Some(t) ==> known_of(*config, fq@) == Some(t@),
        r is None <==> known_of(*config, fq@) is None,
{
    match well_known_type(config, fq) {
        Some(t) => Some(t),
        None => mapped_type(config, fq),
    }
}

/// The dotted path that a rule is matched against: the type name, then the
/// field name when there is one.
pub open spec fn rule_path(msg: Seq<char>, field: Option<Seq<char>>) -> Seq<char> {
    match field {
        Some(f) => msg + seq!['.'] + f,
        None => msg,
    }
}

/// Whether the matcher `m` selects `path`. A matcher of a single dot selects
/// everything; one that starts with a dot selects the paths it begins, at a
/// dot boundary; any other selects the paths it ends, at a dot boundary.
pub open spec fn rule_matches(m: Seq<char>, path: Seq<char>) -> bool {
    let n = m.len();
    let l = path.len();
    if n == 0 {
        false
    } else if m == seq!['.'] {
        true
    } else if m[0] == '.' {
        n <= l && path.subrange(0, n as int) == m && (l == n || path[n as int] == '.')
    } else {
        n <= l && path.subrange(l - n, l as int) == m && (l == n || path[l - n - 1] == '.')
    }
}

/// Whether `m` stands in `path` at offset `off`.
fn occurs_at(path: &[char], m: &[char], off: usize) -> (r: bool)
    requires
        off + m@.len() <= path@.len(),
        path@.len() <= usize::MAX,
    ensures
        r == (path@.subrange(off as int, off + m@.len()) == m@),
{
    let mut i: usize = 0;
    while i < m.len()
        invariant
            off + m@.len() <= path@.len(),
            path@.len() <= usize::MAX,
            0 <= i <= m@.len(),
            forall|j: int| 0 <= j < i ==> path@[off + j] == m@[j],
        decreases m@.len() - i,
    {
        if path[off + i] != m[i] {
            assert(path@.subrange(off as int, off + m@.len())[i as int] != m@[i as int]);
            return false;
        }
        i = i + 1;
    }
    assert(path@.subrange(off as int, off + m@.len()) =~= m@);
    true
}

/// Whether the rule matcher `matcher` selects the type `msg`, or its member
/// `field`.
pub fn match_ident(matcher: &str, msg: &[char], field: Option<&str>) -> (r: bool)
    ensures
        r == rule_matches(matcher@, rule_path(msg@, match field { Some(f) => Some(f@), None => None })),
{
    let m = chars_of(matcher);
    let ghost fv = match field { Some(f) => Some(f@), None => None };
    let mut path: Vec<char> = Vec::new();
    let mut i: usize = 0;
    while i < msg.len()
        invariant
            0 <= i <= msg@.len(),
            path@ == msg@.take(i as int),
        decreases msg@.len() - i,
    {
        path.push(msg[i]);
        proof {
            assert(path@ =~= msg@.take(i + 1));
        }
        i = i + 1;
    }
    assert(msg@.take(i as int) =~= msg@);
    match field {
        Some(f) => {
            let fc = chars_of(f);
            path.push('.');
            let mut j: usize = 0;
            let ghost prefix_path = path@;
            while j < fc.len()
                invariant
                    0 <= j <= fc@.len(),
                    path@ == prefix_path + fc@.take(j as int),
                decreases fc@.len() - j,
            {
                path.push(fc[j]);
                proof {
                    assert(path@ =~= prefix_path + fc@.take(j + 1));
                }
                j = j + 1;
            }
            assert(fc@.take(j as int) =~= fc@);
            assert(path@ =~= rule_path(msg@, fv));
        },
        None => {},
    }
    assert(path@ == rule_path(msg@, fv));
    let n = m.len();
    let l = path.len();
    if n == 0 {
        return false;
    }
    if n == 1 && m[0] == '.' {
        assert(m@ =~= seq!['.']);
        return true;
    }
    proof {
        if m@ == seq!['.'] {
            assert(m@.len() == 1);
        }
    }
    if n > l {
        return false;
    }
    if m[0] == '.' {
        occurs_at(path.as_slice(), m.as_slice(), 0) && (l == n || path[n] == '.')
    } else {
        occurs_at(path.as_slice(), m.as_slice(), l - n) && (l == n || path[l - n - 1] == '.')
    }
}

} // verus!

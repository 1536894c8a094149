use vstd::prelude::*;

use crate::intrinsics::{
    before_generics, descriptor_list, enum_const, models, reflect_descriptor_list, reflect_string_list,
    strip_generics_text,
};
use crate::layout::{FieldLayout, LayoutKind, TypeLayout, TypeLayoutTable, layout_names, spec_layout_for, spec_resolve_type};
use crate::lookup::colons_to_dots;
use crate::text::{chars_of, last_segment_index, last_segment_start, owned, sep_ends_at, str_eq, views};
use crate::values::{ConstModel, ConstValue, field_models, lemma_struct_model};

verus! {

/// A reference to a type in reflection metadata: its name and, when known, its identity.
#[derive(Debug)]
pub struct TypeHandle {
    pub name: String,
    pub type_id: Option<u64>,
}

/// An argument of an attribute: its name, when it is named, and its text.
#[derive(Debug)]
pub struct AttributeArgument {
    pub name: Option<String>,
    pub value: String,
}

/// An attribute applied to a declaration.
#[derive(Debug)]
pub struct AttributeDescriptor {
    pub name: String,
    pub positional_args: Vec<AttributeArgument>,
    pub named_args: Vec<AttributeArgument>,
}

/// How a parameter is passed.
#[derive(Clone, Copy, Debug, PartialEq, Eq, Structural)]
pub enum ParameterMode {
    In,
    Ref,
    Out,
    Value,
}

/// A parameter of a method, constructor or indexer.
#[derive(Debug)]
pub struct ParameterDescriptor {
    pub name: String,
    pub parameter_type: TypeHandle,
    pub mode: ParameterMode,
    pub has_default: bool,
    pub default_value: Option<String>,
    pub attributes: Vec<AttributeDescriptor>,
}

/// What a field member declares.
#[derive(Debug)]
pub struct FieldDescriptor {
    pub field_type: TypeHandle,
    pub is_static: bool,
    pub is_readonly: bool,
    pub offset: Option<u64>,
}

/// What a method member declares.
#[derive(Debug)]
pub struct MethodDescriptor {
    pub return_type: TypeHandle,
    pub parameters: Vec<ParameterDescriptor>,
    pub is_static: bool,
    pub is_virtual: bool,
    pub is_override: bool,
    pub is_abstract: bool,
    pub is_async: bool,
    pub throws: Vec<String>,
    pub extern_abi: Option<String>,
}

/// What a property member declares, with its accessors.
#[derive(Debug)]
pub struct PropertyDescriptor {
    pub property_type: TypeHandle,
    pub has_getter: bool,
    pub has_setter: bool,
    pub has_init: bool,
    pub parameters: Vec<ParameterDescriptor>,
    pub getter: Option<MethodDescriptor>,
    pub setter: Option<MethodDescriptor>,
    pub init: Option<MethodDescriptor>,
}

/// What a constructor member declares.
#[derive(Debug)]
pub struct ConstructorDescriptor {
    pub parameters: Vec<ParameterDescriptor>,
    pub is_designated: bool,
    pub is_convenience: bool,
}

/// The kind of a member.
#[derive(Clone, Copy, Debug, PartialEq, Eq, Structural)]
pub enum MemberKind {
    Field,
    Property,
    Method,
    Constructor,
    Const,
    EnumVariant,
    UnionField,
    UnionView,
    AssociatedType,
    ExtensionMethod,
    TraitMethod,
}

/// The declared visibility of a type or member.
#[derive(Clone, Copy, Debug, PartialEq, Eq, Structural)]
pub enum VisibilityDescriptor {
    Public,
    Internal,
    Protected,
    Private,
    ProtectedInternal,
    PrivateProtected,
}

/// The kind of a type.
#[derive(Clone, Copy, Debug, PartialEq, Eq, Structural)]
pub enum TypeKind {
    Struct,
    Record,
    Class,
    Enum,
    Interface,
    Union,
    Extension,
    Trait,
    Delegate,
    Impl,
    Function,
    Const,
    Static,
}

/// A member of a type, with what its kind declares and its nested members.
#[derive(Debug)]
pub struct MemberDescriptor {
    pub name: String,
    pub kind: MemberKind,
    pub visibility: VisibilityDescriptor,
    pub declaring_type: TypeHandle,
    pub attributes: Vec<AttributeDescriptor>,
    pub field: Option<FieldDescriptor>,
    pub property: Option<PropertyDescriptor>,
    pub method: Option<MethodDescriptor>,
    pub constructor: Option<ConstructorDescriptor>,
    pub children: Vec<MemberDescriptor>,
}

/// The layout hints written on a type (`repr(C)`, packing, alignment).
#[derive(Debug)]
pub struct LayoutDescriptor {
    pub repr_c: bool,
    pub pack: Option<u32>,
    pub align: Option<u32>,
}

/// The layout of a field as reflection reports it.
#[derive(Debug)]
pub struct FieldLayoutDescriptor {
    pub name: String,
    pub offset: Option<u64>,
    pub ty: Option<TypeHandle>,
    pub readonly: Option<bool>,
}

/// The computed layout of a type as reflection reports it.
#[derive(Debug)]
pub struct TypeLayoutDescriptor {
    pub size: Option<u64>,
    pub align: Option<u32>,
    pub fields: Vec<FieldLayoutDescriptor>,
}

/// The reflection metadata recorded for a type.
#[derive(Debug)]
pub struct TypeDescriptor {
    pub namespace: Option<String>,
    pub name: String,
    pub full_name: String,
    pub type_id: Option<u64>,
    pub kind: TypeKind,
    pub visibility: VisibilityDescriptor,
    pub is_generic: bool,
    pub generic_arguments: Vec<TypeHandle>,
    pub bases: Vec<TypeHandle>,
    pub attributes: Vec<AttributeDescriptor>,
    pub underlying_type: Option<TypeHandle>,
    pub members: Vec<MemberDescriptor>,
    pub layout: Option<TypeLayoutDescriptor>,
    pub layout_hints: Option<LayoutDescriptor>,
    pub readonly: bool,
}

/// A struct value of the given type with the given fields.
pub open spec fn sv(type_path: Seq<char>, fields: Seq<(Seq<char>, ConstModel)>) -> ConstModel {
    ConstModel::Struct { type_path, fields }
}

/// A text as a raw string value, or null.
pub open spec fn opt_text_value(v: Option<Seq<char>>) -> ConstModel {
    match v {
        Some(t) => ConstModel::RawStr(t),
        None => ConstModel::Null,
    }
}

/// The text of an optional string.
pub open spec fn opt_text(v: Option<String>) -> Option<Seq<char>> {
    match v {
        Some(s) => Some(s@),
        None => None,
    }
}

/// A number as an unsigned value, or null.
pub open spec fn opt_uint_value(v: Option<u64>) -> ConstModel {
    match v {
        Some(n) => ConstModel::UInt(n as u128),
        None => ConstModel::Null,
    }
}

/// A flag as a bool value, or null.
pub open spec fn opt_bool_value(v: Option<bool>) -> ConstModel {
    match v {
        Some(b) => ConstModel::Bool(b),
        None => ConstModel::Null,
    }
}

/// The reflected values of a list of `TypeHandle`s.
pub open spec fn handle_values(xs: Seq<TypeHandle>) -> Seq<ConstModel> {
    xs.map_values(|x: TypeHandle| handle_value(x))
}

/// The reflected values of a list of `AttributeArgument`s.
pub open spec fn argument_values(xs: Seq<AttributeArgument>) -> Seq<ConstModel> {
    xs.map_values(|x: AttributeArgument| attribute_argument_value(x))
}

/// The reflected values of a list of `AttributeDescriptor`s.
pub open spec fn attribute_values(xs: Seq<AttributeDescriptor>) -> Seq<ConstModel> {
    xs.map_values(|x: AttributeDescriptor| attribute_value(x))
}

/// The reflected values of a list of `ParameterDescriptor`s.
pub open spec fn parameter_values(xs: Seq<ParameterDescriptor>) -> Seq<ConstModel> {
    xs.map_values(|x: ParameterDescriptor| parameter_value(x))
}

/// The reflected value of a type handle.
pub open spec fn handle_value(h: TypeHandle) -> ConstModel {
    sv(
        "Std::Meta::TypeHandle"@,
        seq![("Name"@, ConstModel::RawStr(h.name@)), ("TypeId"@, opt_uint_value(h.type_id))],
    )
}

/// The reflected value of an optional type handle (null when absent).
pub open spec fn opt_handle_value(h: Option<TypeHandle>) -> ConstModel {
    match h {
        Some(x) => handle_value(x),
        None => ConstModel::Null,
    }
}

/// The reflected list of type handles.
pub open spec fn handle_list_value(hs: Seq<TypeHandle>) -> ConstModel {
    descriptor_list("Std::Meta::TypeHandle"@, handle_values(hs))
}

/// The reflected value of an attribute argument.
pub open spec fn attribute_argument_value(a: AttributeArgument) -> ConstModel {
    sv(
        "Std::Meta::AttributeArgument"@,
        seq![("Name"@, opt_text_value(opt_text(a.name))), ("Value"@, ConstModel::RawStr(a.value@))],
    )
}

/// The reflected list of attribute arguments.
pub open spec fn attribute_argument_list_value(args: Seq<AttributeArgument>) -> ConstModel {
    descriptor_list(
        "Std::Meta::AttributeArgument"@,
        argument_values(args),
    )
}

/// The reflected value of an attribute.
pub open spec fn attribute_value(d: AttributeDescriptor) -> ConstModel {
    sv(
        "Std::Meta::AttributeDescriptor"@,
        seq![
            ("Name"@, ConstModel::RawStr(d.name@)),
            ("PositionalArgs"@, attribute_argument_list_value(d.positional_args@)),
            ("NamedArgs"@, attribute_argument_list_value(d.named_args@)),
        ],
    )
}

/// The reflected list of attributes.
pub open spec fn attribute_list_value(attrs: Seq<AttributeDescriptor>) -> ConstModel {
    descriptor_list(
        "Std::Meta::AttributeDescriptor"@,
        attribute_values(attrs),
    )
}

/// The reflected value of a parameter mode.
pub open spec fn parameter_mode_value(m: ParameterMode) -> ConstModel {
    let (variant, d) = match m {
        ParameterMode::In => ("In"@, 0i128),
        ParameterMode::Ref => ("Ref"@, 1i128),
        ParameterMode::Out => ("Out"@, 2i128),
        ParameterMode::Value => ("Value"@, 3i128),
    };
    ConstModel::Enum { type_path: "Std::Meta::ParameterMode"@, variant, discriminant: d }
}

/// The reflected value of a parameter.
pub open spec fn parameter_value(p: ParameterDescriptor) -> ConstModel {
    sv(
        "Std::Meta::ParameterDescriptor"@,
        seq![
            ("Name"@, ConstModel::RawStr(p.name@)),
            ("ParameterType"@, handle_value(p.parameter_type)),
            ("Mode"@, parameter_mode_value(p.mode)),
            ("HasDefault"@, ConstModel::Bool(p.has_default)),
            ("DefaultValue"@, opt_text_value(opt_text(p.default_value))),
            ("Attributes"@, attribute_list_value(p.attributes@)),
        ],
    )
}

/// The reflected list of parameters.
pub open spec fn parameter_list_value(ps: Seq<ParameterDescriptor>) -> ConstModel {
    descriptor_list(
        "Std::Meta::ParameterDescriptor"@,
        parameter_values(ps),
    )
}

/// The reflected value of a field member's declaration.
pub open spec fn field_value(f: FieldDescriptor) -> ConstModel {
    sv(
        "Std::Meta::FieldDescriptor"@,
        seq![
            ("FieldType"@, handle_value(f.field_type)),
            ("IsStatic"@, ConstModel::Bool(f.is_static)),
            ("IsReadonly"@, ConstModel::Bool(f.is_readonly)),
            ("Offset"@, opt_uint_value(f.offset)),
        ],
    )
}

/// The reflected value of a method member's declaration.
pub open spec fn method_value(m: MethodDescriptor) -> ConstModel {
    sv(
        "Std::Meta::MethodDescriptor"@,
        seq![
            ("ReturnType"@, handle_value(m.return_type)),
            ("Parameters"@, parameter_list_value(m.parameters@)),
            ("IsStatic"@, ConstModel::Bool(m.is_static)),
            ("IsVirtual"@, ConstModel::Bool(m.is_virtual)),
            ("IsOverride"@, ConstModel::Bool(m.is_override)),
            ("IsAbstract"@, ConstModel::Bool(m.is_abstract)),
            ("IsAsync"@, ConstModel::Bool(m.is_async)),
            ("Throws"@, descriptor_list("string"@, views(m.throws@).map_values(|s: Seq<char>| ConstModel::RawStr(s)))),
            ("ExternAbi"@, opt_text_value(opt_text(m.extern_abi))),
        ],
    )
}

/// The reflected value of an optional method (null when absent).
pub open spec fn opt_method_value(m: Option<MethodDescriptor>) -> ConstModel {
    match m {
        Some(x) => method_value(x),
        None => ConstModel::Null,
    }
}

/// The reflected value of a property member's declaration.
pub open spec fn property_value(p: PropertyDescriptor) -> ConstModel {
    sv(
        "Std::Meta::PropertyDescriptor"@,
        seq![
            ("PropertyType"@, handle_value(p.property_type)),
            ("HasGetter"@, ConstModel::Bool(p.has_getter)),
            ("HasSetter"@, ConstModel::Bool(p.has_setter)),
            ("HasInit"@, ConstModel::Bool(p.has_init)),
            ("Parameters"@, parameter_list_value(p.parameters@)),
            ("Getter"@, opt_method_value(p.getter)),
            ("Setter"@, opt_method_value(p.setter)),
            ("Init"@, opt_method_value(p.init)),
        ],
    )
}

/// The reflected value of a constructor member's declaration.
pub open spec fn constructor_value(c: ConstructorDescriptor) -> ConstModel {
    sv(
        "Std::Meta::ConstructorDescriptor"@,
        seq![
            ("Parameters"@, parameter_list_value(c.parameters@)),
            ("IsDesignated"@, ConstModel::Bool(c.is_designated)),
            ("IsConvenience"@, ConstModel::Bool(c.is_convenience)),
        ],
    )
}

/// The reflected value of a member kind.
pub open spec fn member_kind_value(k: MemberKind) -> ConstModel {
    let (variant, d) = match k {
        MemberKind::Field => ("Field"@, 0i128),
        MemberKind::Property => ("Property"@, 1i128),
        MemberKind::Method => ("Method"@, 2i128),
        MemberKind::Constructor => ("Constructor"@, 3i128),
        MemberKind::Const => ("Const"@, 4i128),
        MemberKind::EnumVariant => ("EnumVariant"@, 5i128),
        MemberKind::UnionField => ("UnionField"@, 6i128),
        MemberKind::UnionView => ("UnionView"@, 7i128),
        MemberKind::AssociatedType => ("AssociatedType"@, 8i128),
        MemberKind::ExtensionMethod => ("ExtensionMethod"@, 9i128),
        MemberKind::TraitMethod => ("TraitMethod"@, 10i128),
    };
    ConstModel::Enum { type_path: "Std::Meta::MemberKind"@, variant, discriminant: d }
}

/// The reflected value of a visibility.
pub open spec fn visibility_value(v: VisibilityDescriptor) -> ConstModel {
    let (variant, d) = match v {
        VisibilityDescriptor::Public => ("Public"@, 0i128),
        VisibilityDescriptor::Internal => ("Internal"@, 1i128),
        VisibilityDescriptor::Protected => ("Protected"@, 2i128),
        VisibilityDescriptor::Private => ("Private"@, 3i128),
        VisibilityDescriptor::ProtectedInternal => ("ProtectedInternal"@, 4i128),
        VisibilityDescriptor::PrivateProtected => ("PrivateProtected"@, 5i128),
    };
    ConstModel::Enum { type_path: "Std::Meta::VisibilityDescriptor"@, variant, discriminant: d }
}

/// The reflected value of a type kind.
pub open spec fn type_kind_value(k: TypeKind) -> ConstModel {
    let (variant, d) = match k {
        TypeKind::Struct => ("Struct"@, 0i128),
        TypeKind::Record => ("Record"@, 1i128),
        TypeKind::Class => ("Class"@, 2i128),
        TypeKind::Enum => ("Enum"@, 3i128),
        TypeKind::Interface => ("Interface"@, 4i128),
        TypeKind::Union => ("Union"@, 5i128),
        TypeKind::Extension => ("Extension"@, 6i128),
        TypeKind::Trait => ("Trait"@, 7i128),
        TypeKind::Delegate => ("Delegate"@, 8i128),
        TypeKind::Impl => ("Impl"@, 9i128),
        TypeKind::Function => ("Function"@, 10i128),
        TypeKind::Const => ("Const"@, 11i128),
        TypeKind::Static => ("Static"@, 12i128),
    };
    ConstModel::Enum { type_path: "Std::Meta::TypeKind"@, variant, discriminant: d }
}

fn named(name: &str, value: ConstValue) -> (r: (String, ConstValue))
    ensures
        r.0@ == name@,
        r.1@ == value@,
{
    (owned(name), value)
}

fn make_struct(type_path: &str, fields: Vec<(String, ConstValue)>) -> (r: ConstValue)
    ensures
        r@ == sv(type_path@, field_models(fields@)),
{
    let r = ConstValue::Struct { type_path: owned(type_path), fields };
    proof {
        lemma_struct_model(r);
    }
    r
}

/// A string as a raw string value, or null (see `opt_text_value`).
pub fn reflect_optional_string(value: Option<&String>) -> (r: ConstValue)
    ensures
        r@ == opt_text_value(
            match value {
                Some(s) => Some(s@),
                None => None,
            },
        ),
{
    match value {
        Some(text) => ConstValue::RawStr(text.clone()),
        None => ConstValue::Null,
    }
}

/// A flag as a bool value, or null (see `opt_bool_value`).
pub fn reflect_optional_bool(value: Option<bool>) -> (r: ConstValue)
    ensures
        r@ == opt_bool_value(value),
{
    match value {
        Some(flag) => ConstValue::Bool(flag),
        None => ConstValue::Null,
    }
}

/// A number as an unsigned value, or null (see `opt_uint_value`).
pub fn reflect_optional_uint(value: Option<u64>) -> (r: ConstValue)
    ensures
        r@ == opt_uint_value(value),
{
    match value {
        Some(number) => ConstValue::UInt(number as u128),
        None => ConstValue::Null,
    }
}

/// The reflected value of a type handle (see `handle_value`).
pub fn reflect_type_handle(handle: &TypeHandle) -> (r: ConstValue)
    ensures
        r@ == handle_value(*handle),
{
    let fields = vec![
        named("Name", ConstValue::RawStr(handle.name.clone())),
        named("TypeId", reflect_optional_uint(handle.type_id)),
    ];
    assert(field_models(fields@) =~= seq![
        ("Name"@, ConstModel::RawStr(handle.name@)),
        ("TypeId"@, opt_uint_value(handle.type_id)),
    ]);
    make_struct("Std::Meta::TypeHandle", fields)
}

/// The reflected value of an optional type handle (see `opt_handle_value`).
pub fn reflect_optional_type_handle(handle: Option<&TypeHandle>) -> (r: ConstValue)
    ensures
        r@ == opt_handle_value(
            match handle {
                Some(h) => Some(*h),
                None => None,
            },
        ),
{
    match handle {
        Some(h) => reflect_type_handle(h),
        None => ConstValue::Null,
    }
}

/// The reflected list of type handles (see `handle_list_value`).
pub fn reflect_type_handle_list(handles: &Vec<TypeHandle>) -> (r: ConstValue)
    ensures
        r@ == handle_list_value(handles@),
{
    let mut items: Vec<ConstValue> = Vec::new();
    let mut i: usize = 0;
    while i < handles.len()
        invariant
            i <= handles@.len(),
            models(items@) == handle_values(handles@.subrange(0, i as int)),
        decreases handles.len() - i,
    {
        let ghost prev = items@;
        let item = reflect_type_handle(&handles[i]);
        let ghost im = item@;
        items.push(item);
        assert(models(items@) =~= models(prev).push(im));
        assert(handle_values(handles@.subrange(0, i + 1)) =~= handle_values(handles@.subrange(0, i as int)).push(im));
        assert(models(items@) =~= handle_values(handles@.subrange(0, i + 1)));
        i = i + 1;
    }
    assert(handles@.subrange(0, handles@.len() as int) =~= handles@);
    reflect_descriptor_list("Std::Meta::TypeHandle", items)
}

/// The reflected value of an attribute argument (see `attribute_argument_value`).
pub fn reflect_attribute_argument_value(arg: &AttributeArgument) -> (r: ConstValue)
    ensures
        r@ == attribute_argument_value(*arg),
{
    let fields = vec![
        named("Name", reflect_optional_string(arg.name.as_ref())),
        named("Value", ConstValue::RawStr(arg.value.clone())),
    ];
    assert(field_models(fields@) =~= seq![
        ("Name"@, opt_text_value(opt_text(arg.name))),
        ("Value"@, ConstModel::RawStr(arg.value@)),
    ]);
    make_struct("Std::Meta::AttributeArgument", fields)
}

/// The reflected list of attribute arguments (see `attribute_argument_list_value`).
pub fn reflect_attribute_argument_list(args: &Vec<AttributeArgument>) -> (r: ConstValue)
    ensures
        r@ == attribute_argument_list_value(args@),
{
    let mut items: Vec<ConstValue> = Vec::new();
    let mut i: usize = 0;
    while i < args.len()
        invariant
            i <= args@.len(),
            models(items@) == argument_values(args@.subrange(0, i as int)),
        decreases args.len() - i,
    {
        let ghost prev = items@;
        let item = reflect_attribute_argument_value(&args[i]);
        let ghost im = item@;
        items.push(item);
        assert(models(items@) =~= models(prev).push(im));
        assert(argument_values(args@.subrange(0, i + 1)) =~= argument_values(args@.subrange(0, i as int)).push(im));
        assert(models(items@) =~= argument_values(args@.subrange(0, i + 1)));
        i = i + 1;
    }
    assert(args@.subrange(0, args@.len() as int) =~= args@);
    reflect_descriptor_list("Std::Meta::AttributeArgument", items)
}

/// The reflected value of an attribute (see `attribute_value`).
pub fn reflect_attribute_descriptor_value(descriptor: &AttributeDescriptor) -> (r: ConstValue)
    ensures
        r@ == attribute_value(*descriptor),
{
    let fields = vec![
        named("Name", ConstValue::RawStr(descriptor.name.clone())),
        named("PositionalArgs", reflect_attribute_argument_list(&descriptor.positional_args)),
        named("NamedArgs", reflect_attribute_argument_list(&descriptor.named_args)),
    ];
    assert(field_models(fields@) =~= seq![
        ("Name"@, ConstModel::RawStr(descriptor.name@)),
        ("PositionalArgs"@, attribute_argument_list_value(descriptor.positional_args@)),
        ("NamedArgs"@, attribute_argument_list_value(descriptor.named_args@)),
    ]);
    make_struct("Std::Meta::AttributeDescriptor", fields)
}

/// The reflected list of attributes (see `attribute_list_value`).
pub fn reflect_attribute_list(attrs: &Vec<AttributeDescriptor>) -> (r: ConstValue)
    ensures
        r@ == attribute_list_value(attrs@),
{
    let mut items: Vec<ConstValue> = Vec::new();
    let mut i: usize = 0;
    while i < attrs.len()
        invariant
            i <= attrs@.len(),
            models(items@) == attribute_values(attrs@.subrange(0, i as int)),
        decreases attrs.len() - i,
    {
        let ghost prev = items@;
        let item = reflect_attribute_descriptor_value(&attrs[i]);
        let ghost im = item@;
        items.push(item);
        assert(models(items@) =~= models(prev).push(im));
        assert(attribute_values(attrs@.subrange(0, i + 1)) =~= attribute_values(attrs@.subrange(0, i as int)).push(im));
        assert(models(items@) =~= attribute_values(attrs@.subrange(0, i + 1)));
        i = i + 1;
    }
    assert(attrs@.subrange(0, attrs@.len() as int) =~= attrs@);
    reflect_descriptor_list("Std::Meta::AttributeDescriptor", items)
}

/// The reflected value of a parameter mode (see `parameter_mode_value`).
pub fn reflect_parameter_mode_value(mode: &ParameterMode) -> (r: ConstValue)
    ensures
        r@ == parameter_mode_value(*mode),
{
    match mode {
        ParameterMode::In => enum_const("Std::Meta::ParameterMode", "In", 0),
        ParameterMode::Ref => enum_const("Std::Meta::ParameterMode", "Ref", 1),
        ParameterMode::Out => enum_const("Std::Meta::ParameterMode", "Out", 2),
        ParameterMode::Value => enum_const("Std::Meta::ParameterMode", "Value", 3),
    }
}

/// The reflected value of a parameter (see `parameter_value`).
pub fn reflect_parameter_descriptor_value(descriptor: &ParameterDescriptor) -> (r: ConstValue)
    ensures
        r@ == parameter_value(*descriptor),
{
    let fields = vec![
        named("Name", ConstValue::RawStr(descriptor.name.clone())),
        named("ParameterType", reflect_type_handle(&descriptor.parameter_type)),
        named("Mode", reflect_parameter_mode_value(&descriptor.mode)),
        named("HasDefault", ConstValue::Bool(descriptor.has_default)),
        named("DefaultValue", reflect_optional_string(descriptor.default_value.as_ref())),
        named("Attributes", reflect_attribute_list(&descriptor.attributes)),
    ];
    assert(field_models(fields@) =~= seq![
        ("Name"@, ConstModel::RawStr(descriptor.name@)),
        ("ParameterType"@, handle_value(descriptor.parameter_type)),
        ("Mode"@, parameter_mode_value(descriptor.mode)),
        ("HasDefault"@, ConstModel::Bool(descriptor.has_default)),
        ("DefaultValue"@, opt_text_value(opt_text(descriptor.default_value))),
        ("Attributes"@, attribute_list_value(descriptor.attributes@)),
    ]);
    make_struct("Std::Meta::ParameterDescriptor", fields)
}

/// The reflected list of parameters (see `parameter_list_value`).
pub fn reflect_parameter_list(parameters: &Vec<ParameterDescriptor>) -> (r: ConstValue)
    ensures
        r@ == parameter_list_value(parameters@),
{
    let mut items: Vec<ConstValue> = Vec::new();
    let mut i: usize = 0;
    while i < parameters.len()
        invariant
            i <= parameters@.len(),
            models(items@) == parameter_values(parameters@.subrange(0, i as int)),
        decreases parameters.len() - i,
    {
        let ghost prev = items@;
        let item = reflect_parameter_descriptor_value(&parameters[i]);
        let ghost im = item@;
        items.push(item);
        assert(models(items@) =~= models(prev).push(im));
        assert(parameter_values(parameters@.subrange(0, i + 1)) =~= parameter_values(parameters@.subrange(0, i as int)).push(im));
        assert(models(items@) =~= parameter_values(parameters@.subrange(0, i + 1)));
        i = i + 1;
    }
    assert(parameters@.subrange(0, parameters@.len() as int) =~= parameters@);
    reflect_descriptor_list("Std::Meta::ParameterDescriptor", items)
}

/// The reflected value of a field member's declaration (see `field_value`).
pub fn reflect_field_descriptor_value(descriptor: &FieldDescriptor) -> (r: ConstValue)
    ensures
        r@ == field_value(*descriptor),
{
    let fields = vec![
        named("FieldType", reflect_type_handle(&descriptor.field_type)),
        named("IsStatic", ConstValue::Bool(descriptor.is_static)),
        named("IsReadonly", ConstValue::Bool(descriptor.is_readonly)),
        named("Offset", reflect_optional_uint(descriptor.offset)),
    ];
    assert(field_models(fields@) =~= seq![
        ("FieldType"@, handle_value(descriptor.field_type)),
        ("IsStatic"@, ConstModel::Bool(descriptor.is_static)),
        ("IsReadonly"@, ConstModel::Bool(descriptor.is_readonly)),
        ("Offset"@, opt_uint_value(descriptor.offset)),
    ]);
    make_struct("Std::Meta::FieldDescriptor", fields)
}

/// The reflected value of a method member's declaration (see `method_value`).
pub fn reflect_method_descriptor_value(descriptor: &MethodDescriptor) -> (r: ConstValue)
    ensures
        r@ == method_value(*descriptor),
{
    let fields = vec![
        named("ReturnType", reflect_type_handle(&descriptor.return_type)),
        named("Parameters", reflect_parameter_list(&descriptor.parameters)),
        named("IsStatic", ConstValue::Bool(descriptor.is_static)),
        named("IsVirtual", ConstValue::Bool(descriptor.is_virtual)),
        named("IsOverride", ConstValue::Bool(descriptor.is_override)),
        named("IsAbstract", ConstValue::Bool(descriptor.is_abstract)),
        named("IsAsync", ConstValue::Bool(descriptor.is_async)),
        named("Throws", reflect_string_list(&descriptor.throws)),
        named("ExternAbi", reflect_optional_string(descriptor.extern_abi.as_ref())),
    ];
    assert(field_models(fields@) =~= seq![
        ("ReturnType"@, handle_value(descriptor.return_type)),
        ("Parameters"@, parameter_list_value(descriptor.parameters@)),
        ("IsStatic"@, ConstModel::Bool(descriptor.is_static)),
        ("IsVirtual"@, ConstModel::Bool(descriptor.is_virtual)),
        ("IsOverride"@, ConstModel::Bool(descriptor.is_override)),
        ("IsAbstract"@, ConstModel::Bool(descriptor.is_abstract)),
        ("IsAsync"@, ConstModel::Bool(descriptor.is_async)),
        ("Throws"@, descriptor_list("string"@, views(descriptor.throws@).map_values(|s: Seq<char>| ConstModel::RawStr(s)))),
        ("ExternAbi"@, opt_text_value(opt_text(descriptor.extern_abi))),
    ]);
    make_struct("Std::Meta::MethodDescriptor", fields)
}

fn reflect_optional_method(method: Option<&MethodDescriptor>) -> (r: ConstValue)
    ensures
        r@ == opt_method_value(
            match method {
                Some(m) => Some(*m),
                None => None,
            },
        ),
{
    match method {
        Some(m) => reflect_method_descriptor_value(m),
        None => ConstValue::Null,
    }
}

/// The reflected value of a property member's declaration (see `property_value`).
pub fn reflect_property_descriptor_value(descriptor: &PropertyDescriptor) -> (r: ConstValue)
    ensures
        r@ == property_value(*descriptor),
{
    let fields = vec![
        named("PropertyType", reflect_type_handle(&descriptor.property_type)),
        named("HasGetter", ConstValue::Bool(descriptor.has_getter)),
        named("HasSetter", ConstValue::Bool(descriptor.has_setter)),
        named("HasInit", ConstValue::Bool(descriptor.has_init)),
        named("Parameters", reflect_parameter_list(&descriptor.parameters)),
        named("Getter", reflect_optional_method(descriptor.getter.as_ref())),
        named("Setter", reflect_optional_method(descriptor.setter.as_ref())),
        named("Init", reflect_optional_method(descriptor.init.as_ref())),
    ];
    assert(field_models(fields@) =~= seq![
        ("PropertyType"@, handle_value(descriptor.property_type)),
        ("HasGetter"@, ConstModel::Bool(descriptor.has_getter)),
        ("HasSetter"@, ConstModel::Bool(descriptor.has_setter)),
        ("HasInit"@, ConstModel::Bool(descriptor.has_init)),
        ("Parameters"@, parameter_list_value(descriptor.parameters@)),
        ("Getter"@, opt_method_value(descriptor.getter)),
        ("Setter"@, opt_method_value(descriptor.setter)),
        ("Init"@, opt_method_value(descriptor.init)),
    ]);
    make_struct("Std::Meta::PropertyDescriptor", fields)
}

/// The reflected value of a constructor member's declaration (see `constructor_value`).
pub fn reflect_constructor_descriptor_value(descriptor: &ConstructorDescriptor) -> (r: ConstValue)
    ensures
        r@ == constructor_value(*descriptor),
{
    let fields = vec![
        named("Parameters", reflect_parameter_list(&descriptor.parameters)),
        named("IsDesignated", ConstValue::Bool(descriptor.is_designated)),
        named("IsConvenience", ConstValue::Bool(descriptor.is_convenience)),
    ];
    assert(field_models(fields@) =~= seq![
        ("Parameters"@, parameter_list_value(descriptor.parameters@)),
        ("IsDesignated"@, ConstModel::Bool(descriptor.is_designated)),
        ("IsConvenience"@, ConstModel::Bool(descriptor.is_convenience)),
    ]);
    make_struct("Std::Meta::ConstructorDescriptor", fields)
}

/// The reflected value of a member kind (see `member_kind_value`).
pub fn reflect_member_kind_value(kind: MemberKind) -> (r: ConstValue)
    ensures
        r@ == member_kind_value(kind),
{
    let t = "Std::Meta::MemberKind";
    match kind {
        MemberKind::Field => enum_const(t, "Field", 0),
        MemberKind::Property => enum_const(t, "Property", 1),
        MemberKind::Method => enum_const(t, "Method", 2),
        MemberKind::Constructor => enum_const(t, "Constructor", 3),
        MemberKind::Const => enum_const(t, "Const", 4),
        MemberKind::EnumVariant => enum_const(t, "EnumVariant", 5),
        MemberKind::UnionField => enum_const(t, "UnionField", 6),
        MemberKind::UnionView => enum_const(t, "UnionView", 7),
        MemberKind::AssociatedType => enum_const(t, "AssociatedType", 8),
        MemberKind::ExtensionMethod => enum_const(t, "ExtensionMethod", 9),
        MemberKind::TraitMethod => enum_const(t, "TraitMethod", 10),
    }
}

/// The reflected value of a visibility (see `visibility_value`).
pub fn reflect_visibility_value(visibility: VisibilityDescriptor) -> (r: ConstValue)
    ensures
        r@ == visibility_value(visibility),
{
    let t = "Std::Meta::VisibilityDescriptor";
    match visibility {
        VisibilityDescriptor::Public => enum_const(t, "Public", 0),
        VisibilityDescriptor::Internal => enum_const(t, "Internal", 1),
        VisibilityDescriptor::Protected => enum_const(t, "Protected", 2),
        VisibilityDescriptor::Private => enum_const(t, "Private", 3),
        VisibilityDescriptor::ProtectedInternal => enum_const(t, "ProtectedInternal", 4),
        VisibilityDescriptor::PrivateProtected => enum_const(t, "PrivateProtected", 5),
    }
}

/// The reflected value of a type kind (see `type_kind_value`).
pub fn reflect_type_kind_value(kind: TypeKind) -> (r: ConstValue)
    ensures
        r@ == type_kind_value(kind),
{
    let t = "Std::Meta::TypeKind";
    match kind {
        TypeKind::Struct => enum_const(t, "Struct", 0),
        TypeKind::Record => enum_const(t, "Record", 1),
        TypeKind::Class => enum_const(t, "Class", 2),
        TypeKind::Enum => enum_const(t, "Enum", 3),
        TypeKind::Interface => enum_const(t, "Interface", 4),
        TypeKind::Union => enum_const(t, "Union", 5),
        TypeKind::Extension => enum_const(t, "Extension", 6),
        TypeKind::Trait => enum_const(t, "Trait", 7),
        TypeKind::Delegate => enum_const(t, "Delegate", 8),
        TypeKind::Impl => enum_const(t, "Impl", 9),
        TypeKind::Function => enum_const(t, "Function", 10),
        TypeKind::Const => enum_const(t, "Const", 11),
        TypeKind::Static => enum_const(t, "Static", 12),
    }
}

/// The reflected value of an optional field declaration (null when absent).
pub open spec fn opt_field_value(f: Option<FieldDescriptor>) -> ConstModel {
    match f {
        Some(x) => field_value(x),
        None => ConstModel::Null,
    }
}

/// The reflected value of an optional property declaration (null when absent).
pub open spec fn opt_property_value(p: Option<PropertyDescriptor>) -> ConstModel {
    match p {
        Some(x) => property_value(x),
        None => ConstModel::Null,
    }
}

/// The reflected value of an optional constructor declaration (null when absent).
pub open spec fn opt_constructor_value(c: Option<ConstructorDescriptor>) -> ConstModel {
    match c {
        Some(x) => constructor_value(x),
        None => ConstModel::Null,
    }
}

/// The reflected value of a member, with its nested members.
pub open spec fn member_value(m: MemberDescriptor) -> ConstModel
    decreases m, m.children@.len() + 1,
{
    sv(
        "Std::Meta::MemberDescriptor"@,
        seq![
            ("Name"@, ConstModel::RawStr(m.name@)),
            ("Kind"@, member_kind_value(m.kind)),
            ("Visibility"@, visibility_value(m.visibility)),
            ("DeclaringType"@, handle_value(m.declaring_type)),
            ("Attributes"@, attribute_list_value(m.attributes@)),
            ("Field"@, opt_field_value(m.field)),
            ("Property"@, opt_property_value(m.property)),
            ("Method"@, opt_method_value(m.method)),
            ("Constructor"@, opt_constructor_value(m.constructor)),
            ("Children"@, descriptor_list("Std::Meta::MemberDescriptor"@, child_values(m, m.children@.len()))),
        ],
    )
}

/// The reflected values of the first `n` nested members of `m`.
pub open spec fn child_values(m: MemberDescriptor, n: nat) -> Seq<ConstModel>
    decreases m, n,
{
    if n == 0 || n > m.children@.len() {
        Seq::empty()
    } else {
        proof {
            assert(decreases_to!(m => m.children));
            assert(decreases_to!(m.children => m.children@));
            assert(decreases_to!(m.children@ => m.children@[n - 1]));
        }
        child_values(m, (n - 1) as nat).push(member_value(m.children@[n - 1]))
    }
}

/// The reflected values of a list of members.
pub open spec fn member_values(ms: Seq<MemberDescriptor>) -> Seq<ConstModel> {
    ms.map_values(|x: MemberDescriptor| member_value(x))
}

/// The reflected list of members.
pub open spec fn member_list_value(ms: Seq<MemberDescriptor>) -> ConstModel {
    descriptor_list("Std::Meta::MemberDescriptor"@, member_values(ms))
}

proof fn lemma_child_values(m: MemberDescriptor, n: nat)
    requires
        n <= m.children@.len(),
    ensures
        child_values(m, n) == member_values(m.children@).subrange(0, n as int),
    decreases n,
{
    if n > 0 {
        lemma_child_values(m, (n - 1) as nat);
    }
    assert(child_values(m, n) =~= member_values(m.children@).subrange(0, n as int));
}

/// The reflected value of a member (see `member_value`).
pub fn reflect_member_descriptor_value(descriptor: &MemberDescriptor) -> (r: ConstValue)
    ensures
        r@ == member_value(*descriptor),
    decreases descriptor,
{
    let field = match &descriptor.field {
        Some(f) => reflect_field_descriptor_value(f),
        None => ConstValue::Null,
    };
    let property = match &descriptor.property {
        Some(p) => reflect_property_descriptor_value(p),
        None => ConstValue::Null,
    };
    let method = reflect_optional_method(descriptor.method.as_ref());
    let constructor = match &descriptor.constructor {
        Some(c) => reflect_constructor_descriptor_value(c),
        None => ConstValue::Null,
    };
    let children = reflect_member_list(&descriptor.children);
    proof {
        lemma_child_values(*descriptor, descriptor.children@.len());
        assert(member_values(descriptor.children@).subrange(0, descriptor.children@.len() as int)
            =~= member_values(descriptor.children@));
    }
    let fields = vec![
        named("Name", ConstValue::RawStr(descriptor.name.clone())),
        named("Kind", reflect_member_kind_value(descriptor.kind)),
        named("Visibility", reflect_visibility_value(descriptor.visibility)),
        named("DeclaringType", reflect_type_handle(&descriptor.declaring_type)),
        named("Attributes", reflect_attribute_list(&descriptor.attributes)),
        named("Field", field),
        named("Property", property),
        named("Method", method),
        named("Constructor", constructor),
        named("Children", children),
    ];
    assert(field_models(fields@) =~= seq![
        ("Name"@, ConstModel::RawStr(descriptor.name@)),
        ("Kind"@, member_kind_value(descriptor.kind)),
        ("Visibility"@, visibility_value(descriptor.visibility)),
        ("DeclaringType"@, handle_value(descriptor.declaring_type)),
        ("Attributes"@, attribute_list_value(descriptor.attributes@)),
        ("Field"@, opt_field_value(descriptor.field)),
        ("Property"@, opt_property_value(descriptor.property)),
        ("Method"@, opt_method_value(descriptor.method)),
        ("Constructor"@, opt_constructor_value(descriptor.constructor)),
        ("Children"@, descriptor_list("Std::Meta::MemberDescriptor"@, child_values(*descriptor, descriptor.children@.len()))),
    ]);
    make_struct("Std::Meta::MemberDescriptor", fields)
}

/// The reflected list of members (see `member_list_value`).
pub fn reflect_member_list(members: &Vec<MemberDescriptor>) -> (r: ConstValue)
    ensures
        r@ == member_list_value(members@),
    decreases members,
{
    let mut items: Vec<ConstValue> = Vec::new();
    let mut i: usize = 0;
    while i < members.len()
        invariant
            i <= members@.len(),
            models(items@) == member_values(members@.subrange(0, i as int)),
        decreases members.len() - i,
    {
        let ghost prev = items@;
        proof {
            assert(decreases_to!(*members => members@));
            assert(decreases_to!(members@ => members@[i as int]));
        }
        let item = reflect_member_descriptor_value(&members[i]);
        let ghost im = item@;
        items.push(item);
        assert(models(items@) =~= models(prev).push(im));
        assert(member_values(members@.subrange(0, i + 1)) =~= member_values(members@.subrange(0, i as int)).push(im));
        i = i + 1;
    }
    assert(members@.subrange(0, members@.len() as int) =~= members@);
    reflect_descriptor_list("Std::Meta::MemberDescriptor", items)
}

/// A 32-bit number widened to 64 bits.
pub open spec fn widen32(v: Option<u32>) -> Option<u64> {
    match v {
        Some(x) => Some(x as u64),
        None => None,
    }
}

/// The reflected value of optional layout hints (null when absent).
pub open spec fn layout_hints_value(d: Option<LayoutDescriptor>) -> ConstModel {
    match d {
        None => ConstModel::Null,
        Some(l) => sv(
            "Std::Meta::LayoutDescriptor"@,
            seq![
                ("ReprC"@, ConstModel::Bool(l.repr_c)),
                ("Pack"@, opt_uint_value(widen32(l.pack))),
                ("Align"@, opt_uint_value(widen32(l.align))),
            ],
        ),
    }
}

/// The reflected value of a field's layout.
pub open spec fn field_layout_value(f: FieldLayoutDescriptor) -> ConstModel {
    sv(
        "Std::Meta::FieldLayoutDescriptor"@,
        seq![
            ("Name"@, ConstModel::RawStr(f.name@)),
            ("Offset"@, opt_uint_value(f.offset)),
            ("Type"@, opt_handle_value(f.ty)),
            ("Readonly"@, opt_bool_value(f.readonly)),
        ],
    )
}

/// The reflected values of a list of field layouts.
pub open spec fn field_layout_values(fs: Seq<FieldLayoutDescriptor>) -> Seq<ConstModel> {
    fs.map_values(|x: FieldLayoutDescriptor| field_layout_value(x))
}

/// The reflected value of an optional type layout (null when absent).
pub open spec fn type_layout_value(d: Option<TypeLayoutDescriptor>) -> ConstModel {
    match d {
        None => ConstModel::Null,
        Some(l) => sv(
            "Std::Meta::TypeLayoutDescriptor"@,
            seq![
                ("Size"@, opt_uint_value(l.size)),
                ("Align"@, opt_uint_value(widen32(l.align))),
                ("Fields"@, descriptor_list("Std::Meta::FieldLayoutDescriptor"@, field_layout_values(l.fields@))),
            ],
        ),
    }
}

/// The reflected value of a type descriptor whose namespace, full name, identity and layout
/// value are the given ones.
pub open spec fn type_value_with(
    d: TypeDescriptor,
    namespace: Option<Seq<char>>,
    full_name: Seq<char>,
    type_id: Option<u64>,
    layout: ConstModel,
) -> ConstModel {
    sv(
        "Std::Meta::TypeDescriptor"@,
        seq![
            ("Namespace"@, opt_text_value(namespace)),
            ("Name"@, ConstModel::RawStr(d.name@)),
            ("FullName"@, ConstModel::RawStr(full_name)),
            ("TypeId"@, opt_uint_value(type_id)),
            ("Kind"@, type_kind_value(d.kind)),
            ("Visibility"@, visibility_value(d.visibility)),
            ("IsGeneric"@, ConstModel::Bool(d.is_generic)),
            ("GenericArguments"@, handle_list_value(d.generic_arguments@)),
            ("Bases"@, handle_list_value(d.bases@)),
            ("Attributes"@, attribute_list_value(d.attributes@)),
            ("UnderlyingType"@, opt_handle_value(d.underlying_type)),
            ("Members"@, member_list_value(d.members@)),
            ("Layout"@, layout),
            ("LayoutHints"@, layout_hints_value(d.layout_hints)),
            ("Readonly"@, ConstModel::Bool(d.readonly)),
        ],
    )
}

/// The reflected value of a type descriptor.
pub open spec fn type_value(d: TypeDescriptor) -> ConstModel {
    type_value_with(d, opt_text(d.namespace), d.full_name@, d.type_id, type_layout_value(d.layout))
}

/// The reflected value of optional layout hints (see `layout_hints_value`).
pub fn reflect_layout_descriptor(descriptor: Option<&LayoutDescriptor>) -> (r: ConstValue)
    ensures
        r@ == layout_hints_value(
            match descriptor {
                Some(d) => Some(*d),
                None => None,
            },
        ),
{
    let layout = match descriptor {
        Some(l) => l,
        None => {
            return ConstValue::Null;
        },
    };
    let pack = match layout.pack {
        Some(p) => Some(p as u64),
        None => None,
    };
    let align = match layout.align {
        Some(a) => Some(a as u64),
        None => None,
    };
    let fields = vec![
        named("ReprC", ConstValue::Bool(layout.repr_c)),
        named("Pack", reflect_optional_uint(pack)),
        named("Align", reflect_optional_uint(align)),
    ];
    assert(field_models(fields@) =~= seq![
        ("ReprC"@, ConstModel::Bool(layout.repr_c)),
        ("Pack"@, opt_uint_value(widen32(layout.pack))),
        ("Align"@, opt_uint_value(widen32(layout.align))),
    ]);
    make_struct("Std::Meta::LayoutDescriptor", fields)
}

/// The reflected value of a field's layout (see `field_layout_value`).
pub fn reflect_field_layout_descriptor_value(descriptor: &FieldLayoutDescriptor) -> (r: ConstValue)
    ensures
        r@ == field_layout_value(*descriptor),
{
    let fields = vec![
        named("Name", ConstValue::RawStr(descriptor.name.clone())),
        named("Offset", reflect_optional_uint(descriptor.offset)),
        named("Type", reflect_optional_type_handle(descriptor.ty.as_ref())),
        named("Readonly", reflect_optional_bool(descriptor.readonly)),
    ];
    assert(field_models(fields@) =~= seq![
        ("Name"@, ConstModel::RawStr(descriptor.name@)),
        ("Offset"@, opt_uint_value(descriptor.offset)),
        ("Type"@, opt_handle_value(descriptor.ty)),
        ("Readonly"@, opt_bool_value(descriptor.readonly)),
    ]);
    make_struct("Std::Meta::FieldLayoutDescriptor", fields)
}

/// The reflected list of field layouts.
pub fn reflect_field_layout_list(fields: &Vec<FieldLayoutDescriptor>) -> (r: ConstValue)
    ensures
        r@ == descriptor_list("Std::Meta::FieldLayoutDescriptor"@, field_layout_values(fields@)),
{
    let mut items: Vec<ConstValue> = Vec::new();
    let mut i: usize = 0;
    while i < fields.len()
        invariant
            i <= fields@.len(),
            models(items@) == field_layout_values(fields@.subrange(0, i as int)),
        decreases fields.len() - i,
    {
        let ghost prev = items@;
        let item = reflect_field_layout_descriptor_value(&fields[i]);
        let ghost im = item@;
        items.push(item);
        assert(models(items@) =~= models(prev).push(im));
        assert(field_layout_values(fields@.subrange(0, i + 1)) =~= field_layout_values(fields@.subrange(0, i as int)).push(im));
        i = i + 1;
    }
    assert(fields@.subrange(0, fields@.len() as int) =~= fields@);
    reflect_descriptor_list("Std::Meta::FieldLayoutDescriptor", items)
}

/// The reflected value of an optional type layout (see `type_layout_value`).
pub fn reflect_type_layout_descriptor(descriptor: Option<&TypeLayoutDescriptor>) -> (r: ConstValue)
    ensures
        r@ == type_layout_value(
            match descriptor {
                Some(d) => Some(*d),
                None => None,
            },
        ),
{
    let layout = match descriptor {
        Some(l) => l,
        None => {
            return ConstValue::Null;
        },
    };
    let align = match layout.align {
        Some(a) => Some(a as u64),
        None => None,
    };
    let fields = vec![
        named("Size", reflect_optional_uint(layout.size)),
        named("Align", reflect_optional_uint(align)),
        named("Fields", reflect_field_layout_list(&layout.fields)),
    ];
    assert(field_models(fields@) =~= seq![
        ("Size"@, opt_uint_value(layout.size)),
        ("Align"@, opt_uint_value(widen32(layout.align))),
        ("Fields"@, descriptor_list("Std::Meta::FieldLayoutDescriptor"@, field_layout_values(layout.fields@))),
    ]);
    make_struct("Std::Meta::TypeLayoutDescriptor", fields)
}

/// The reflected value of a type descriptor with the given namespace, full name, identity and
/// layout value (see `type_value_with`).
pub fn reflect_type_descriptor_with(
    descriptor: &TypeDescriptor,
    namespace: Option<String>,
    full_name: &str,
    type_id: Option<u64>,
    layout: ConstValue,
) -> (r: ConstValue)
    ensures
        r@ == type_value_with(*descriptor, opt_text(namespace), full_name@, type_id, layout@),
{
    let ghost lm = layout@;
    let ghost ns = opt_text(namespace);
    let ns_value = match namespace {
        Some(n) => ConstValue::RawStr(n),
        None => ConstValue::Null,
    };
    let fields = vec![
        named("Namespace", ns_value),
        named("Name", ConstValue::RawStr(descriptor.name.clone())),
        named("FullName", ConstValue::RawStr(owned(full_name))),
        named("TypeId", reflect_optional_uint(type_id)),
        named("Kind", reflect_type_kind_value(descriptor.kind)),
        named("Visibility", reflect_visibility_value(descriptor.visibility)),
        named("IsGeneric", ConstValue::Bool(descriptor.is_generic)),
        named("GenericArguments", reflect_type_handle_list(&descriptor.generic_arguments)),
        named("Bases", reflect_type_handle_list(&descriptor.bases)),
        named("Attributes", reflect_attribute_list(&descriptor.attributes)),
        named("UnderlyingType", reflect_optional_type_handle(descriptor.underlying_type.as_ref())),
        named("Members", reflect_member_list(&descriptor.members)),
        named("Layout", layout),
        named("LayoutHints", reflect_layout_descriptor(descriptor.layout_hints.as_ref())),
        named("Readonly", ConstValue::Bool(descriptor.readonly)),
    ];
    assert(field_models(fields@) =~= seq![
        ("Namespace"@, opt_text_value(ns)),
        ("Name"@, ConstModel::RawStr(descriptor.name@)),
        ("FullName"@, ConstModel::RawStr(full_name@)),
        ("TypeId"@, opt_uint_value(type_id)),
        ("Kind"@, type_kind_value(descriptor.kind)),
        ("Visibility"@, visibility_value(descriptor.visibility)),
        ("IsGeneric"@, ConstModel::Bool(descriptor.is_generic)),
        ("GenericArguments"@, handle_list_value(descriptor.generic_arguments@)),
        ("Bases"@, handle_list_value(descriptor.bases@)),
        ("Attributes"@, attribute_list_value(descriptor.attributes@)),
        ("UnderlyingType"@, opt_handle_value(descriptor.underlying_type)),
        ("Members"@, member_list_value(descriptor.members@)),
        ("Layout"@, lm),
        ("LayoutHints"@, layout_hints_value(descriptor.layout_hints)),
        ("Readonly"@, ConstModel::Bool(descriptor.readonly)),
    ]);
    make_struct("Std::Meta::TypeDescriptor", fields)
}

/// The reflected value of a type descriptor (see `type_value`).
pub fn reflect_type_descriptor_value(descriptor: &TypeDescriptor) -> (r: ConstValue)
    ensures
        r@ == type_value(*descriptor),
{
    let namespace = match &descriptor.namespace {
        Some(n) => Some(n.clone()),
        None => None,
    };
    let layout = reflect_type_layout_descriptor(descriptor.layout.as_ref());
    reflect_type_descriptor_with(
        descriptor,
        namespace,
        descriptor.full_name.as_str(),
        descriptor.type_id,
        layout,
    )
}

/// A size widened to 64 bits.
pub open spec fn widen_size(v: Option<usize>) -> Option<u64> {
    match v {
        Some(x) => Some(x as u64),
        None => None,
    }
}

/// An alignment cut to 32 bits.
pub open spec fn narrow_align(v: Option<usize>) -> Option<u32> {
    match v {
        Some(x) => Some(x as u32),
        None => None,
    }
}

/// The layout that reflection reports for `name`: the one registered under it, else the one
/// registered under the name without its generic arguments.
pub open spec fn built_layout(t: TypeLayoutTable, name: Seq<char>) -> Option<TypeLayout> {
    match spec_layout_for(t, name) {
        Some(l) => Some(l),
        None => if before_generics(name) == name {
            None
        } else {
            spec_layout_for(t, before_generics(name))
        },
    }
}

/// Whether `d` describes the field (or union view) `f`: its name, its offset (none for a union
/// view), its type by name (with no identity) and whether it is read-only.
pub open spec fn describes_field(d: FieldLayoutDescriptor, f: FieldLayout, is_union: bool) -> bool {
    &&& d.name@ == f.name@
    &&& d.offset == if is_union {
        None
    } else {
        widen_size(f.offset)
    }
    &&& d.ty matches Some(h) && h.name@ == f.ty@ && h.type_id is None
    &&& d.readonly == Some(f.is_readonly)
}

/// Whether `d` describes the layout `l`: its size, its alignment and, but for an enum, its
/// fields in order.
pub open spec fn describes_layout(d: TypeLayoutDescriptor, l: TypeLayout) -> bool {
    &&& d.size == widen_size(l.size)
    &&& d.align == narrow_align(l.align)
    &&& d.fields@.len() == if l.kind == LayoutKind::Enum {
        0
    } else {
        l.fields@.len()
    }
    &&& forall|i: int|
        0 <= i < d.fields@.len() ==> describes_field(#[trigger] d.fields@[i], l.fields@[i], l.kind == LayoutKind::Union)
}

/// The reflected value of the field layout that describes `f`.
pub open spec fn layout_field_value(f: FieldLayout, is_union: bool) -> ConstModel {
    sv(
        "Std::Meta::FieldLayoutDescriptor"@,
        seq![
            ("Name"@, ConstModel::RawStr(f.name@)),
            ("Offset"@, opt_uint_value(if is_union { None } else { widen_size(f.offset) })),
            ("Type"@, sv("Std::Meta::TypeHandle"@, seq![("Name"@, ConstModel::RawStr(f.ty@)), ("TypeId"@, ConstModel::Null)])),
            ("Readonly"@, ConstModel::Bool(f.is_readonly)),
        ],
    )
}

/// The reflected values of the field layouts that describe `l`.
pub open spec fn layout_field_values(l: TypeLayout) -> Seq<ConstModel> {
    if l.kind == LayoutKind::Enum {
        Seq::empty()
    } else {
        l.fields@.map_values(|f: FieldLayout| layout_field_value(f, l.kind == LayoutKind::Union))
    }
}

/// The reflected value of the type layout that describes `l`.
pub open spec fn layout_value_of(l: TypeLayout) -> ConstModel {
    sv(
        "Std::Meta::TypeLayoutDescriptor"@,
        seq![
            ("Size"@, opt_uint_value(widen_size(l.size))),
            ("Align"@, opt_uint_value(widen32(narrow_align(l.align)))),
            ("Fields"@, descriptor_list("Std::Meta::FieldLayoutDescriptor"@, layout_field_values(l))),
        ],
    )
}

/// A layout descriptor that describes a layout reflects as that layout.
pub proof fn lemma_layout_value(d: TypeLayoutDescriptor, l: TypeLayout)
    requires
        describes_layout(d, l),
    ensures
        type_layout_value(Some(d)) == layout_value_of(l),
{
    assert forall|i: int| 0 <= i < d.fields@.len() implies #[trigger] field_layout_values(d.fields@)[i]
        == layout_field_values(l)[i] by {
        let fd = d.fields@[i];
        assert(describes_field(fd, l.fields@[i], l.kind == LayoutKind::Union));
        let h = fd.ty->0;
        assert(opt_handle_value(fd.ty) == handle_value(h));
        assert(handle_value(h) =~= sv("Std::Meta::TypeHandle"@, seq![("Name"@, ConstModel::RawStr(l.fields@[i].ty@)), ("TypeId"@, ConstModel::Null)]));
    }
    assert(field_layout_values(d.fields@) =~= layout_field_values(l));
}

/// A handle on the type named `name`, with no identity recorded.
pub fn type_handle_from_name(name: &str) -> (r: TypeHandle)
    ensures
        r.name@ == name@,
        r.type_id is None,
{
    TypeHandle { name: owned(name), type_id: None }
}

/// The layout that reflection reports for `type_path` (see `built_layout` and
/// `describes_layout`).
pub fn build_type_layout_descriptor(table: &TypeLayoutTable, type_path: &str) -> (r: Option<
    TypeLayoutDescriptor,
>)
    ensures
        match built_layout(*table, type_path@) {
            None => r is None,
            Some(l) => r matches Some(d) && describes_layout(d, l),
        },
{
    let layout = match table.layout_for_name(type_path) {
        Some(l) => l,
        None => {
            let base = strip_generics_text(type_path);
            if str_eq(base.as_str(), type_path) {
                return None;
            }
            match table.layout_for_name(base.as_str()) {
                Some(l) => l,
                None => {
                    return None;
                },
            }
        },
    };
    let is_union = layout.kind == LayoutKind::Union;
    let mut fields: Vec<FieldLayoutDescriptor> = Vec::new();
    if layout.kind != LayoutKind::Enum {
        let mut i: usize = 0;
        while i < layout.fields.len()
            invariant
                i <= layout.fields@.len(),
                fields@.len() == i,
                is_union == (layout.kind == LayoutKind::Union),
                forall|k: int| 0 <= k < i ==> describes_field(#[trigger] fields@[k], layout.fields@[k], is_union),
            decreases layout.fields.len() - i,
        {
            let f = &layout.fields[i];
            let offset = if is_union {
                None
            } else {
                match f.offset {
                    Some(o) => Some(o as u64),
                    None => None,
                }
            };
            fields.push(
                FieldLayoutDescriptor {
                    name: f.name.clone(),
                    offset,
                    ty: Some(type_handle_from_name(f.ty.as_str())),
                    readonly: Some(f.is_readonly),
                },
            );
            i = i + 1;
        }
    }
    let size = match layout.size {
        Some(s) => Some(s as u64),
        None => None,
    };
    let align = match layout.align {
        Some(a) => Some(a as u32),
        None => None,
    };
    Some(TypeLayoutDescriptor { size, align, fields })
}

/// The namespace part of a `::`-separated path: all before its last `::`, if it has one.
pub open spec fn namespace_of(path: Seq<char>) -> Option<Seq<char>> {
    let k = last_segment_start(path);
    if k == 0 {
        None
    } else {
        Some(path.subrange(0, k - 2))
    }
}

proof fn lemma_last_segment_start_sep(path: Seq<char>)
    ensures
        last_segment_start(path) == 0 || (2 <= last_segment_start(path) <= path.len() && sep_ends_at(
            path,
            last_segment_start(path),
        )),
    decreases path.len(),
{
    if path.len() >= 2 && !(path[path.len() - 2] == ':' && path[path.len() - 1] == ':') {
        lemma_last_segment_start_sep(path.drop_last());
        let k = last_segment_start(path.drop_last());
        if k != 0 {
            assert(path.drop_last()[k - 2] == path[k - 2]);
            assert(path.drop_last()[k - 1] == path[k - 1]);
        }
    }
}

/// The namespace part of a path (see `namespace_of`).
pub fn namespace_of_path(path: &str) -> (r: Option<String>)
    ensures
        opt_text(r) == namespace_of(path@),
{
    let v = chars_of(path);
    let k = last_segment_index(&v);
    proof {
        lemma_last_segment_start_sep(path@);
    }
    if k == 0 {
        None
    } else {
        Some(owned(path.substring_char(0, k - 2)))
    }
}

/// What `reflect<T>()` gives for the descriptor `d` found for the type `canonical`: its full
/// name is `canonical`, its namespace (when it has none) is that of `canonical`, and its
/// layout (when it has none) is the one the layout table reports.
pub open spec fn reflected_type(d: TypeDescriptor, canonical: Seq<char>, t: TypeLayoutTable) -> ConstModel {
    type_value_with(
        d,
        match d.namespace {
            Some(n) => Some(n@),
            None => namespace_of(canonical),
        },
        canonical,
        d.type_id,
        match d.layout {
            Some(l) => type_layout_value(Some(l)),
            None => match built_layout(t, canonical) {
                Some(l) => layout_value_of(l),
                None => ConstModel::Null,
            },
        },
    )
}

/// The reflected value of `descriptor` as found for the type `canonical` (see
/// `reflected_type`).
pub fn reflect_found_type(descriptor: &TypeDescriptor, canonical: &str, table: &TypeLayoutTable) -> (r:
    ConstValue)
    ensures
        r@ == reflected_type(*descriptor, canonical@, *table),
{
    let namespace = match &descriptor.namespace {
        Some(n) => Some(n.clone()),
        None => namespace_of_path(canonical),
    };
    let layout = match &descriptor.layout {
        Some(l) => reflect_type_layout_descriptor(Some(l)),
        None => {
            let built = build_type_layout_descriptor(table, canonical);
            proof {
                if built is Some {
                    lemma_layout_value(built->0, built_layout(*table, canonical@)->0);
                }
            }
            reflect_type_layout_descriptor(built.as_ref())
        },
    };
    reflect_type_descriptor_with(descriptor, namespace, canonical, descriptor.type_id, layout)
}

/// Whether a descriptor is recorded under `key`.
pub open spec fn has_reflection(refl: Seq<(String, TypeDescriptor)>, key: Seq<char>) -> bool {
    exists|i: int| 0 <= i < refl.len() && #[trigger] refl[i].0@ == key
}

/// Whether `i` is the first entry recorded under `key`.
pub open spec fn is_first_reflection(refl: Seq<(String, TypeDescriptor)>, key: Seq<char>, i: int) -> bool {
    0 <= i < refl.len() && refl[i].0@ == key && forall|j: int| 0 <= j < i ==> #[trigger] refl[j].0@ != key
}

/// The first entry recorded under `key` (meaningful when there is one).
pub open spec fn first_reflection(refl: Seq<(String, TypeDescriptor)>, key: Seq<char>) -> int {
    choose|i: int| is_first_reflection(refl, key, i)
}

/// The first entry is the one `first_reflection` names.
pub proof fn lemma_first_reflection(refl: Seq<(String, TypeDescriptor)>, key: Seq<char>, i: int)
    requires
        is_first_reflection(refl, key, i),
    ensures
        first_reflection(refl, key) == i,
        has_reflection(refl, key),
{
    let j = first_reflection(refl, key);
    assert(is_first_reflection(refl, key, j));
    if j < i {
        assert(refl[j].0@ != key);
    }
    if i < j {
        assert(refl[i].0@ != key);
    }
}

/// The key under which `reflect<T>()` finds a descriptor for the type `canonical` (written
/// `named`): `canonical`, then `canonical` with `::` written `.`, then `named`, then
/// `canonical` without its generic arguments.
pub open spec fn found_key(refl: Seq<(String, TypeDescriptor)>, canonical: Seq<char>, named: Seq<char>) -> Option<
    Seq<char>,
> {
    let alt = colons_to_dots(canonical);
    let base = before_generics(canonical);
    if has_reflection(refl, canonical) {
        Some(canonical)
    } else if alt != canonical && has_reflection(refl, alt) {
        Some(alt)
    } else if has_reflection(refl, named) {
        Some(named)
    } else if base != canonical && has_reflection(refl, base) {
        Some(base)
    } else {
        None
    }
}

/// What `reflect<T>()` gives for the named type `named`, seen from the given namespace and
/// owner: the reflected descriptor, or the message of the error.
pub open spec fn reflect_outcome(
    refl: Seq<(String, TypeDescriptor)>,
    t: TypeLayoutTable,
    namespace: Option<Seq<char>>,
    owner: Option<Seq<char>>,
    named: Seq<char>,
) -> Result<ConstModel, Seq<char>> {
    let canonical = match spec_resolve_type(t, namespace, owner, named) {
        Some(c) => c,
        None => named,
    };
    match found_key(refl, canonical, named) {
        Some(k) => Ok(reflected_type(refl[first_reflection(refl, k)].1, canonical, t)),
        None => Err(
            if layout_names(t.types@).contains(canonical) {
                "`reflect<T>()` can only be used with public types; `"@ + canonical + "` is not exported"@
            } else {
                "`reflect<T>()` could not find a descriptor for type `"@ + canonical + "`"@
            },
        ),
    }
}

} // verus!

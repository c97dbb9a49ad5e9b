//! Reading message descriptors: descriptor keys, static strings, the
//! shapes of expressions named in diagnostics, and the id of a message.

use vstd::prelude::*;
use crate::ast::{Expr, ExprKind, MemberProp, PropName, Span};
use crate::hash::{interpolate_pattern, interpolated, text_result, PatternError, PatternFault};
use crate::text::{chars_eq, chars_of, extend_chars, string_from_chars};

verus! {

pub open spec fn word_id() -> Seq<char> {
    seq!['i', 'd']
}

pub open spec fn word_default_message() -> Seq<char> {
    seq!['d', 'e', 'f', 'a', 'u', 'l', 't', 'M', 'e', 's', 's', 'a', 'g', 'e']
}

pub open spec fn word_description() -> Seq<char> {
    seq!['d', 'e', 's', 'c', 'r', 'i', 'p', 't', 'i', 'o', 'n']
}

/// The three keys of a message descriptor.
#[derive(Clone, Copy, Debug, PartialEq, Eq, Structural)]
pub enum DescriptorKey {
    Id,
    DefaultMessage,
    Description,
}

/// The spelling of a descriptor key.
pub open spec fn key_word(k: DescriptorKey) -> Seq<char> {
    match k {
        DescriptorKey::Id => word_id(),
        DescriptorKey::DefaultMessage => word_default_message(),
        DescriptorKey::Description => word_description(),
    }
}

/// The descriptor key spelled by `k`, if any.
pub open spec fn descriptor_key_of(k: Seq<char>) -> Option<DescriptorKey> {
    if k == word_id() {
        Some(DescriptorKey::Id)
    } else if k == word_default_message() {
        Some(DescriptorKey::DefaultMessage)
    } else if k == word_description() {
        Some(DescriptorKey::Description)
    } else {
        None
    }
}

/// Executable [`descriptor_key_of`].
pub fn descriptor_key(k: &str) -> (r: Option<DescriptorKey>)
    ensures
        r == descriptor_key_of(k@),
{
    let c = chars_of(k);
    let id: [char; 2] = ['i', 'd'];
    let dm: [char; 14] = ['d', 'e', 'f', 'a', 'u', 'l', 't', 'M', 'e', 's', 's', 'a', 'g', 'e'];
    let ds: [char; 11] = ['d', 'e', 's', 'c', 'r', 'i', 'p', 't', 'i', 'o', 'n'];
    assert(id@ == word_id());
    assert(dm@ == word_default_message());
    assert(ds@ == word_description());
    if chars_eq(&c, &id) {
        Some(DescriptorKey::Id)
    } else if chars_eq(&c, &dm) {
        Some(DescriptorKey::DefaultMessage)
    } else if chars_eq(&c, &ds) {
        Some(DescriptorKey::Description)
    } else {
        None
    }
}

/// Whether `key` is `id`, `defaultMessage` or `description`.
pub fn is_descriptor_key(key: &str) -> (r: bool)
    ensures
        r == descriptor_key_of(key@) is Some,
{
    descriptor_key(key).is_some()
}

/// An expression with its TypeScript wrappers taken off.
pub open spec fn unwrapped(e: Expr) -> Expr
    decreases e,
{
    match e.kind {
        ExprKind::Ts(inner) => unwrapped(*inner),
        _ => e,
    }
}

/// Takes off the TypeScript wrappers (`as`, type assertions, `!`,
/// `as const`, `satisfies`) around an expression.
pub fn unwrap_ts(e: &Expr) -> (r: &Expr)
    ensures
        *r == unwrapped(*e),
    decreases e,
{
    match &e.kind {
        ExprKind::Ts(inner) => unwrap_ts(inner),
        _ => e,
    }
}

/// The value of an expression that is a string, once its TypeScript
/// wrappers are off: a string literal, or a template literal with one quasi,
/// no interpolation and a cooked value.
pub open spec fn static_string_of(e: Expr) -> Option<Seq<char>> {
    match unwrapped(e).kind {
        ExprKind::Str(s) => Some(s@),
        ExprKind::Generated(s) => Some(s@),
        ExprKind::Tpl { quasis, exprs, first_cooked } => if exprs == 0 && quasis == 1 {
            match first_cooked {
                Some(c) => Some(c@),
                None => None,
            }
        } else {
            None
        },
        _ => None,
    }
}

/// Executable [`static_string_of`].
pub fn static_string(e: &Expr) -> (r: Option<String>)
    ensures
        match r {
            Some(s) => static_string_of(*e) == Some(s@),
            None => static_string_of(*e) is None,
        },
{
    let u = unwrap_ts(e);
    match &u.kind {
        ExprKind::Str(s) => Some(s.clone()),
        ExprKind::Generated(s) => Some(s.clone()),
        ExprKind::Tpl { quasis, exprs, first_cooked } => {
            if *exprs == 0 && *quasis == 1 {
                match first_cooked {
                    Some(c) => Some(c.clone()),
                    None => None,
                }
            } else {
                None
            }
        },
        _ => None,
    }
}

/// The shape of an expression, as diagnostics describe it.
#[derive(Clone, Copy, Debug, PartialEq, Eq, Structural)]
pub enum ExprShape {
    StringLiteral,
    NumberLiteral,
    BooleanLiteral,
    Null,
    NonStringLiteral,
    IdentifierReference,
    BinaryExpression,
    TemplateLiteral,
    FunctionCall,
    MemberAccess,
    TernaryExpression,
    ObjectLiteral,
    ArrayLiteral,
    Parenthesised,
    NonLiteral,
}

/// The words diagnostics use for a shape.
pub open spec fn shape_words(s: ExprShape) -> Seq<char> {
    match s {
        ExprShape::StringLiteral => "string literal"@,
        ExprShape::NumberLiteral => "number literal"@,
        ExprShape::BooleanLiteral => "boolean literal"@,
        ExprShape::Null => "null"@,
        ExprShape::NonStringLiteral => "non-string literal"@,
        ExprShape::IdentifierReference => "identifier reference"@,
        ExprShape::BinaryExpression => "binary expression (e.g. `a + b`)"@,
        ExprShape::TemplateLiteral => "template literal with `${...}` interpolation"@,
        ExprShape::FunctionCall => "function call"@,
        ExprShape::MemberAccess => "member access (e.g. `x.y`)"@,
        ExprShape::TernaryExpression => "ternary expression"@,
        ExprShape::ObjectLiteral => "object literal"@,
        ExprShape::ArrayLiteral => "array literal"@,
        ExprShape::Parenthesised => "parenthesised expression"@,
        ExprShape::NonLiteral => "non-literal expression"@,
    }
}

impl ExprShape {
    /// The words diagnostics use for the shape.
    pub fn text(&self) -> (r: &'static str)
        ensures
            r@ == shape_words(*self),
    {
        match self {
            ExprShape::StringLiteral => "string literal",
            ExprShape::NumberLiteral => "number literal",
            ExprShape::BooleanLiteral => "boolean literal",
            ExprShape::Null => "null",
            ExprShape::NonStringLiteral => "non-string literal",
            ExprShape::IdentifierReference => "identifier reference",
            ExprShape::BinaryExpression => "binary expression (e.g. `a + b`)",
            ExprShape::TemplateLiteral => "template literal with `${...}` interpolation",
            ExprShape::FunctionCall => "function call",
            ExprShape::MemberAccess => "member access (e.g. `x.y`)",
            ExprShape::TernaryExpression => "ternary expression",
            ExprShape::ObjectLiteral => "object literal",
            ExprShape::ArrayLiteral => "array literal",
            ExprShape::Parenthesised => "parenthesised expression",
            ExprShape::NonLiteral => "non-literal expression",
        }
    }
}

/// The shape of an expression (its TypeScript wrappers not taken off).
pub open spec fn shape_of(e: Expr) -> ExprShape {
    match e.kind {
        ExprKind::Str(_) => ExprShape::StringLiteral,
        ExprKind::Generated(_) => ExprShape::StringLiteral,
        ExprKind::Num => ExprShape::NumberLiteral,
        ExprKind::Bool => ExprShape::BooleanLiteral,
        ExprKind::Null => ExprShape::Null,
        ExprKind::OtherLit => ExprShape::NonStringLiteral,
        ExprKind::Ident(_) => ExprShape::IdentifierReference,
        ExprKind::Bin => ExprShape::BinaryExpression,
        ExprKind::Tpl { .. } => ExprShape::TemplateLiteral,
        ExprKind::Call => ExprShape::FunctionCall,
        ExprKind::Member(_) => ExprShape::MemberAccess,
        ExprKind::Cond => ExprShape::TernaryExpression,
        ExprKind::Object(_) => ExprShape::ObjectLiteral,
        ExprKind::Array => ExprShape::ArrayLiteral,
        ExprKind::Paren => ExprShape::Parenthesised,
        _ => ExprShape::NonLiteral,
    }
}

/// Executable [`shape_of`]: how a diagnostic describes the expression.
pub fn expr_kind(e: &Expr) -> (r: ExprShape)
    ensures
        r == shape_of(*e),
{
    match &e.kind {
        ExprKind::Str(_) => ExprShape::StringLiteral,
        ExprKind::Generated(_) => ExprShape::StringLiteral,
        ExprKind::Num => ExprShape::NumberLiteral,
        ExprKind::Bool => ExprShape::BooleanLiteral,
        ExprKind::Null => ExprShape::Null,
        ExprKind::OtherLit => ExprShape::NonStringLiteral,
        ExprKind::Ident(_) => ExprShape::IdentifierReference,
        ExprKind::Bin => ExprShape::BinaryExpression,
        ExprKind::Tpl { .. } => ExprShape::TemplateLiteral,
        ExprKind::Call => ExprShape::FunctionCall,
        ExprKind::Member(_) => ExprShape::MemberAccess,
        ExprKind::Cond => ExprShape::TernaryExpression,
        ExprKind::Object(_) => ExprShape::ObjectLiteral,
        ExprKind::Array => ExprShape::ArrayLiteral,
        ExprKind::Paren => ExprShape::Parenthesised,
        _ => ExprShape::NonLiteral,
    }
}

/// The name of a property key that is an identifier or a string.
pub open spec fn prop_name_text(name: PropName) -> Option<Seq<char>> {
    match name {
        PropName::Ident(s) => Some(s@),
        PropName::Str(s) => Some(s@),
        _ => None,
    }
}

/// Executable [`prop_name_text`].
pub fn prop_name_as_str(name: &PropName) -> (r: Option<String>)
    ensures
        match r {
            Some(s) => prop_name_text(*name) == Some(s@),
            None => prop_name_text(*name) is None,
        },
{
    match name {
        PropName::Ident(s) => Some(s.clone()),
        PropName::Str(s) => Some(s.clone()),
        _ => None,
    }
}

/// Why a message descriptor, or the call or element that holds it, cannot
/// be read statically.
#[derive(Clone, Copy, Debug, PartialEq, Eq, Structural)]
pub enum DescriptorError {
    /// `...rest` inside a message descriptor.
    SpreadInDescriptor(Span),
    /// `[expr]: value` inside a message descriptor.
    ComputedKey(Span),
    /// A numeric key inside a message descriptor.
    NumericKey(Span),
    /// A big-integer key inside a message descriptor.
    BigIntKey(Span),
    /// A descriptor field whose value is not a static string.
    NotStringLiteral { span: Span, key: DescriptorKey, shape: ExprShape },
    /// `{ defaultMessage }` and the like.
    ShorthandInDescriptor { span: Span, key: DescriptorKey },
    /// A method named like a descriptor field, or with a key that is not a
    /// plain name.
    MethodInDescriptor(Span),
    GetterInDescriptor(Span),
    SetterInDescriptor(Span),
    AssignInDescriptor(Span),
    /// A descriptor with neither a non-empty `id` nor a non-empty
    /// `defaultMessage`.
    MissingIdAndMessage,
    /// A call whose callee is a computed member, `obj[expr](...)`: whether
    /// it calls a message function cannot be told statically.
    ComputedMemberCallee(Span),
    DefineMessageWithoutArgument(Span),
    DefineMessageNotObject { span: Span, shape: ExprShape },
    DefineMessagesWithoutArgument(Span),
    DefineMessagesNotObject { span: Span, shape: ExprShape },
    SpreadInDefineMessages(Span),
    ShorthandInDefineMessages(Span),
    MethodInDefineMessages(Span),
    AccessorInDefineMessages,
    BagEntryNotObject { span: Span, shape: ExprShape },
    JsxAttrWithoutValue { span: Span, key: DescriptorKey },
    JsxAttrNotStringLiteral { span: Span, key: DescriptorKey, shape: ExprShape },
    JsxAttrEmpty { span: Span, key: DescriptorKey },
    JsxAttrElement { span: Span, key: DescriptorKey },
    JsxAttrFragment { span: Span, key: DescriptorKey },
    /// `<FormattedMessage defaultMessage="" />` without an `id`.
    JsxEmptyMessageWithoutId(Span),
}

/// Why the transform stops, by view.
pub enum TransformFault {
    Descriptor(DescriptorError),
    Pattern(PatternFault),
}

/// Why the transform stops: a descriptor it cannot read, or an id pattern
/// whose hash or digest type is not implemented.
#[derive(Debug, Clone, PartialEq, Eq)]
pub enum TransformError {
    Descriptor(DescriptorError),
    Pattern(PatternError),
}

impl View for TransformError {
    type V = TransformFault;

    open spec fn view(&self) -> TransformFault {
        match self {
            TransformError::Descriptor(d) => TransformFault::Descriptor(*d),
            TransformError::Pattern(p) => TransformFault::Pattern(p@),
        }
    }
}

/// The key of a key-value property, which must be an identifier or a
/// string; any other key is an error.
pub open spec fn static_key_of(name: PropName) -> Result<Seq<char>, DescriptorError> {
    match name {
        PropName::Ident(s) => Ok(s@),
        PropName::Str(s) => Ok(s@),
        PropName::Computed(sp) => Err(DescriptorError::ComputedKey(sp)),
        PropName::Num(sp) => Err(DescriptorError::NumericKey(sp)),
        PropName::BigInt(sp) => Err(DescriptorError::BigIntKey(sp)),
    }
}

/// Executable [`static_key_of`].
pub fn require_static_key(name: &PropName) -> (r: Result<String, DescriptorError>)
    ensures
        match r {
            Ok(s) => static_key_of(*name) == Ok::<Seq<char>, DescriptorError>(s@),
            Err(e) => static_key_of(*name) == Err::<Seq<char>, DescriptorError>(e),
        },
{
    match name {
        PropName::Ident(s) => Ok(s.clone()),
        PropName::Str(s) => Ok(s.clone()),
        PropName::Computed(sp) => Err(DescriptorError::ComputedKey(*sp)),
        PropName::Num(sp) => Err(DescriptorError::NumericKey(*sp)),
        PropName::BigInt(sp) => Err(DescriptorError::BigIntKey(*sp)),
    }
}

/// The value of a descriptor field, which must be a static string.
pub open spec fn static_value_of(e: Expr, key: DescriptorKey) -> Result<Seq<char>, DescriptorError> {
    match static_string_of(e) {
        Some(s) => Ok(s),
        None => Err(DescriptorError::NotStringLiteral { span: e.span, key, shape: shape_of(e) }),
    }
}

/// Executable [`static_value_of`].
pub fn require_static_string(e: &Expr, key: DescriptorKey) -> (r: Result<String, DescriptorError>)
    ensures
        match r {
            Ok(s) => static_value_of(*e, key) == Ok::<Seq<char>, DescriptorError>(s@),
            Err(x) => static_value_of(*e, key) == Err::<Seq<char>, DescriptorError>(x),
        },
{
    match static_string(e) {
        Some(s) => Ok(s),
        None => Err(DescriptorError::NotStringLiteral { span: e.span, key, shape: expr_kind(e) }),
    }
}

/// The name a callee is called by, and whether it is a member access: an
/// identifier or `obj.name`.  A computed member `obj[expr]` has no name
/// (calls through one are refused, see [`is_computed_member`]).
pub open spec fn callee_name_of(e: Expr) -> Option<(Seq<char>, bool)> {
    match e.kind {
        ExprKind::Ident(s) => Some((s@, false)),
        ExprKind::Member(MemberProp::Ident(s)) => Some((s@, true)),
        _ => None,
    }
}

/// Whether the expression is a computed member access, `obj[expr]`.
pub open spec fn is_computed_member(e: Expr) -> bool {
    e.kind matches ExprKind::Member(MemberProp::Computed(_))
}

/// Executable [`is_computed_member`].
pub fn computed_member(e: &Expr) -> (r: bool)
    ensures
        r == is_computed_member(*e),
{
    match &e.kind {
        ExprKind::Member(MemberProp::Computed(_)) => true,
        _ => false,
    }
}

/// Executable [`callee_name_of`].
pub fn callee_ident_name(e: &Expr) -> (r: Option<(String, bool)>)
    ensures
        match r {
            Some((s, m)) => callee_name_of(*e) == Some((s@, m)),
            None => callee_name_of(*e) is None,
        },
{
    match &e.kind {
        ExprKind::Ident(s) => Some((s.clone(), false)),
        ExprKind::Member(MemberProp::Ident(s)) => Some((s.clone(), true)),
        _ => None,
    }
}

/// The text whose digest is a message's id: the message, then `#` and the
/// description when there is a non-empty one.
pub open spec fn id_content(msg: Seq<char>, description: Option<Seq<char>>) -> Seq<char> {
    match description {
        Some(d) => if d.len() > 0 { msg + seq!['#'] + d } else { msg },
        None => msg,
    }
}

/// The id of a message: a non-empty existing id stays; otherwise an empty
/// or missing message gives the empty id, and a message gives the pattern
/// interpolated with the digest of [`id_content`].
pub open spec fn computed_id(
    existing_id: Option<Seq<char>>,
    default_message: Option<Seq<char>>,
    description: Option<Seq<char>>,
    pattern: Seq<char>,
) -> Result<Seq<char>, PatternFault> {
    if existing_id is Some && existing_id.unwrap().len() > 0 {
        Ok(existing_id.unwrap())
    } else {
        match default_message {
            None => Ok(Seq::empty()),
            Some(m) => if m.len() == 0 {
                Ok(Seq::empty())
            } else {
                interpolated(pattern, id_content(m, description))
            },
        }
    }
}

/// The characters of an optional string.
pub open spec fn opt_str(o: Option<&str>) -> Option<Seq<char>> {
    match o {
        Some(s) => Some(s@),
        None => None,
    }
}

/// The id of a message (see [`computed_id`]).
pub fn compute_id(
    existing_id: Option<&str>,
    default_message: Option<&str>,
    description: Option<&str>,
    pattern: &str,
) -> (r: Result<String, PatternError>)
    ensures
        text_result(r) == computed_id(
            opt_str(existing_id),
            opt_str(default_message),
            opt_str(description),
            pattern@,
        ),
{
    if let Some(id) = existing_id {
        if !id.is_empty() {
            let c = chars_of(id);
            return Ok(string_from_chars(&c));
        }
    }
    let msg = match default_message {
        Some(m) => m,
        None => {
            return Ok(String::new());
        },
    };
    if msg.is_empty() {
        return Ok(String::new());
    }
    let mut content = chars_of(msg);
    match description {
        Some(d) => {
            if !d.is_empty() {
                content.push('#');
                let dc = chars_of(d);
                extend_chars(&mut content, &dc);
                assert(content@ =~= msg@ + seq!['#'] + d@);
            }
        },
        None => {},
    }
    assert(content@ == id_content(msg@, opt_str(description)));
    let content_str = string_from_chars(&content);
    interpolate_pattern(pattern, content_str.as_str())
}

/// An existing non-empty id is the id, whatever the message, description
/// and pattern.
pub proof fn lemma_existing_id_kept(
    id: Seq<char>,
    default_message: Option<Seq<char>>,
    description: Option<Seq<char>>,
    pattern: Seq<char>,
)
    requires
        id.len() > 0,
    ensures
        computed_id(Some(id), default_message, description, pattern) == Ok::<Seq<char>, PatternFault>(id),
{
}

/// Without a non-empty existing id, the id of a non-empty message is the
/// pattern interpolated with the message exactly as given (followed by `#`
/// and the description when there is a non-empty one): nothing is
/// normalized or otherwise changed on the way.
pub proof fn lemma_id_digests_message_as_given(
    existing_id: Option<Seq<char>>,
    message: Seq<char>,
    description: Option<Seq<char>>,
    pattern: Seq<char>,
)
    requires
        !(existing_id matches Some(i) && i.len() > 0),
        message.len() > 0,
    ensures
        computed_id(existing_id, Some(message), description, pattern) == interpolated(
            pattern,
            if description matches Some(d) && d.len() > 0 {
                message + seq!['#'] + description->Some_0
            } else {
                message
            },
        ),
{
}

/// With the default pattern, no existing id and no description, the id of
/// a message is the first six characters of the base64 SHA-512 digest of
/// the message's UTF-8 bytes, the message taken exactly as given.
pub proof fn lemma_default_id_of_message(message: Seq<char>)
    requires
        message.len() > 0,
    ensures
        computed_id(None, Some(message), None, crate::config::default_pattern()) == Ok::<
            Seq<char>,
            PatternFault,
        >(
            crate::hash::digest_cut(
                crate::digest::base64_encoded(crate::digest::sha512_of(vstd::utf8::encode_utf8(message))),
                6,
            ),
        ),
{
    crate::config::lemma_default_pattern_digest(message);
}

} // verus!

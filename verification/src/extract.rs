//! Rewriting message descriptors: object literals passed to the message
//! functions, the bag of `defineMessages`, and the attributes of message
//! components.  A descriptor gets its id (the existing one, or the digest
//! of its message), loses its description, and keeps its message
//! normalized, or loses it when the options say so.

use vstd::prelude::*;
use crate::ast::{Expr, ExprKind, ObjectLit, Prop, PropKind, PropName, Span};
use crate::config::FormatJsTransform;
use crate::descriptor::{
    static_string_of,
    computed_id, compute_id, descriptor_key, descriptor_key_of, prop_name_as_str, prop_name_text,
    require_static_key, require_static_string, static_key_of, static_value_of, word_default_message,
    word_description, word_id, DescriptorError, DescriptorKey, TransformError, TransformFault,
};
use crate::text::{chars_of, str_eq, string_from_chars};
use crate::whitespace::{normalize_whitespace, normalized};
use crate::hash::interpolated;

verus! {

/// The descriptor fields read so far: the last non-empty `id`, the last
/// `defaultMessage` and `description`, and whether an `id` or a
/// `defaultMessage` field was seen at all.
pub struct FieldsView {
    pub id: Option<Seq<char>>,
    pub default_message: Option<Seq<char>>,
    pub description: Option<Seq<char>>,
    pub has_id: bool,
    pub has_default_message: bool,
}

pub open spec fn no_fields() -> FieldsView {
    FieldsView {
        id: None,
        default_message: None,
        description: None,
        has_id: false,
        has_default_message: false,
    }
}

/// The fields after reading `key` with value `v`.  An empty `id` marks the
/// field as present without replacing an id read before.
pub open spec fn with_field(f: FieldsView, key: DescriptorKey, v: Seq<char>) -> FieldsView {
    match key {
        DescriptorKey::Id => FieldsView {
            id: if v.len() > 0 { Some(v) } else { f.id },
            has_id: true,
            ..f
        },
        DescriptorKey::DefaultMessage => FieldsView {
            default_message: Some(v),
            has_default_message: true,
            ..f
        },
        DescriptorKey::Description => FieldsView { description: Some(v), ..f },
    }
}

/// Reads one property of a descriptor object.  Spreads, getters, setters,
/// assignments, keys that are not names, shorthands and methods named like
/// a descriptor field, methods without a plain name, and descriptor fields
/// that are not static strings are errors; other properties are ignored.
pub open spec fn read_prop(f: FieldsView, p: Prop) -> Result<FieldsView, DescriptorError> {
    match p.kind {
        PropKind::Spread(sp) => Err(DescriptorError::SpreadInDescriptor(sp)),
        PropKind::KeyValue { key, value } => match static_key_of(key) {
            Err(e) => Err(e),
            Ok(k) => match descriptor_key_of(k) {
                None => Ok(f),
                Some(dk) => match static_value_of(value, dk) {
                    Err(e) => Err(e),
                    Ok(v) => Ok(with_field(f, dk, v)),
                },
            },
        },
        PropKind::Shorthand { name, span } => match descriptor_key_of(name@) {
            Some(dk) => Err(DescriptorError::ShorthandInDescriptor { span, key: dk }),
            None => Ok(f),
        },
        PropKind::Method { key, span } => match prop_name_text(key) {
            Some(n) => if descriptor_key_of(n) is Some {
                Err(DescriptorError::MethodInDescriptor(span))
            } else {
                Ok(f)
            },
            None => Err(DescriptorError::MethodInDescriptor(span)),
        },
        PropKind::Getter(sp) => Err(DescriptorError::GetterInDescriptor(sp)),
        PropKind::Setter(sp) => Err(DescriptorError::SetterInDescriptor(sp)),
        PropKind::Assign(sp) => Err(DescriptorError::AssignInDescriptor(sp)),
    }
}

/// Reads the properties of a descriptor object in order; the first error
/// stops the reading.
pub open spec fn read_props(props: Seq<Prop>) -> Result<FieldsView, DescriptorError>
    decreases props.len(),
{
    if props.len() == 0 {
        Ok(no_fields())
    } else {
        match read_props(props.drop_last()) {
            Err(e) => Err(e),
            Ok(f) => read_prop(f, props.last()),
        }
    }
}

/// The message that goes into the output: normalized unless whitespace is
/// to be preserved.
pub open spec fn message_of(f: FieldsView, preserve_whitespace: bool) -> Option<Seq<char>> {
    match f.default_message {
        Some(m) => Some(if preserve_whitespace { m } else { normalized(m) }),
        None => None,
    }
}

/// The span of nodes written by the transform.
pub open spec fn dummy_span() -> Span {
    Span { lo: 0, hi: 0 }
}

/// A string literal written by the transform, with value `text`.
pub open spec fn is_text_expr(e: Expr, text: Seq<char>) -> bool {
    &&& e.span == dummy_span()
    &&& e.kind matches ExprKind::Generated(s)
    &&& s@ == text
}

/// The values that are the generated string literal `text`.
pub open spec fn text_value(text: Seq<char>) -> spec_fn(Expr) -> bool {
    |e: Expr| is_text_expr(e, text)
}

/// The value `v` itself.
pub open spec fn same_value(v: Expr) -> spec_fn(Expr) -> bool {
    |e: Expr| e == v
}

/// A key-value property whose key is the name `key`.
pub open spec fn is_named(p: Prop, key: Seq<char>) -> bool {
    &&& p.kind matches PropKind::KeyValue { key: k, .. }
    &&& prop_name_text(k) == Some(key)
}

/// The index of the first property of `props[i..]` named `key`.
pub open spec fn first_named_from(props: Seq<Prop>, key: Seq<char>, i: int) -> Option<int>
    decreases props.len() - i,
{
    if i < 0 || i >= props.len() {
        None
    } else if is_named(props[i], key) {
        Some(i)
    } else {
        first_named_from(props, key, i + 1)
    }
}

/// `q` is `p` with its value replaced by one that satisfies `ok`.
pub open spec fn value_replaced(p: Prop, q: Prop, ok: spec_fn(Expr) -> bool) -> bool {
    &&& q.origin == p.origin
    &&& p.kind matches PropKind::KeyValue { key: k1, .. }
    &&& q.kind matches PropKind::KeyValue { key: k2, value: v2 }
    &&& k2 == k1
    &&& ok(v2)
}

/// `new` is `old` with the value of its first property named `key`
/// replaced by one that satisfies `ok`; `old` unchanged if none is named so.
pub open spec fn replaced_first(old: Seq<Prop>, new: Seq<Prop>, key: Seq<char>, ok: spec_fn(Expr) -> bool) -> bool {
    match first_named_from(old, key, 0) {
        None => new == old,
        Some(i) => {
            &&& new.len() == old.len()
            &&& forall|j: int| 0 <= j < old.len() && j != i ==> new[j] == old[j]
            &&& value_replaced(old[i], new[i], ok)
        },
    }
}

/// `props` without its properties named `key`.
pub open spec fn without_named(props: Seq<Prop>, key: Seq<char>) -> Seq<Prop> {
    props.filter(|p: Prop| !is_named(p, key))
}

/// The property `id: "<text>"` added by the transform.
pub open spec fn is_new_id_prop(p: Prop, text: Seq<char>) -> bool {
    &&& p.origin is None
    &&& p.kind matches PropKind::KeyValue { key: PropName::Ident(k), value: v }
    &&& k@ == word_id()
    &&& is_text_expr(v, text)
}

/// The id step: the first `id` property gets the new id as its value, or,
/// when there is none, `id: "<id>"` is put first.
pub open spec fn id_written(old: Seq<Prop>, with_id: Seq<Prop>, has_id: bool, id: Seq<char>) -> bool {
    if has_id {
        replaced_first(old, with_id, word_id(), text_value(id))
    } else {
        &&& with_id.len() == old.len() + 1
        &&& is_new_id_prop(with_id[0], id)
        &&& with_id.skip(1) == old
    }
}

/// The message step, after the description is gone: every
/// `defaultMessage` property goes when the message is to be removed, and
/// otherwise the first one gets the output message.
pub open spec fn message_written(stripped: Seq<Prop>, new: Seq<Prop>, msg: Option<Seq<char>>, remove: bool) -> bool {
    if remove {
        new == without_named(stripped, word_default_message())
    } else {
        match msg {
            Some(m) => replaced_first(stripped, new, word_default_message(), text_value(m)),
            None => new == stripped,
        }
    }
}

/// `new` is `old` rewritten for fields `f`, id `id` and output message
/// `msg`: the id step, then every `description` property removed, then
/// the message step.
pub open spec fn descriptor_rewritten(
    old: Seq<Prop>,
    new: Seq<Prop>,
    f: FieldsView,
    id: Seq<char>,
    msg: Option<Seq<char>>,
    remove: bool,
) -> bool {
    exists|with_id: Seq<Prop>|
        #[trigger] id_written(old, with_id, f.has_id, id) && message_written(
            without_named(with_id, word_description()),
            new,
            msg,
            remove,
        )
}

impl FormatJsTransform {
    /// Why the descriptor object with properties `props` cannot be
    /// rewritten, if it cannot: a property that cannot be read, or an id
    /// and a message that are both missing or empty, or an id pattern that
    /// fails on the message.
    pub open spec fn object_fault(&self, props: Seq<Prop>) -> Option<TransformFault> {
        match read_props(props) {
            Err(e) => Some(TransformFault::Descriptor(e)),
            Ok(f) => if !f.has_id && !f.has_default_message {
                None
            } else if f.id is None && (f.default_message is None || f.default_message.unwrap().len() == 0) {
                Some(TransformFault::Descriptor(DescriptorError::MissingIdAndMessage))
            } else {
                match computed_id(
                    f.id,
                    message_of(f, self.options().preserve_whitespace),
                    f.description,
                    self.pattern(),
                ) {
                    Err(e) => Some(TransformFault::Pattern(e)),
                    Ok(_) => None,
                }
            },
        }
    }

    /// `new` is what the descriptor object with properties `old` becomes:
    /// unchanged when it has neither an `id` nor a `defaultMessage` field,
    /// and otherwise rewritten with its computed id and output message.
    pub open spec fn object_rewritten(&self, old: Seq<Prop>, new: Seq<Prop>) -> bool {
        match read_props(old) {
            Err(_) => false,
            Ok(f) => if !f.has_id && !f.has_default_message {
                new == old
            } else {
                let msg = message_of(f, self.options().preserve_whitespace);
                match computed_id(f.id, msg, f.description, self.pattern()) {
                    Ok(id) => descriptor_rewritten(old, new, f, id, msg, self.options().remove_default_message),
                    Err(_) => false,
                }
            },
        }
    }
}

/// The descriptor fields read so far (see [`FieldsView`]).
pub struct Fields {
    pub id: Option<String>,
    pub default_message: Option<String>,
    pub description: Option<String>,
    pub has_id: bool,
    pub has_default_message: bool,
}

/// The characters of an optional string.
pub open spec fn opt_string(o: Option<String>) -> Option<Seq<char>> {
    match o {
        Some(s) => Some(s@),
        None => None,
    }
}

impl View for Fields {
    type V = FieldsView;

    open spec fn view(&self) -> FieldsView {
        FieldsView {
            id: opt_string(self.id),
            default_message: opt_string(self.default_message),
            description: opt_string(self.description),
            has_id: self.has_id,
            has_default_message: self.has_default_message,
        }
    }
}

pub(crate) fn empty_fields() -> (r: Fields)
    ensures
        r@ == no_fields(),
{
    Fields { id: None, default_message: None, description: None, has_id: false, has_default_message: false }
}

/// Records the value `v` of descriptor field `key` (see [`with_field`]).
pub(crate) fn set_field(f: &mut Fields, key: DescriptorKey, v: String)
    ensures
        final(f)@ == with_field(old(f)@, key, v@),
{
    match key {
        DescriptorKey::Id => {
            f.has_id = true;
            if !v.as_str().is_empty() {
                f.id = Some(v);
            }
        },
        DescriptorKey::DefaultMessage => {
            f.has_default_message = true;
            f.default_message = Some(v);
        },
        DescriptorKey::Description => {
            f.description = Some(v);
        },
    }
}

/// Executable [`read_prop`].
fn read_prop_exec(f: &mut Fields, p: &Prop) -> (r: Result<(), DescriptorError>)
    ensures
        match r {
            Ok(()) => read_prop(old(f)@, *p) == Ok::<FieldsView, DescriptorError>(final(f)@),
            Err(e) => read_prop(old(f)@, *p) == Err::<FieldsView, DescriptorError>(e),
        },
{
    match &p.kind {
        PropKind::Spread(sp) => Err(DescriptorError::SpreadInDescriptor(*sp)),
        PropKind::KeyValue { key, value } => {
            let k = match require_static_key(key) {
                Ok(k) => k,
                Err(e) => {
                    return Err(e);
                },
            };
            match descriptor_key(k.as_str()) {
                None => Ok(()),
                Some(dk) => match require_static_string(value, dk) {
                    Err(e) => Err(e),
                    Ok(v) => {
                        set_field(f, dk, v);
                        Ok(())
                    },
                },
            }
        },
        PropKind::Shorthand { name, span } => match descriptor_key(name.as_str()) {
            Some(dk) => Err(DescriptorError::ShorthandInDescriptor { span: *span, key: dk }),
            None => Ok(()),
        },
        PropKind::Method { key, span } => match prop_name_as_str(key) {
            Some(n) => {
                if descriptor_key(n.as_str()).is_some() {
                    Err(DescriptorError::MethodInDescriptor(*span))
                } else {
                    Ok(())
                }
            },
            None => Err(DescriptorError::MethodInDescriptor(*span)),
        },
        PropKind::Getter(sp) => Err(DescriptorError::GetterInDescriptor(*sp)),
        PropKind::Setter(sp) => Err(DescriptorError::SetterInDescriptor(*sp)),
        PropKind::Assign(sp) => Err(DescriptorError::AssignInDescriptor(*sp)),
    }
}

proof fn lemma_read_props_error_stays(props: Seq<Prop>, n: int)
    requires
        0 <= n <= props.len(),
        read_props(props.take(n)) is Err,
    ensures
        read_props(props) == read_props(props.take(n)),
    decreases props.len() - n,
{
    if n < props.len() {
        assert(props.take(n + 1).drop_last() =~= props.take(n));
        lemma_read_props_error_stays(props, n + 1);
    } else {
        assert(props.take(n) =~= props);
    }
}

/// Executable [`read_props`].
fn read_props_exec(props: &Vec<Prop>) -> (r: Result<Fields, DescriptorError>)
    ensures
        match r {
            Ok(f) => read_props(props@) == Ok::<FieldsView, DescriptorError>(f@),
            Err(e) => read_props(props@) == Err::<FieldsView, DescriptorError>(e),
        },
{
    let mut f = empty_fields();
    let mut i: usize = 0;
    while i < props.len()
        invariant
            i <= props.len(),
            read_props(props@.take(i as int)) == Ok::<FieldsView, DescriptorError>(f@),
        decreases props.len() - i,
    {
        assert(props@.take(i + 1).drop_last() =~= props@.take(i as int));
        match read_prop_exec(&mut f, &props[i]) {
            Ok(()) => {},
            Err(e) => {
                proof {
                    lemma_read_props_error_stays(props@, i + 1);
                }
                return Err(e);
            },
        }
        i = i + 1;
    }
    assert(props@.take(i as int) =~= props@);
    Ok(f)
}

/// A string literal written by the transform.
pub fn string_expr(s: &str) -> (r: Expr)
    ensures
        is_text_expr(r, s@),
{
    let c = chars_of(s);
    Expr { span: Span { lo: 0, hi: 0 }, kind: ExprKind::Generated(string_from_chars(&c)) }
}

/// Whether `p` is a key-value property named `key`.
fn named(p: &Prop, key: &str) -> (r: bool)
    ensures
        r == is_named(*p, key@),
{
    match &p.kind {
        PropKind::KeyValue { key: k, .. } => match prop_name_as_str(k) {
            Some(n) => str_eq(n.as_str(), key),
            None => false,
        },
        _ => false,
    }
}

proof fn lemma_first_named_skips(props: Seq<Prop>, key: Seq<char>, i: int, j: int)
    requires
        0 <= i <= j,
        forall|k: int| i <= k < j && 0 <= k < props.len() ==> !is_named(#[trigger] props[k], key),
    ensures
        first_named_from(props, key, i) == first_named_from(props, key, j),
    decreases j - i,
{
    if i < j {
        lemma_first_named_skips(props, key, i + 1, j);
    }
}

/// Gives the first key-value property named `key` the value `new_value`.
pub fn replace_object_value(obj: &mut ObjectLit, key: &str, new_value: Expr)
    ensures
        replaced_first(old(obj).props@, final(obj).props@, key@, same_value(new_value)),
{
    let mut i: usize = 0;
    while i < obj.props.len()
        invariant
            i <= obj.props@.len(),
            obj.props@ == old(obj).props@,
            forall|k: int| 0 <= k < i ==> !is_named(#[trigger] obj.props@[k], key@),
        decreases obj.props@.len() - i,
    {
        if named(&obj.props[i], key) {
            proof {
                lemma_first_named_skips(obj.props@, key@, 0, i as int);
            }
            let ghost before = obj.props@;
            let p = obj.props.remove(i);
            let Prop { origin, kind } = p;
            match kind {
                PropKind::KeyValue { key: k, value: _ } => {
                    obj.props.insert(i, Prop { origin, kind: PropKind::KeyValue { key: k, value: new_value } });
                    assert(obj.props@.len() == before.len());
                    assert forall|j: int| 0 <= j < before.len() && j != i implies obj.props@[j] == before[j] by {
                        if j < i {
                        } else {
                        }
                    }
                },
                _ => {
                    assert(false);
                },
            }
            return;
        }
        i = i + 1;
    }
    proof {
        lemma_first_named_skips(obj.props@, key@, 0, obj.props@.len() as int);
    }
}

/// Removes every key-value property named `key`.
pub fn remove_named(props: &mut Vec<Prop>, key: &str)
    ensures
        final(props)@ == without_named(old(props)@, key@),
{
    let ghost start = props@;
    let mut kept: Vec<Prop> = Vec::new();
    let mut k: usize = 0;
    let n = props.len();
    while props.len() > 0
        invariant
            k + props@.len() == n == start.len(),
            props@ == start.skip(k as int),
            kept@ == without_named(start.take(k as int), key@),
        decreases props@.len(),
    {
        let p = props.remove(0);
        proof {
            reveal(Seq::filter);
            assert(start.take(k + 1).drop_last() =~= start.take(k as int));
            assert(start.take(k + 1).last() == p);
            assert(props@ =~= start.skip(k + 1));
        }
        let ghost kept_before = kept@;
        if !named(&p, key) {
            kept.push(p);
        }
        k = k + 1;
        proof {
            reveal(Seq::filter);
            assert(without_named(start.take(k as int), key@) == kept@);
        }
    }
    assert(start.take(k as int) =~= start);
    *props = kept;
}

proof fn lemma_replaced_first_text(old: Seq<Prop>, new: Seq<Prop>, key: Seq<char>, v: Expr, text: Seq<char>)
    requires
        replaced_first(old, new, key, same_value(v)),
        is_text_expr(v, text),
    ensures
        replaced_first(old, new, key, text_value(text)),
{
    match first_named_from(old, key, 0) {
        None => {},
        Some(i) => {
            assert(value_replaced(old[i], new[i], same_value(v)));
        },
    }
}

/// The string slice of an optional string.
pub(crate) fn opt_as_str(o: &Option<String>) -> (r: Option<&str>)
    ensures
        crate::descriptor::opt_str(r) == opt_string(*o),
{
    match o {
        Some(s) => Some(s.as_str()),
        None => None,
    }
}

/// What a descriptor object becomes, worked out before it is touched:
/// whether it had an `id` field, its id, and its output message.
pub struct DescriptorPlan {
    pub has_id: bool,
    pub id: String,
    pub message: Option<String>,
}

impl FormatJsTransform {
    /// `plan` is what the descriptor object with properties `props` becomes:
    /// the object has an `id` or a `defaultMessage` field, and the plan
    /// holds its computed id and output message.
    pub open spec fn plans(&self, props: Seq<Prop>, plan: DescriptorPlan) -> bool {
        &&& read_props(props) matches Ok(f)
        &&& (f.has_id || f.has_default_message)
        &&& plan.has_id == f.has_id
        &&& opt_string(plan.message) == message_of(f, self.options().preserve_whitespace)
        &&& computed_id(f.id, message_of(f, self.options().preserve_whitespace), f.description, self.pattern())
            == Ok::<Seq<char>, crate::hash::PatternFault>(plan.id@)
    }

    /// `plan` is what the descriptor object with properties `props` needs:
    /// nothing when it has neither an `id` nor a `defaultMessage` field.
    pub open spec fn plans_opt(&self, props: Seq<Prop>, plan: Option<DescriptorPlan>) -> bool {
        match plan {
            None => read_props(props) matches Ok(f) && !f.has_id && !f.has_default_message,
            Some(p) => self.plans(props, p),
        }
    }

    /// Works out what a descriptor object with properties `props` becomes,
    /// without touching it (see [`FormatJsTransform::object_fault`]).
    pub fn plan_message_object(&self, props: &Vec<Prop>) -> (r: Result<Option<DescriptorPlan>, TransformError>)
        ensures
            match r {
                Ok(plan) => self.object_fault(props@) is None && self.plans_opt(props@, plan),
                Err(e) => self.object_fault(props@) == Some(e@),
            },
    {
        let f = match read_props_exec(props) {
            Ok(f) => f,
            Err(e) => {
                return Err(TransformError::Descriptor(e));
            },
        };
        if !f.has_id && !f.has_default_message {
            return Ok(None);
        }
        let message_missing = match &f.default_message {
            None => true,
            Some(m) => m.as_str().is_empty(),
        };
        if f.id.is_none() && message_missing {
            return Err(TransformError::Descriptor(DescriptorError::MissingIdAndMessage));
        }
        let normalized_msg: Option<String> = match &f.default_message {
            Some(m) => Some(
                if self.preserve_whitespace() {
                    m.clone()
                } else {
                    normalize_whitespace(m.as_str())
                },
            ),
            None => None,
        };
        assert(opt_string(normalized_msg) == message_of(f@, self.options().preserve_whitespace));
        let final_id = match compute_id(
            opt_as_str(&f.id),
            opt_as_str(&normalized_msg),
            opt_as_str(&f.description),
            self.id_pattern(),
        ) {
            Ok(id) => id,
            Err(e) => {
                return Err(TransformError::Pattern(e));
            },
        };
        Ok(Some(DescriptorPlan { has_id: f.has_id, id: final_id, message: normalized_msg }))
    }

    /// Rewrites a descriptor object as `plan` says (see
    /// [`FormatJsTransform::object_rewritten`]).
    pub fn apply_message_plan(&self, obj: &mut ObjectLit, plan: &Option<DescriptorPlan>)
        requires
            self.plans_opt(old(obj).props@, *plan),
        ensures
            self.object_rewritten(old(obj).props@, final(obj).props@),
    {
        let plan = match plan {
            None => {
                return;
            },
            Some(p) => p,
        };
        proof {
            reveal_strlit("id");
            reveal_strlit("description");
            reveal_strlit("defaultMessage");
            assert("id"@ =~= word_id());
            assert("description"@ =~= word_description());
            assert("defaultMessage"@ =~= word_default_message());
        }
        let ghost old_props = obj.props@;
        if plan.has_id {
            let v = string_expr(plan.id.as_str());
            replace_object_value(obj, "id", v);
            proof {
                lemma_replaced_first_text(old_props, obj.props@, word_id(), v, plan.id@);
            }
        } else {
            let idc: [char; 2] = ['i', 'd'];
            let key = PropName::Ident(string_from_chars(&idc));
            let p = Prop { origin: None, kind: PropKind::KeyValue { key, value: string_expr(plan.id.as_str()) } };
            obj.props.insert(0, p);
            assert(obj.props@.skip(1) =~= old_props);
        }
        let ghost with_id = obj.props@;
        assert(id_written(old_props, with_id, plan.has_id, plan.id@));
        remove_named(&mut obj.props, "description");
        let ghost stripped = obj.props@;
        if self.remove_default_message() {
            remove_named(&mut obj.props, "defaultMessage");
        } else {
            match &plan.message {
                Some(msg) => {
                    let v = string_expr(msg.as_str());
                    replace_object_value(obj, "defaultMessage", v);
                    proof {
                        lemma_replaced_first_text(stripped, obj.props@, word_default_message(), v, msg@);
                    }
                },
                None => {},
            }
        }
        assert(message_written(stripped, obj.props@, opt_string(plan.message), self.options().remove_default_message));
    }

    /// Rewrites a message descriptor object (see
    /// [`FormatJsTransform::object_rewritten`]): an object with neither an
    /// `id` nor a `defaultMessage` field is left alone; otherwise it gets
    /// its id (inserted first when it had no `id` field), loses every
    /// `description`, and keeps its message normalized, or loses every
    /// `defaultMessage` when the options say so.  On an error the object is
    /// left as it was.
    pub fn process_message_object(&self, obj: &mut ObjectLit) -> (r: Result<(), TransformError>)
        ensures
            match r {
                Ok(()) => self.object_fault(old(obj).props@) is None && self.object_rewritten(
                    old(obj).props@,
                    final(obj).props@,
                ),
                Err(e) => self.object_fault(old(obj).props@) == Some(e@) && *final(obj) == *old(obj),
            },
    {
        match self.plan_message_object(&obj.props) {
            Ok(plan) => {
                self.apply_message_plan(obj, &plan);
                Ok(())
            },
            Err(e) => Err(e),
        }
    }
}

proof fn lemma_without_named(s: Seq<Prop>, k: Seq<char>)
    ensures
        forall|i: int| 0 <= i < without_named(s, k).len() ==> !is_named(#[trigger] without_named(s, k)[i], k),
        forall|i: int| 0 <= i < without_named(s, k).len() ==> s.contains(#[trigger] without_named(s, k)[i]),
{
    broadcast use vstd::seq_lib::group_filter_ensures;
    let w = without_named(s, k);
    assert forall|i: int| 0 <= i < w.len() implies !is_named(#[trigger] w[i], k) by {
        s.lemma_filter_pred(|p: Prop| !is_named(p, k), i);
    }
    assert forall|i: int| 0 <= i < w.len() implies s.contains(#[trigger] w[i]) by {
        assert(w.contains(w[i]));
        s.lemma_filter_contains_rev(|p: Prop| !is_named(p, k), w[i]);
    }
}

impl FormatJsTransform {
    /// A rewritten descriptor object holds no `description` property, and
    /// no `defaultMessage` property when the options remove the message.
    pub proof fn lemma_rewritten_object_strips(&self, old: Seq<Prop>, new: Seq<Prop>)
        requires
            self.object_rewritten(old, new),
            read_props(old) matches Ok(f) && (f.has_id || f.has_default_message),
        ensures
            forall|i: int| 0 <= i < new.len() ==> !is_named(#[trigger] new[i], word_description()),
            self.options().remove_default_message ==> forall|i: int|
                0 <= i < new.len() ==> !is_named(#[trigger] new[i], word_default_message()),
    {
        let f = match read_props(old) {
            Ok(f) => f,
            Err(_) => no_fields(),
        };
        let msg = message_of(f, self.options().preserve_whitespace);
        let id = match computed_id(f.id, msg, f.description, self.pattern()) {
            Ok(id) => id,
            Err(_) => Seq::empty(),
        };
        let remove = self.options().remove_default_message;
        let with_id = choose|w: Seq<Prop>|
            #[trigger] id_written(old, w, f.has_id, id) && message_written(
                without_named(w, word_description()),
                new,
                msg,
                remove,
            );
        let stripped = without_named(with_id, word_description());
        lemma_without_named(with_id, word_description());
        if remove {
            lemma_without_named(stripped, word_default_message());
            assert forall|i: int| 0 <= i < new.len() implies !is_named(#[trigger] new[i], word_description()) by {
                assert(stripped.contains(new[i]));
                let j = choose|j: int| 0 <= j < stripped.len() && stripped[j] == new[i];
                assert(!is_named(stripped[j], word_description()));
            }
        } else {
            match msg {
                Some(m) => {
                    match first_named_from(stripped, word_default_message(), 0) {
                        None => {},
                        Some(k) => {
                            assert forall|i: int| 0 <= i < new.len() implies !is_named(
                                #[trigger] new[i],
                                word_description(),
                            ) by {
                                if i != k {
                                    assert(new[i] == stripped[i]);
                                } else {
                                    assert(value_replaced(stripped[k], new[k], text_value(m)));
                                    assert(!is_named(stripped[k], word_description()));
                                }
                            }
                        },
                    }
                },
                None => {},
            }
        }
    }
}

/// A property named `key` whose value is the generated string `text`.
pub open spec fn has_text_prop(props: Seq<Prop>, key: Seq<char>, text: Seq<char>) -> bool {
    exists|j: int|
        0 <= j < props.len() && #[trigger] is_named(props[j], key) && (props[j].kind matches PropKind::KeyValue { value, .. }
            && is_text_expr(value, text))
}

proof fn lemma_filter_keeps(s: Seq<Prop>, drop: Seq<char>, i: int)
    requires
        0 <= i < s.len(),
        !is_named(s[i], drop),
    ensures
        without_named(s, drop).contains(s[i]),
{
    broadcast use vstd::seq_lib::group_filter_ensures;
    s.lemma_filter_contains(|p: Prop| !is_named(p, drop), i);
}

impl FormatJsTransform {
    /// A rewritten descriptor object holds an `id` property whose value is
    /// the id computed from its fields.
    pub proof fn lemma_rewritten_object_has_id(&self, old: Seq<Prop>, new: Seq<Prop>)
        requires
            self.object_rewritten(old, new),
            read_props(old) matches Ok(f) && (f.has_id || f.has_default_message),
        ensures
            ({
                let f = read_props(old)->Ok_0;
                let msg = message_of(f, self.options().preserve_whitespace);
                computed_id(f.id, msg, f.description, self.pattern()) matches Ok(id) && has_text_prop(
                    new,
                    word_id(),
                    id,
                )
            }),
    {
        let f = read_props(old)->Ok_0;
        let msg = message_of(f, self.options().preserve_whitespace);
        let id = computed_id(f.id, msg, f.description, self.pattern())->Ok_0;
        let remove = self.options().remove_default_message;
        let with_id = choose|w: Seq<Prop>|
            #[trigger] id_written(old, w, f.has_id, id) && message_written(
                without_named(w, word_description()),
                new,
                msg,
                remove,
            );
        let i0: int = if f.has_id {
            first_named_from(old, word_id(), 0)->Some_0
        } else {
            0
        };
        if f.has_id {
            lemma_read_named(old, word_id());
            lemma_first_named_is_named(old, word_id(), 0);
            assert(value_replaced(old[i0], with_id[i0], text_value(id)));
        }
        let w = with_id[i0];
        assert(is_named(w, word_id()));
        assert(w.kind matches PropKind::KeyValue { value, .. } && is_text_expr(value, id));
        assert(word_id() != word_description());
        assert(word_id() != word_default_message());
        lemma_filter_keeps(with_id, word_description(), i0);
        let stripped = without_named(with_id, word_description());
        let j = choose|j: int| 0 <= j < stripped.len() && stripped[j] == w;
        if remove {
            lemma_filter_keeps(stripped, word_default_message(), j);
            let k = choose|k: int| 0 <= k < new.len() && new[k] == w;
            assert(is_named(new[k], word_id()));
        } else {
            match msg {
                Some(m) => {
                    match first_named_from(stripped, word_default_message(), 0) {
                        None => {
                            assert(is_named(new[j], word_id()));
                        },
                        Some(k) => {
                            lemma_first_named_is_named(stripped, word_default_message(), 0);
                            assert(j != k);
                            assert(new[j] == stripped[j]);
                            assert(is_named(new[j], word_id()));
                        },
                    }
                },
                None => {
                    assert(is_named(new[j], word_id()));
                },
            }
        }
    }
}

impl FormatJsTransform {
    /// A rewritten descriptor object that had a `defaultMessage` field
    /// holds, unless the options remove the message, a `defaultMessage`
    /// property whose value is the output message.
    pub proof fn lemma_rewritten_object_has_message(&self, old: Seq<Prop>, new: Seq<Prop>)
        requires
            self.object_rewritten(old, new),
            read_props(old) matches Ok(f) && f.has_default_message,
            !self.options().remove_default_message,
        ensures
            ({
                let f = read_props(old)->Ok_0;
                message_of(f, self.options().preserve_whitespace) matches Some(m) && has_text_prop(
                    new,
                    word_default_message(),
                    m,
                )
            }),
    {
        let f = read_props(old)->Ok_0;
        lemma_read_props_message_seen(old);
        let msg = message_of(f, self.options().preserve_whitespace);
        let m = msg->Some_0;
        let id = computed_id(f.id, msg, f.description, self.pattern())->Ok_0;
        let with_id = choose|w: Seq<Prop>|
            #[trigger] id_written(old, w, f.has_id, id) && message_written(
                without_named(w, word_description()),
                new,
                msg,
                false,
            );
        lemma_read_named(old, word_default_message());
        let i0 = first_named_from(old, word_default_message(), 0)->Some_0;
        lemma_first_named_is_named(old, word_default_message(), 0);
        assert(word_id() != word_default_message());
        assert(word_description() != word_default_message());
        let a: int = if f.has_id {
            lemma_read_named(old, word_id());
            lemma_first_named_is_named(old, word_id(), 0);
            assert(with_id[i0] == old[i0]);
            i0
        } else {
            assert(with_id[i0 + 1] == with_id.skip(1)[i0]);
            i0 + 1
        };
        assert(is_named(with_id[a], word_default_message()));
        lemma_filter_keeps(with_id, word_description(), a);
        let stripped = without_named(with_id, word_description());
        let j = choose|j: int| 0 <= j < stripped.len() && stripped[j] == with_id[a];
        lemma_first_named_exists(stripped, word_default_message(), 0, j);
        let k = first_named_from(stripped, word_default_message(), 0)->Some_0;
        lemma_first_named_is_named(stripped, word_default_message(), 0);
        assert(value_replaced(stripped[k], new[k], text_value(m)));
        assert(is_named(new[k], word_default_message()));
    }
}

/// Some property of `props[i..]` is named `key` when `props[j]` is.
proof fn lemma_first_named_exists(props: Seq<Prop>, key: Seq<char>, i: int, j: int)
    requires
        0 <= i <= j < props.len(),
        is_named(props[j], key),
    ensures
        first_named_from(props, key, i) is Some,
    decreases j - i,
{
    if i < j && !is_named(props[i], key) {
        lemma_first_named_exists(props, key, i + 1, j);
    }
}

/// A field that was read comes from a property named like it.
proof fn lemma_read_named(props: Seq<Prop>, key: Seq<char>)
    requires
        read_props(props) matches Ok(f) && (if key == word_id() {
            f.has_id
        } else {
            key == word_default_message() && f.has_default_message
        }),
    ensures
        first_named_from(props, key, 0) is Some,
    decreases props.len(),
{
    let prev = read_props(props.drop_last())->Ok_0;
    if read_props(props.drop_last()) is Ok && (if key == word_id() {
        prev.has_id
    } else {
        prev.has_default_message
    }) {
        lemma_read_named(props.drop_last(), key);
        lemma_first_named_prefix(props, key);
    } else {
        assert(is_named(props.last(), key));
        lemma_first_named_last(props, key);
    }
}

proof fn lemma_first_named_is_named(props: Seq<Prop>, key: Seq<char>, i: int)
    requires
        0 <= i,
    ensures
        first_named_from(props, key, i) matches Some(k) ==> i <= k < props.len() && is_named(props[k], key),
    decreases props.len() - i,
{
    if i < props.len() && !is_named(props[i], key) {
        lemma_first_named_is_named(props, key, i + 1);
    }
}

proof fn lemma_first_named_prefix(props: Seq<Prop>, key: Seq<char>)
    requires
        props.len() > 0,
        first_named_from(props.drop_last(), key, 0) is Some,
    ensures
        first_named_from(props, key, 0) is Some,
{
    lemma_first_named_prefix_from(props, key, 0);
}

proof fn lemma_first_named_prefix_from(props: Seq<Prop>, key: Seq<char>, i: int)
    requires
        props.len() > 0,
        0 <= i,
        first_named_from(props.drop_last(), key, i) is Some,
    ensures
        first_named_from(props, key, i) is Some,
    decreases props.len() - i,
{
    if i < props.len() - 1 && !is_named(props.drop_last()[i], key) {
        assert(props.drop_last()[i] == props[i]);
        lemma_first_named_prefix_from(props, key, i + 1);
    } else if i < props.len() - 1 {
        assert(props.drop_last()[i] == props[i]);
    }
}

proof fn lemma_first_named_last(props: Seq<Prop>, key: Seq<char>)
    requires
        props.len() > 0,
        is_named(props.last(), key),
    ensures
        first_named_from(props, key, 0) is Some,
{
    lemma_first_named_last_from(props, key, 0);
}

proof fn lemma_first_named_last_from(props: Seq<Prop>, key: Seq<char>, i: int)
    requires
        props.len() > 0,
        0 <= i <= props.len() - 1,
        is_named(props.last(), key),
    ensures
        first_named_from(props, key, i) is Some,
    decreases props.len() - i,
{
    if i < props.len() - 1 && !is_named(props[i], key) {
        lemma_first_named_last_from(props, key, i + 1);
    }
}

/// The text of a `defaultMessage` property whose value is a static string.
pub open spec fn message_text(p: Prop) -> Option<Seq<char>> {
    match p.kind {
        PropKind::KeyValue { key, value } => if prop_name_text(key) == Some(word_default_message()) {
            static_string_of(value)
        } else {
            None
        },
        _ => None,
    }
}

/// `p1` and `p2` are the same `defaultMessage` property but for its static
/// string value.
pub open spec fn message_swapped(p1: Prop, p2: Prop) -> bool {
    &&& p1.origin == p2.origin
    &&& p1.kind matches PropKind::KeyValue { key: a, .. }
    &&& p2.kind matches PropKind::KeyValue { key: b, .. }
    &&& a == b
    &&& message_text(p1) is Some
    &&& message_text(p2) is Some
}

/// Fields read from a descriptor object hold a message exactly when a
/// `defaultMessage` field was seen.
pub(crate) proof fn lemma_read_props_message_seen(props: Seq<Prop>)
    ensures
        read_props(props) matches Ok(f) ==> f.has_default_message == (f.default_message is Some),
    decreases props.len(),
{
    if props.len() > 0 {
        lemma_read_props_message_seen(props.drop_last());
    }
}

/// `g1` and `g2` agree on every field but the message.
pub open spec fn same_but_message(g1: FieldsView, g2: FieldsView) -> bool {
    &&& g1.id == g2.id
    &&& g1.description == g2.description
    &&& g1.has_id == g2.has_id
    &&& g1.has_default_message == g2.has_default_message
}

/// Reading a property that is not named `defaultMessage` treats fields
/// that differ only in their message alike.
proof fn lemma_read_prop_keeps_message(g1: FieldsView, g2: FieldsView, p: Prop)
    requires
        same_but_message(g1, g2),
        !is_named(p, word_default_message()),
    ensures
        read_prop(g1, p) is Err ==> read_prop(g2, p) == read_prop(g1, p),
        read_prop(g1, p) matches Ok(h1) ==> read_prop(g2, p) matches Ok(h2) && same_but_message(h1, h2)
            && h1.default_message == g1.default_message && h2.default_message == g2.default_message,
{
}

/// Two property lists that differ only at `k`, where each holds the one
/// `defaultMessage` property, with the same key and the static strings
/// `m1` and `m2`, read alike up to `n` but for the message.
proof fn lemma_read_props_message_swap(
    old1: Seq<Prop>,
    old2: Seq<Prop>,
    k: int,
    m1: Seq<char>,
    m2: Seq<char>,
    n: int,
)
    requires
        old1.len() == old2.len(),
        0 <= k < old1.len(),
        0 <= n <= old1.len(),
        forall|j: int| 0 <= j < old1.len() && j != k ==> old1[j] == old2[j],
        forall|j: int| 0 <= j < old1.len() && j != k ==> !is_named(#[trigger] old1[j], word_default_message()),
        message_swapped(old1[k], old2[k]),
        message_text(old1[k]) == Some(m1),
        message_text(old2[k]) == Some(m2),
    ensures
        n <= k ==> read_props(old1.take(n)) == read_props(old2.take(n)),
        n > k ==> {
            &&& read_props(old1.take(n)) is Err ==> read_props(old2.take(n)) == read_props(old1.take(n))
            &&& read_props(old1.take(n)) matches Ok(g1) ==> read_props(old2.take(n)) matches Ok(g2)
                && same_but_message(g1, g2) && g1.default_message == Some(m1) && g2.default_message == Some(m2)
        },
    decreases n,
{
    if n > 0 {
        lemma_read_props_message_swap(old1, old2, k, m1, m2, n - 1);
        assert(old1.take(n).drop_last() =~= old1.take(n - 1));
        assert(old2.take(n).drop_last() =~= old2.take(n - 1));
        assert(old1.take(n).last() == old1[n - 1]);
        assert(old2.take(n).last() == old2[n - 1]);
        if n - 1 > k {
            match read_props(old1.take(n - 1)) {
                Ok(g1) => {
                    let g2 = read_props(old2.take(n - 1))->Ok_0;
                    lemma_read_prop_keeps_message(g1, g2, old1[n - 1]);
                },
                Err(_) => {},
            }
        } else if n - 1 == k {
            assert(descriptor_key_of(word_default_message()) == Some(DescriptorKey::DefaultMessage));
        }
    } else {
        assert(old1.take(0) =~= Seq::<Prop>::empty());
        assert(old2.take(0) =~= Seq::<Prop>::empty());
    }
}

impl FormatJsTransform {
    /// The id and output message that the descriptor object with properties
    /// `props` is rewritten with, when it is rewritten.
    pub open spec fn rewrite_outcome(&self, props: Seq<Prop>) -> Option<(Seq<char>, Option<Seq<char>>)> {
        match read_props(props) {
            Err(_) => None,
            Ok(f) => if !f.has_id && !f.has_default_message {
                None
            } else {
                let msg = message_of(f, self.options().preserve_whitespace);
                match computed_id(f.id, msg, f.description, self.pattern()) {
                    Ok(id) => Some((id, msg)),
                    Err(_) => None,
                }
            },
        }
    }

    /// Two descriptor objects that differ only in the value of their one
    /// `defaultMessage` property, both non-empty static strings that
    /// normalize to the same text, are refused alike and, when whitespace
    /// is not preserved, rewritten with the same id and the same output
    /// message, the normalized text: the two rewritten objects are the
    /// same (see [`same_props`]), and unless the options remove the
    /// message they hold it as their `defaultMessage`.
    pub proof fn lemma_same_normalized_message(
        &self,
        old1: Seq<Prop>,
        old2: Seq<Prop>,
        k: int,
        new1: Seq<Prop>,
        new2: Seq<Prop>,
    )
        requires
            !self.options().preserve_whitespace,
            old1.len() == old2.len(),
            0 <= k < old1.len(),
            forall|j: int| 0 <= j < old1.len() && j != k ==> old1[j] == old2[j],
            forall|j: int| 0 <= j < old1.len() && j != k ==> !is_named(#[trigger] old1[j], word_default_message()),
            message_swapped(old1[k], old2[k]),
            message_text(old1[k])->Some_0.len() > 0,
            message_text(old2[k])->Some_0.len() > 0,
            normalized(message_text(old1[k])->Some_0) == normalized(message_text(old2[k])->Some_0),
        ensures
            self.object_fault(old1) == self.object_fault(old2),
            self.rewrite_outcome(old1) == self.rewrite_outcome(old2),
            self.rewrite_outcome(old1) matches Some((id, msg)) ==> msg == Some(
                normalized(message_text(old1[k])->Some_0),
            ),
            self.object_rewritten(old1, new1) && self.object_rewritten(old2, new2) ==> {
                &&& same_props(new1, new2)
                &&& !self.options().remove_default_message ==> has_text_prop(
                    new1,
                    word_default_message(),
                    normalized(message_text(old1[k])->Some_0),
                )
            },
    {
        let m1 = message_text(old1[k])->Some_0;
        let m2 = message_text(old2[k])->Some_0;
        lemma_read_props_message_swap(old1, old2, k, m1, m2, old1.len() as int);
        assert(old1.take(old1.len() as int) =~= old1);
        assert(old2.take(old2.len() as int) =~= old2);
        lemma_read_props_message_seen(old1);
        lemma_read_props_message_seen(old2);
        if self.object_rewritten(old1, new1) && self.object_rewritten(old2, new2) {
            let f1 = read_props(old1)->Ok_0;
            let f2 = read_props(old2)->Ok_0;
            let msg = message_of(f1, false);
            let id = computed_id(f1.id, msg, f1.description, self.pattern())->Ok_0;
            assert(pairs(old1, old2)) by {
                assert forall|i: int| 0 <= i < old1.len() implies prop_pair(#[trigger] old1[i], old2[i]) by {
                    if i != k {
                        assert(old1[i] == old2[i]);
                    }
                }
            }
            assert(one_message(old1)) by {
                assert(is_named(old1[k], word_default_message()));
            }
            lemma_rewrites_alike(
                old1,
                old2,
                new1,
                new2,
                f1,
                f2,
                id,
                msg,
                self.options().remove_default_message,
            );
            if !self.options().remove_default_message {
                self.lemma_rewritten_object_has_message(old1, new1);
            }
        }
    }
}

/// The text of a string literal written by the transform.
pub open spec fn written_text(e: Expr) -> Option<Seq<char>> {
    if e.span == dummy_span() {
        match e.kind {
            ExprKind::Generated(s) => Some(s@),
            _ => None,
        }
    } else {
        None
    }
}

/// Two keys that are the same, or plain names spelled the same.
pub open spec fn same_name(k1: PropName, k2: PropName) -> bool {
    ||| k1 == k2
    ||| (k1 matches PropName::Ident(a) && k2 matches PropName::Ident(b) && a@ == b@)
}

/// `p` and `q` are the same property, or the same key-value property
/// written by the transform: the same origin, keys spelled the same, and
/// values that are string literals written with the same text.
pub open spec fn same_prop(p: Prop, q: Prop) -> bool {
    ||| p == q
    ||| {
        &&& p.origin == q.origin
        &&& p.kind matches PropKind::KeyValue { key: k1, value: v1 }
        &&& q.kind matches PropKind::KeyValue { key: k2, value: v2 }
        &&& same_name(k1, k2)
        &&& written_text(v1) is Some
        &&& written_text(v1) == written_text(v2)
    }
}

/// `a` and `b` are the same property lists, up to the `String` values
/// that hold the text the transform writes.
pub open spec fn same_props(a: Seq<Prop>, b: Seq<Prop>) -> bool {
    &&& a.len() == b.len()
    &&& forall|i: int| 0 <= i < a.len() ==> same_prop(#[trigger] a[i], b[i])
}

/// The relation between two descriptors on their way through the rewrite:
/// the same property, or the same `defaultMessage` property with another
/// value.
spec fn prop_pair(p: Prop, q: Prop) -> bool {
    same_prop(p, q) || message_swapped(p, q)
}

spec fn pairs(a: Seq<Prop>, b: Seq<Prop>) -> bool {
    &&& a.len() == b.len()
    &&& forall|i: int| 0 <= i < a.len() ==> prop_pair(#[trigger] a[i], b[i])
}

/// At most one property of `a` is named `defaultMessage`.
spec fn one_message(a: Seq<Prop>) -> bool {
    forall|i: int, j: int|
        0 <= i < a.len() && 0 <= j < a.len() && #[trigger] is_named(a[i], word_default_message())
            && #[trigger] is_named(a[j], word_default_message()) ==> i == j
}

proof fn lemma_pair_named(p: Prop, q: Prop, key: Seq<char>)
    requires
        prop_pair(p, q),
    ensures
        is_named(p, key) == is_named(q, key),
{
}

proof fn lemma_pairs_first_named(a: Seq<Prop>, b: Seq<Prop>, key: Seq<char>, i: int)
    requires
        pairs(a, b),
        0 <= i,
    ensures
        first_named_from(a, key, i) == first_named_from(b, key, i),
    decreases a.len() - i,
{
    if i < a.len() {
        lemma_pair_named(a[i], b[i], key);
        lemma_pairs_first_named(a, b, key, i + 1);
    }
}

proof fn lemma_first_named_none(a: Seq<Prop>, key: Seq<char>, i: int, j: int)
    requires
        0 <= i <= j < a.len(),
        first_named_from(a, key, i) is None,
    ensures
        !is_named(a[j], key),
    decreases j - i,
{
    if i < j {
        lemma_first_named_none(a, key, i + 1, j);
    }
}

proof fn lemma_filter_pairs(a: Seq<Prop>, b: Seq<Prop>, key: Seq<char>)
    requires
        pairs(a, b),
    ensures
        pairs(without_named(a, key), without_named(b, key)),
    decreases a.len(),
{
    let pred = |p: Prop| !is_named(p, key);
    if a.len() == 0 {
        reveal(Seq::filter);
        assert(without_named(a, key) =~= Seq::<Prop>::empty());
        assert(without_named(b, key) =~= Seq::<Prop>::empty());
    } else {
        let a0 = a.drop_last();
        let b0 = b.drop_last();
        assert(pairs(a0, b0)) by {
            assert forall|i: int| 0 <= i < a0.len() implies prop_pair(#[trigger] a0[i], b0[i]) by {
                assert(a0[i] == a[i] && b0[i] == b[i]);
            }
        }
        lemma_filter_pairs(a0, b0, key);
        assert(a0.push(a.last()) =~= a);
        assert(b0.push(b.last()) =~= b);
        a0.lemma_filter_push(a.last(), pred);
        b0.lemma_filter_push(b.last(), pred);
        assert(prop_pair(a[a.len() - 1], b[b.len() - 1]));
        lemma_pair_named(a.last(), b.last(), key);
        let fa = without_named(a0, key);
        let fb = without_named(b0, key);
        if pred(a.last()) {
            assert forall|i: int| 0 <= i < fa.len() + 1 implies prop_pair(
                #[trigger] fa.push(a.last())[i],
                fb.push(b.last())[i],
            ) by {
                if i < fa.len() {
                    assert(prop_pair(fa[i], fb[i]));
                }
            }
        }
    }
}

proof fn lemma_filter_one_message(a: Seq<Prop>, key: Seq<char>)
    requires
        one_message(a),
    ensures
        one_message(without_named(a, key)),
    decreases a.len(),
{
    let pred = |p: Prop| !is_named(p, key);
    if a.len() == 0 {
        reveal(Seq::filter);
        assert(without_named(a, key) =~= Seq::<Prop>::empty());
    } else {
        let a0 = a.drop_last();
        assert(one_message(a0)) by {
            assert forall|i: int, j: int|
                0 <= i < a0.len() && 0 <= j < a0.len() && #[trigger] is_named(a0[i], word_default_message())
                    && #[trigger] is_named(a0[j], word_default_message()) implies i == j by {
                assert(a0[i] == a[i] && a0[j] == a[j]);
            }
        }
        lemma_filter_one_message(a0, key);
        assert(a0.push(a.last()) =~= a);
        a0.lemma_filter_push(a.last(), pred);
        let f0 = without_named(a0, key);
        if pred(a.last()) && is_named(a.last(), word_default_message()) {
            let f = f0.push(a.last());
            assert forall|i: int, j: int|
                0 <= i < f.len() && 0 <= j < f.len() && #[trigger] is_named(f[i], word_default_message())
                    && #[trigger] is_named(f[j], word_default_message()) implies i == j by {
                if i < f0.len() {
                    assert(f0.contains(f0[i]));
                    a0.lemma_filter_contains_rev(pred, f0[i]);
                    let x = choose|x: int| 0 <= x < a0.len() && a0[x] == f0[i];
                    assert(a[x] == a0[x]);
                    assert(is_named(a[a.len() - 1], word_default_message()));
                    assert(x == a.len() - 1);
                }
                if j < f0.len() {
                    assert(f0.contains(f0[j]));
                    a0.lemma_filter_contains_rev(pred, f0[j]);
                    let x = choose|x: int| 0 <= x < a0.len() && a0[x] == f0[j];
                    assert(a[x] == a0[x]);
                    assert(is_named(a[a.len() - 1], word_default_message()));
                    assert(x == a.len() - 1);
                }
            }
        } else if pred(a.last()) {
            let f = f0.push(a.last());
            assert forall|i: int, j: int|
                0 <= i < f.len() && 0 <= j < f.len() && #[trigger] is_named(f[i], word_default_message())
                    && #[trigger] is_named(f[j], word_default_message()) implies i == j by {
                assert(i < f0.len() && j < f0.len());
                assert(f[i] == f0[i] && f[j] == f0[j]);
            }
        }
    }
}

/// The id step keeps two descriptors paired and keeps at most one
/// `defaultMessage` property.
proof fn lemma_id_step_pairs(
    old1: Seq<Prop>,
    old2: Seq<Prop>,
    w1: Seq<Prop>,
    w2: Seq<Prop>,
    has_id: bool,
    id: Seq<char>,
)
    requires
        pairs(old1, old2),
        one_message(old1),
        id_written(old1, w1, has_id, id),
        id_written(old2, w2, has_id, id),
    ensures
        pairs(w1, w2),
        one_message(w1),
{
    assert(word_id() != word_default_message());
    if has_id {
        lemma_pairs_first_named(old1, old2, word_id(), 0);
        match first_named_from(old1, word_id(), 0) {
            None => {},
            Some(i0) => {
                lemma_first_named_is_named(old1, word_id(), 0);
                lemma_pair_named(old1[i0], old2[i0], word_id());
                assert(value_replaced(old1[i0], w1[i0], text_value(id)));
                assert(value_replaced(old2[i0], w2[i0], text_value(id)));
                assert(!message_swapped(old1[i0], old2[i0]));
                assert(same_prop(old1[i0], old2[i0]));
                assert(same_prop(w1[i0], w2[i0]));
                assert forall|i: int| 0 <= i < w1.len() implies prop_pair(#[trigger] w1[i], w2[i]) by {
                    if i != i0 {
                        assert(w1[i] == old1[i] && w2[i] == old2[i]);
                    }
                }
                assert forall|i: int, j: int|
                    0 <= i < w1.len() && 0 <= j < w1.len() && #[trigger] is_named(w1[i], word_default_message())
                        && #[trigger] is_named(w1[j], word_default_message()) implies i == j by {
                    assert(is_named(w1[i0], word_id()));
                    if i != i0 && j != i0 {
                        assert(w1[i] == old1[i] && w1[j] == old1[j]);
                    }
                }
            },
        }
    } else {
        assert(same_prop(w1[0], w2[0]));
        assert forall|i: int| 0 <= i < w1.len() implies prop_pair(#[trigger] w1[i], w2[i]) by {
            if i > 0 {
                assert(w1[i] == w1.skip(1)[i - 1] && w2[i] == w2.skip(1)[i - 1]);
            }
        }
        assert forall|i: int, j: int|
            0 <= i < w1.len() && 0 <= j < w1.len() && #[trigger] is_named(w1[i], word_default_message())
                && #[trigger] is_named(w1[j], word_default_message()) implies i == j by {
            assert(i > 0 && j > 0);
            assert(w1[i] == w1.skip(1)[i - 1] && w1[j] == w1.skip(1)[j - 1]);
        }
    }
}

/// Two paired descriptors with at most one `defaultMessage` property,
/// rewritten for the same id and output message, come out the same.
proof fn lemma_rewrites_alike(
    old1: Seq<Prop>,
    old2: Seq<Prop>,
    new1: Seq<Prop>,
    new2: Seq<Prop>,
    f1: FieldsView,
    f2: FieldsView,
    id: Seq<char>,
    msg: Option<Seq<char>>,
    remove: bool,
)
    requires
        pairs(old1, old2),
        one_message(old1),
        f1.has_id == f2.has_id,
        msg is Some,
        descriptor_rewritten(old1, new1, f1, id, msg, remove),
        descriptor_rewritten(old2, new2, f2, id, msg, remove),
    ensures
        same_props(new1, new2),
{
    let w1 = choose|w: Seq<Prop>|
        #[trigger] id_written(old1, w, f1.has_id, id) && message_written(
            without_named(w, word_description()),
            new1,
            msg,
            remove,
        );
    let w2 = choose|w: Seq<Prop>|
        #[trigger] id_written(old2, w, f2.has_id, id) && message_written(
            without_named(w, word_description()),
            new2,
            msg,
            remove,
        );
    lemma_id_step_pairs(old1, old2, w1, w2, f1.has_id, id);
    let s1 = without_named(w1, word_description());
    let s2 = without_named(w2, word_description());
    lemma_filter_pairs(w1, w2, word_description());
    lemma_filter_one_message(w1, word_description());
    if remove {
        lemma_filter_pairs(s1, s2, word_default_message());
        lemma_without_named(s1, word_default_message());
        assert forall|i: int| 0 <= i < new1.len() implies same_prop(#[trigger] new1[i], new2[i]) by {
            assert(prop_pair(new1[i], new2[i]));
            assert(!is_named(new1[i], word_default_message()));
        }
    } else {
        let m = msg->Some_0;
        lemma_pairs_first_named(s1, s2, word_default_message(), 0);
        match first_named_from(s1, word_default_message(), 0) {
            None => {
                assert forall|i: int| 0 <= i < new1.len() implies same_prop(#[trigger] new1[i], new2[i]) by {
                    lemma_first_named_none(s1, word_default_message(), 0, i);
                    assert(prop_pair(s1[i], s2[i]));
                }
            },
            Some(k) => {
                lemma_first_named_is_named(s1, word_default_message(), 0);
                assert(value_replaced(s1[k], new1[k], text_value(m)));
                assert(value_replaced(s2[k], new2[k], text_value(m)));
                assert(prop_pair(s1[k], s2[k]));
                assert forall|i: int| 0 <= i < new1.len() implies same_prop(#[trigger] new1[i], new2[i]) by {
                    if i != k {
                        assert(new1[i] == s1[i] && new2[i] == s2[i]);
                        assert(prop_pair(s1[i], s2[i]));
                        assert(!is_named(s1[i], word_default_message()));
                    }
                }
            },
        }
    }
}

impl FormatJsTransform {
    /// The id written into a descriptor object without an id and without a
    /// description, whose message holds more than whitespace, is the pattern
    /// interpolated with the message that the object keeps: the message as
    /// written when whitespace is preserved, and its normalized form
    /// otherwise.
    pub proof fn lemma_id_from_kept_message(&self, props: Seq<Prop>)
        requires
            read_props(props) is Ok,
            read_props(props)->Ok_0.id is None,
            read_props(props)->Ok_0.description is None,
            read_props(props)->Ok_0.default_message is Some,
            normalized(read_props(props)->Ok_0.default_message->Some_0).len() > 0,
        ensures
            self.rewrite_outcome(props) matches Some((id, Some(kept))) ==> {
                &&& interpolated(self.pattern(), kept) == Ok::<Seq<char>, crate::hash::PatternFault>(id)
                &&& kept == if self.options().preserve_whitespace {
                    read_props(props)->Ok_0.default_message->Some_0
                } else {
                    normalized(read_props(props)->Ok_0.default_message->Some_0)
                }
            },
    {
        let f = read_props(props)->Ok_0;
        let m = f.default_message->Some_0;
        lemma_read_props_message_seen(props);
        if m.len() == 0 {
            assert(m =~= Seq::<char>::empty());
            assert(normalized(m).len() == 0);
        }
    }
}

} // verus!

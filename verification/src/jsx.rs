//! Rewriting the attributes of message components such as
//! `<FormattedMessage>`.

use vstd::prelude::*;
use crate::ast::{Expr, Prop, PropKind, PropName, JsxAttr, JsxAttrKind, JsxAttrName, JsxAttrValue, JsxOpening, Span};
use crate::config::FormatJsTransform;
use crate::descriptor::{
    computed_id, compute_id, descriptor_key, descriptor_key_of, expr_kind, shape_of, static_string,
    static_string_of, word_default_message, word_description, word_id, DescriptorError,
    DescriptorKey, TransformError, TransformFault,
};
use crate::extract::{has_text_prop, is_named, read_props, read_prop,
    dummy_span, empty_fields, message_of, no_fields, opt_as_str, opt_string, set_field, with_field, FieldsView, Fields};
use crate::text::{chars_of, str_eq, string_from_chars};
use crate::whitespace::normalize_whitespace;

verus! {

/// The value of a descriptor attribute `key`, which must be a string or an
/// expression container holding a static string.
pub open spec fn attr_value_of(span: Span, key: DescriptorKey, value: Option<JsxAttrValue>) -> Result<Seq<char>, DescriptorError> {
    match value {
        None => Err(DescriptorError::JsxAttrWithoutValue { span, key }),
        Some(JsxAttrValue::Str(s)) => Ok(s@),
        Some(JsxAttrValue::Generated(s)) => Ok(s@),
        Some(JsxAttrValue::ExprContainer { span: cs, expr: Some(e) }) => match static_string_of(e) {
            Some(v) => Ok(v),
            None => Err(DescriptorError::JsxAttrNotStringLiteral { span: cs, key, shape: shape_of(e) }),
        },
        Some(JsxAttrValue::ExprContainer { span: cs, expr: None }) => Err(
            DescriptorError::JsxAttrEmpty { span: cs, key },
        ),
        Some(JsxAttrValue::Element(sp)) => Err(DescriptorError::JsxAttrElement { span: sp, key }),
        Some(JsxAttrValue::Fragment(sp)) => Err(DescriptorError::JsxAttrFragment { span: sp, key }),
    }
}

/// Reads one attribute: spreads, namespaced names and names other than the
/// descriptor keys are skipped.
pub open spec fn read_attr(f: FieldsView, a: JsxAttr) -> Result<FieldsView, DescriptorError> {
    match a.kind {
        JsxAttrKind::Spread => Ok(f),
        JsxAttrKind::Attr { span, name, value } => match name {
            JsxAttrName::Namespaced => Ok(f),
            JsxAttrName::Ident(s) => match descriptor_key_of(s@) {
                None => Ok(f),
                Some(dk) => match attr_value_of(span, dk, value) {
                    Err(e) => Err(e),
                    Ok(v) => Ok(with_field(f, dk, v)),
                },
            },
        },
    }
}

/// Reads the attributes in order; the first error stops the reading.
pub open spec fn read_attrs(attrs: Seq<JsxAttr>) -> Result<FieldsView, DescriptorError>
    decreases attrs.len(),
{
    if attrs.len() == 0 {
        Ok(no_fields())
    } else {
        match read_attrs(attrs.drop_last()) {
            Err(e) => Err(e),
            Ok(f) => read_attr(f, attrs.last()),
        }
    }
}

/// An attribute value written by the transform, with text `text`.
pub open spec fn is_text_attr_value(v: JsxAttrValue, text: Seq<char>) -> bool {
    &&& v matches JsxAttrValue::Generated(s)
    &&& s@ == text
}

pub open spec fn text_attr_value(text: Seq<char>) -> spec_fn(JsxAttrValue) -> bool {
    |v: JsxAttrValue| is_text_attr_value(v, text)
}

pub open spec fn same_attr_value(v: JsxAttrValue) -> spec_fn(JsxAttrValue) -> bool {
    |w: JsxAttrValue| w == v
}

/// An attribute with the plain name `key`.
pub open spec fn is_attr_named(a: JsxAttr, key: Seq<char>) -> bool {
    &&& a.kind matches JsxAttrKind::Attr { name: JsxAttrName::Ident(s), .. }
    &&& s@ == key
}

/// The index of the first attribute of `attrs[i..]` named `key`.
pub open spec fn first_attr_named_from(attrs: Seq<JsxAttr>, key: Seq<char>, i: int) -> Option<int>
    decreases attrs.len() - i,
{
    if i < 0 || i >= attrs.len() {
        None
    } else if is_attr_named(attrs[i], key) {
        Some(i)
    } else {
        first_attr_named_from(attrs, key, i + 1)
    }
}

/// `b` is the attribute `a` with its value replaced by one that satisfies
/// `ok`.
pub open spec fn attr_value_replaced(a: JsxAttr, b: JsxAttr, ok: spec_fn(JsxAttrValue) -> bool) -> bool {
    &&& b.origin == a.origin
    &&& a.kind matches JsxAttrKind::Attr { span: s1, name: n1, .. }
    &&& b.kind matches JsxAttrKind::Attr { span: s2, name: n2, value: Some(v) }
    &&& s2 == s1
    &&& n2 == n1
    &&& ok(v)
}

/// `new` is `old` with the value of its first attribute named `key`
/// replaced by one that satisfies `ok`; `old` unchanged if none is named
/// so.
pub open spec fn attr_replaced_first(old: Seq<JsxAttr>, new: Seq<JsxAttr>, key: Seq<char>, ok: spec_fn(JsxAttrValue) -> bool) -> bool {
    match first_attr_named_from(old, key, 0) {
        None => new == old,
        Some(i) => {
            &&& new.len() == old.len()
            &&& forall|j: int| 0 <= j < old.len() && j != i ==> new[j] == old[j]
            &&& attr_value_replaced(old[i], new[i], ok)
        },
    }
}

/// `attrs` without its attributes named `key`.
pub open spec fn without_attr(attrs: Seq<JsxAttr>, key: Seq<char>) -> Seq<JsxAttr> {
    attrs.filter(|a: JsxAttr| !is_attr_named(a, key))
}

/// The attribute `id="<text>"` added by the transform.
pub open spec fn is_new_id_attr(a: JsxAttr, text: Seq<char>) -> bool {
    &&& a.origin is None
    &&& a.kind matches JsxAttrKind::Attr { span, name: JsxAttrName::Ident(k), value: Some(v) }
    &&& span == dummy_span()
    &&& k@ == word_id()
    &&& is_text_attr_value(v, text)
}

/// The id step of an element: nothing when the id is empty; otherwise the
/// first `id` attribute gets it, or `id="<id>"` is put first.
pub open spec fn attr_id_written(old: Seq<JsxAttr>, with_id: Seq<JsxAttr>, has_id: bool, id: Seq<char>) -> bool {
    if id.len() == 0 {
        with_id == old
    } else if has_id {
        attr_replaced_first(old, with_id, word_id(), text_attr_value(id))
    } else {
        &&& with_id.len() == old.len() + 1
        &&& is_new_id_attr(with_id[0], id)
        &&& with_id.skip(1) == old
    }
}

/// The message step of an element, after its descriptions are gone.
pub open spec fn attr_message_written(stripped: Seq<JsxAttr>, new: Seq<JsxAttr>, msg: Option<Seq<char>>, remove: bool) -> bool {
    if remove {
        new == without_attr(stripped, word_default_message())
    } else {
        match msg {
            Some(m) => attr_replaced_first(stripped, new, word_default_message(), text_attr_value(m)),
            None => new == stripped,
        }
    }
}

/// `new` is `old` with the id step, every `description` attribute
/// removed, and the message step.
pub open spec fn attrs_rewritten(
    old: Seq<JsxAttr>,
    new: Seq<JsxAttr>,
    f: FieldsView,
    id: Seq<char>,
    msg: Option<Seq<char>>,
    remove: bool,
) -> bool {
    exists|with_id: Seq<JsxAttr>|
        #[trigger] attr_id_written(old, with_id, f.has_id, id) && attr_message_written(
            without_attr(with_id, word_description()),
            new,
            msg,
            remove,
        )
}

impl FormatJsTransform {
    /// Whether the element is one of the message components.
    pub open spec fn is_component_element(&self, n: JsxOpening) -> bool {
        &&& n.name matches Some(s)
        &&& self.components().contains(s@)
    }

    /// Why the attributes of a message component cannot be rewritten, if
    /// they cannot: an attribute that cannot be read, an empty
    /// `defaultMessage` without an `id`, or an id pattern that fails.
    pub open spec fn element_fault(&self, n: JsxOpening) -> Option<TransformFault> {
        if !self.is_component_element(n) {
            None
        } else {
            match read_attrs(n.attrs@) {
                Err(e) => Some(TransformFault::Descriptor(e)),
                Ok(f) => if !f.has_default_message {
                    None
                } else if f.id is None && f.default_message == Some(Seq::<char>::empty()) {
                    Some(TransformFault::Descriptor(DescriptorError::JsxEmptyMessageWithoutId(n.span)))
                } else {
                    match computed_id(
                        f.id,
                        message_of(f, self.options().preserve_whitespace),
                        f.description,
                        self.pattern(),
                    ) {
                        Err(e) => Some(TransformFault::Pattern(e)),
                        Ok(_) => None,
                    }
                },
            }
        }
    }

    /// `new` is what the element `old` becomes: unchanged unless it is a
    /// message component with a `defaultMessage` attribute (one without is
    /// taken to get its descriptor from a spread), and otherwise rewritten
    /// with its id and output message.
    pub open spec fn element_rewritten(&self, old: JsxOpening, new: JsxOpening) -> bool {
        &&& new.span == old.span
        &&& new.name == old.name
        &&& if !self.is_component_element(old) {
            new.attrs@ == old.attrs@
        } else {
            match read_attrs(old.attrs@) {
                Err(_) => false,
                Ok(f) => if !f.has_default_message {
                    new.attrs@ == old.attrs@
                } else {
                    let msg = message_of(f, self.options().preserve_whitespace);
                    match computed_id(f.id, msg, f.description, self.pattern()) {
                        Ok(id) => attrs_rewritten(
                            old.attrs@,
                            new.attrs@,
                            f,
                            id,
                            msg,
                            self.options().remove_default_message,
                        ),
                        Err(_) => false,
                    }
                },
            }
        }
    }
}

/// Executable [`attr_value_of`].
fn attr_value_exec(span: Span, key: DescriptorKey, value: &Option<JsxAttrValue>) -> (r: Result<String, DescriptorError>)
    ensures
        match r {
            Ok(s) => attr_value_of(span, key, *value) == Ok::<Seq<char>, DescriptorError>(s@),
            Err(e) => attr_value_of(span, key, *value) == Err::<Seq<char>, DescriptorError>(e),
        },
{
    match value {
        None => Err(DescriptorError::JsxAttrWithoutValue { span, key }),
        Some(JsxAttrValue::Str(s)) => Ok(s.clone()),
        Some(JsxAttrValue::Generated(s)) => Ok(s.clone()),
        Some(JsxAttrValue::ExprContainer { span: cs, expr: Some(e) }) => match static_string(e) {
            Some(v) => Ok(v),
            None => Err(DescriptorError::JsxAttrNotStringLiteral { span: *cs, key, shape: expr_kind(e) }),
        },
        Some(JsxAttrValue::ExprContainer { span: cs, expr: None }) => Err(
            DescriptorError::JsxAttrEmpty { span: *cs, key },
        ),
        Some(JsxAttrValue::Element(sp)) => Err(DescriptorError::JsxAttrElement { span: *sp, key }),
        Some(JsxAttrValue::Fragment(sp)) => Err(DescriptorError::JsxAttrFragment { span: *sp, key }),
    }
}

/// Executable [`read_attr`].
fn read_attr_exec(f: &mut Fields, a: &JsxAttr) -> (r: Result<(), DescriptorError>)
    ensures
        match r {
            Ok(()) => read_attr(old(f)@, *a) == Ok::<FieldsView, DescriptorError>(final(f)@),
            Err(e) => read_attr(old(f)@, *a) == Err::<FieldsView, DescriptorError>(e),
        },
{
    match &a.kind {
        JsxAttrKind::Spread => Ok(()),
        JsxAttrKind::Attr { span, name, value } => match name {
            JsxAttrName::Namespaced => Ok(()),
            JsxAttrName::Ident(s) => match descriptor_key(s.as_str()) {
                None => Ok(()),
                Some(dk) => match attr_value_exec(*span, dk, value) {
                    Err(e) => Err(e),
                    Ok(v) => {
                        set_field(f, dk, v);
                        Ok(())
                    },
                },
            },
        },
    }
}

proof fn lemma_read_attrs_error_stays(attrs: Seq<JsxAttr>, n: int)
    requires
        0 <= n <= attrs.len(),
        read_attrs(attrs.take(n)) is Err,
    ensures
        read_attrs(attrs) == read_attrs(attrs.take(n)),
    decreases attrs.len() - n,
{
    if n < attrs.len() {
        assert(attrs.take(n + 1).drop_last() =~= attrs.take(n));
        lemma_read_attrs_error_stays(attrs, n + 1);
    } else {
        assert(attrs.take(n) =~= attrs);
    }
}

/// Executable [`read_attrs`].
fn read_attrs_exec(attrs: &Vec<JsxAttr>) -> (r: Result<Fields, DescriptorError>)
    ensures
        match r {
            Ok(f) => read_attrs(attrs@) == Ok::<FieldsView, DescriptorError>(f@),
            Err(e) => read_attrs(attrs@) == Err::<FieldsView, DescriptorError>(e),
        },
{
    let mut f = empty_fields();
    let mut i: usize = 0;
    while i < attrs.len()
        invariant
            i <= attrs.len(),
            read_attrs(attrs@.take(i as int)) == Ok::<FieldsView, DescriptorError>(f@),
        decreases attrs.len() - i,
    {
        assert(attrs@.take(i + 1).drop_last() =~= attrs@.take(i as int));
        match read_attr_exec(&mut f, &attrs[i]) {
            Ok(()) => {},
            Err(e) => {
                proof {
                    lemma_read_attrs_error_stays(attrs@, i + 1);
                }
                return Err(e);
            },
        }
        i = i + 1;
    }
    assert(attrs@.take(i as int) =~= attrs@);
    Ok(f)
}

/// A string attribute value written by the transform.
pub fn string_jsx_value(s: &str) -> (r: JsxAttrValue)
    ensures
        is_text_attr_value(r, s@),
{
    let c = chars_of(s);
    JsxAttrValue::Generated(string_from_chars(&c))
}

/// Whether `a` is an attribute with the plain name `key`.
fn attr_named(a: &JsxAttr, key: &str) -> (r: bool)
    ensures
        r == is_attr_named(*a, key@),
{
    match &a.kind {
        JsxAttrKind::Attr { name: JsxAttrName::Ident(s), .. } => str_eq(s.as_str(), key),
        _ => false,
    }
}

proof fn lemma_first_attr_named_skips(attrs: Seq<JsxAttr>, key: Seq<char>, i: int, j: int)
    requires
        0 <= i <= j,
        forall|k: int| i <= k < j && 0 <= k < attrs.len() ==> !is_attr_named(#[trigger] attrs[k], key),
    ensures
        first_attr_named_from(attrs, key, i) == first_attr_named_from(attrs, key, j),
    decreases j - i,
{
    if i < j {
        lemma_first_attr_named_skips(attrs, key, i + 1, j);
    }
}

/// Gives the first attribute with the plain name `key` the value
/// `new_value`.
pub fn replace_jsx_attr_value(n: &mut JsxOpening, key: &str, new_value: JsxAttrValue)
    ensures
        attr_replaced_first(old(n).attrs@, final(n).attrs@, key@, same_attr_value(new_value)),
        final(n).span == old(n).span,
        final(n).name == old(n).name,
{
    let mut i: usize = 0;
    while i < n.attrs.len()
        invariant
            i <= n.attrs@.len(),
            n.attrs@ == old(n).attrs@,
            n.span == old(n).span,
            n.name == old(n).name,
            forall|k: int| 0 <= k < i ==> !is_attr_named(#[trigger] n.attrs@[k], key@),
        decreases n.attrs@.len() - i,
    {
        if attr_named(&n.attrs[i], key) {
            proof {
                lemma_first_attr_named_skips(n.attrs@, key@, 0, i as int);
            }
            let ghost before = n.attrs@;
            let a = n.attrs.remove(i);
            let JsxAttr { origin, kind } = a;
            match kind {
                JsxAttrKind::Attr { span, name, value: _ } => {
                    n.attrs.insert(i, JsxAttr { origin, kind: JsxAttrKind::Attr { span, name, value: Some(new_value) } });
                    assert(n.attrs@.len() == before.len());
                    assert forall|j: int| 0 <= j < before.len() && j != i implies n.attrs@[j] == before[j] by {
                        if j < i {
                        } else {
                        }
                    }
                },
                _ => {
                    assert(false);
                },
            }
            return;
        }
        i = i + 1;
    }
    proof {
        lemma_first_attr_named_skips(n.attrs@, key@, 0, n.attrs@.len() as int);
    }
}

/// Removes every attribute with the plain name `key`.
pub fn remove_attrs_named(attrs: &mut Vec<JsxAttr>, key: &str)
    ensures
        final(attrs)@ == without_attr(old(attrs)@, key@),
{
    let ghost start = attrs@;
    let mut kept: Vec<JsxAttr> = Vec::new();
    let mut k: usize = 0;
    let n = attrs.len();
    while attrs.len() > 0
        invariant
            k + attrs@.len() == n == start.len(),
            attrs@ == start.skip(k as int),
            kept@ == without_attr(start.take(k as int), key@),
        decreases attrs@.len(),
    {
        let a = attrs.remove(0);
        proof {
            reveal(Seq::filter);
            assert(start.take(k + 1).drop_last() =~= start.take(k as int));
            assert(start.take(k + 1).last() == a);
            assert(attrs@ =~= start.skip(k + 1));
        }
        if !attr_named(&a, key) {
            kept.push(a);
        }
        k = k + 1;
        proof {
            reveal(Seq::filter);
            assert(without_attr(start.take(k as int), key@) == kept@);
        }
    }
    assert(start.take(k as int) =~= start);
    *attrs = kept;
}

proof fn lemma_attr_replaced_first_text(old: Seq<JsxAttr>, new: Seq<JsxAttr>, key: Seq<char>, v: JsxAttrValue, text: Seq<char>)
    requires
        attr_replaced_first(old, new, key, same_attr_value(v)),
        is_text_attr_value(v, text),
    ensures
        attr_replaced_first(old, new, key, text_attr_value(text)),
{
    match first_attr_named_from(old, key, 0) {
        None => {},
        Some(i) => {
            assert(attr_value_replaced(old[i], new[i], same_attr_value(v)));
        },
    }
}

impl FormatJsTransform {
    /// Rewrites the attributes of a message component (see
    /// [`FormatJsTransform::element_rewritten`]); any other element is
    /// left alone, and so is every element on an error.
    pub fn handle_jsx_opening(&self, n: &mut JsxOpening) -> (r: Result<(), TransformError>)
        ensures
            match r {
                Ok(()) => self.element_fault(*old(n)) is None && self.element_rewritten(*old(n), *final(n)),
                Err(e) => self.element_fault(*old(n)) == Some(e@) && *final(n) == *old(n),
            },
    {
        let is_component = match &n.name {
            Some(s) => self.is_message_component(s.as_str()),
            None => false,
        };
        if !is_component {
            return Ok(());
        }
        let f = match read_attrs_exec(&n.attrs) {
            Ok(f) => f,
            Err(e) => {
                return Err(TransformError::Descriptor(e));
            },
        };
        if !f.has_default_message {
            return Ok(());
        }
        let message_empty = match &f.default_message {
            Some(m) => m.as_str().is_empty(),
            None => false,
        };
        if f.id.is_none() && message_empty {
            assert(f@.default_message =~= Some(Seq::<char>::empty()));
            return Err(TransformError::Descriptor(DescriptorError::JsxEmptyMessageWithoutId(n.span)));
        }
        let normalized_msg: Option<String> = match &f.default_message {
            Some(m) => Some(
                if self.preserve_whitespace() {
                    m.clone()
                } else {
                    normalize_whitespace(m.as_str())
                },
            ),
            None => None,
        };
        assert(opt_string(normalized_msg) == message_of(f@, self.options().preserve_whitespace));
        let final_id = match compute_id(
            opt_as_str(&f.id),
            opt_as_str(&normalized_msg),
            opt_as_str(&f.description),
            self.id_pattern(),
        ) {
            Ok(id) => id,
            Err(e) => {
                return Err(TransformError::Pattern(e));
            },
        };
        proof {
            reveal_strlit("id");
            reveal_strlit("description");
            reveal_strlit("defaultMessage");
            assert("id"@ =~= word_id());
            assert("description"@ =~= word_description());
            assert("defaultMessage"@ =~= word_default_message());
        }
        let ghost old_attrs = n.attrs@;
        if !final_id.as_str().is_empty() {
            if f.has_id {
                let v = string_jsx_value(final_id.as_str());
                replace_jsx_attr_value(n, "id", v);
                proof {
                    lemma_attr_replaced_first_text(old_attrs, n.attrs@, word_id(), v, final_id@);
                }
            } else {
                let idc: [char; 2] = ['i', 'd'];
                let name = JsxAttrName::Ident(string_from_chars(&idc));
                let a = JsxAttr {
                    origin: None,
                    kind: JsxAttrKind::Attr {
                        span: Span { lo: 0, hi: 0 },
                        name,
                        value: Some(string_jsx_value(final_id.as_str())),
                    },
                };
                n.attrs.insert(0, a);
                assert(n.attrs@.skip(1) =~= old_attrs);
            }
        }
        let ghost with_id = n.attrs@;
        assert(attr_id_written(old_attrs, with_id, f.has_id, final_id@));
        remove_attrs_named(&mut n.attrs, "description");
        let ghost stripped = n.attrs@;
        if self.remove_default_message() {
            remove_attrs_named(&mut n.attrs, "defaultMessage");
        } else {
            match &normalized_msg {
                Some(msg) => {
                    let v = string_jsx_value(msg.as_str());
                    replace_jsx_attr_value(n, "defaultMessage", v);
                    proof {
                        lemma_attr_replaced_first_text(stripped, n.attrs@, word_default_message(), v, msg@);
                    }
                },
                None => {},
            }
        }
        assert(attr_message_written(stripped, n.attrs@, opt_string(normalized_msg), self.options().remove_default_message));
        Ok(())
    }
}

proof fn lemma_without_attr(s: Seq<JsxAttr>, k: Seq<char>)
    ensures
        forall|i: int| 0 <= i < without_attr(s, k).len() ==> !is_attr_named(#[trigger] without_attr(s, k)[i], k),
        forall|i: int| 0 <= i < without_attr(s, k).len() ==> s.contains(#[trigger] without_attr(s, k)[i]),
{
    broadcast use vstd::seq_lib::group_filter_ensures;
    let w = without_attr(s, k);
    assert forall|i: int| 0 <= i < w.len() implies !is_attr_named(#[trigger] w[i], k) by {
        s.lemma_filter_pred(|a: JsxAttr| !is_attr_named(a, k), i);
    }
    assert forall|i: int| 0 <= i < w.len() implies s.contains(#[trigger] w[i]) by {
        assert(w.contains(w[i]));
        s.lemma_filter_contains_rev(|a: JsxAttr| !is_attr_named(a, k), w[i]);
    }
}

impl FormatJsTransform {
    /// A rewritten message component holds no `description` attribute, and
    /// no `defaultMessage` attribute when the options remove the message.
    pub proof fn lemma_rewritten_element_strips(&self, old: JsxOpening, new: JsxOpening)
        requires
            self.element_rewritten(old, new),
            self.is_component_element(old),
            read_attrs(old.attrs@) matches Ok(f) && f.has_default_message,
        ensures
            forall|i: int| 0 <= i < new.attrs@.len() ==> !is_attr_named(#[trigger] new.attrs@[i], word_description()),
            self.options().remove_default_message ==> forall|i: int|
                0 <= i < new.attrs@.len() ==> !is_attr_named(#[trigger] new.attrs@[i], word_default_message()),
    {
        let f = match read_attrs(old.attrs@) {
            Ok(f) => f,
            Err(_) => no_fields(),
        };
        let msg = message_of(f, self.options().preserve_whitespace);
        let id = match computed_id(f.id, msg, f.description, self.pattern()) {
            Ok(id) => id,
            Err(_) => Seq::empty(),
        };
        let remove = self.options().remove_default_message;
        let na = new.attrs@;
        let with_id = choose|w: Seq<JsxAttr>|
            #[trigger] attr_id_written(old.attrs@, w, f.has_id, id) && attr_message_written(
                without_attr(w, word_description()),
                na,
                msg,
                remove,
            );
        let stripped = without_attr(with_id, word_description());
        lemma_without_attr(with_id, word_description());
        if remove {
            lemma_without_attr(stripped, word_default_message());
            assert forall|i: int| 0 <= i < na.len() implies !is_attr_named(#[trigger] na[i], word_description()) by {
                assert(stripped.contains(na[i]));
                let j = choose|j: int| 0 <= j < stripped.len() && stripped[j] == na[i];
                assert(!is_attr_named(stripped[j], word_description()));
            }
        } else {
            match msg {
                Some(m) => {
                    match first_attr_named_from(stripped, word_default_message(), 0) {
                        None => {},
                        Some(k) => {
                            assert forall|i: int| 0 <= i < na.len() implies !is_attr_named(
                                #[trigger] na[i],
                                word_description(),
                            ) by {
                                if i != k {
                                    assert(na[i] == stripped[i]);
                                } else {
                                    assert(attr_value_replaced(stripped[k], na[k], text_attr_value(m)));
                                    assert(!is_attr_named(stripped[k], word_description()));
                                }
                            }
                        },
                    }
                },
                None => {},
            }
        }
    }
}

/// An attribute named `key` whose value is the generated string `text`.
pub open spec fn has_text_attr(attrs: Seq<JsxAttr>, key: Seq<char>, text: Seq<char>) -> bool {
    exists|j: int|
        0 <= j < attrs.len() && #[trigger] is_attr_named(attrs[j], key) && (attrs[j].kind matches JsxAttrKind::Attr {
            value: Some(v),
            ..
        } && is_text_attr_value(v, text))
}

proof fn lemma_attr_filter_keeps(s: Seq<JsxAttr>, drop: Seq<char>, i: int)
    requires
        0 <= i < s.len(),
        !is_attr_named(s[i], drop),
    ensures
        without_attr(s, drop).contains(s[i]),
{
    broadcast use vstd::seq_lib::group_filter_ensures;
    s.lemma_filter_contains(|a: JsxAttr| !is_attr_named(a, drop), i);
}

proof fn lemma_first_attr_named_is_named(attrs: Seq<JsxAttr>, key: Seq<char>, i: int)
    requires
        0 <= i,
    ensures
        first_attr_named_from(attrs, key, i) matches Some(k) ==> i <= k < attrs.len() && is_attr_named(attrs[k], key),
    decreases attrs.len() - i,
{
    if i < attrs.len() && !is_attr_named(attrs[i], key) {
        lemma_first_attr_named_is_named(attrs, key, i + 1);
    }
}

proof fn lemma_first_attr_named_prefix_from(attrs: Seq<JsxAttr>, key: Seq<char>, i: int)
    requires
        attrs.len() > 0,
        0 <= i,
        first_attr_named_from(attrs.drop_last(), key, i) is Some,
    ensures
        first_attr_named_from(attrs, key, i) is Some,
    decreases attrs.len() - i,
{
    if i < attrs.len() - 1 {
        assert(attrs.drop_last()[i] == attrs[i]);
        if !is_attr_named(attrs[i], key) {
            lemma_first_attr_named_prefix_from(attrs, key, i + 1);
        }
    }
}

proof fn lemma_first_attr_named_last_from(attrs: Seq<JsxAttr>, key: Seq<char>, i: int)
    requires
        attrs.len() > 0,
        0 <= i <= attrs.len() - 1,
        is_attr_named(attrs.last(), key),
    ensures
        first_attr_named_from(attrs, key, i) is Some,
    decreases attrs.len() - i,
{
    if i < attrs.len() - 1 && !is_attr_named(attrs[i], key) {
        lemma_first_attr_named_last_from(attrs, key, i + 1);
    }
}

proof fn lemma_read_id_attr_named(attrs: Seq<JsxAttr>)
    requires
        read_attrs(attrs) matches Ok(f) && f.has_id,
    ensures
        first_attr_named_from(attrs, word_id(), 0) is Some,
    decreases attrs.len(),
{
    let prev = read_attrs(attrs.drop_last())->Ok_0;
    if read_attrs(attrs.drop_last()) is Ok && prev.has_id {
        lemma_read_id_attr_named(attrs.drop_last());
        lemma_first_attr_named_prefix_from(attrs, word_id(), 0);
    } else {
        assert(is_attr_named(attrs.last(), word_id()));
        lemma_first_attr_named_last_from(attrs, word_id(), 0);
    }
}

/// Some attribute of `attrs[i..]` is named `key` when `attrs[j]` is.
proof fn lemma_first_attr_named_exists(attrs: Seq<JsxAttr>, key: Seq<char>, i: int, j: int)
    requires
        0 <= i <= j < attrs.len(),
        is_attr_named(attrs[j], key),
    ensures
        first_attr_named_from(attrs, key, i) is Some,
    decreases j - i,
{
    if i < j && !is_attr_named(attrs[i], key) {
        lemma_first_attr_named_exists(attrs, key, i + 1, j);
    }
}

/// A `defaultMessage` field that was read comes from an attribute named
/// so, and the fields then hold a message.
proof fn lemma_read_message_attr_named(attrs: Seq<JsxAttr>)
    requires
        read_attrs(attrs) matches Ok(f) && f.has_default_message,
    ensures
        first_attr_named_from(attrs, word_default_message(), 0) is Some,
        read_attrs(attrs)->Ok_0.default_message is Some,
    decreases attrs.len(),
{
    let prev = read_attrs(attrs.drop_last())->Ok_0;
    if read_attrs(attrs.drop_last()) is Ok && prev.has_default_message {
        lemma_read_message_attr_named(attrs.drop_last());
        lemma_first_attr_named_prefix_from(attrs, word_default_message(), 0);
    } else {
        assert(is_attr_named(attrs.last(), word_default_message()));
        lemma_first_attr_named_last_from(attrs, word_default_message(), 0);
    }
}

impl FormatJsTransform {
    /// A rewritten message component with a `defaultMessage` attribute
    /// holds, unless the options remove the message, a `defaultMessage`
    /// attribute whose value is the output message.
    pub proof fn lemma_rewritten_element_has_message(&self, old: JsxOpening, new: JsxOpening)
        requires
            self.element_rewritten(old, new),
            self.is_component_element(old),
            read_attrs(old.attrs@) matches Ok(f) && f.has_default_message,
            !self.options().remove_default_message,
        ensures
            ({
                let f = read_attrs(old.attrs@)->Ok_0;
                message_of(f, self.options().preserve_whitespace) matches Some(m) && has_text_attr(
                    new.attrs@,
                    word_default_message(),
                    m,
                )
            }),
    {
        let f = read_attrs(old.attrs@)->Ok_0;
        lemma_read_message_attr_named(old.attrs@);
        let msg = message_of(f, self.options().preserve_whitespace);
        let m = msg->Some_0;
        let id = computed_id(f.id, msg, f.description, self.pattern())->Ok_0;
        let old_attrs = old.attrs@;
        let na = new.attrs@;
        let with_id = choose|w: Seq<JsxAttr>|
            #[trigger] attr_id_written(old_attrs, w, f.has_id, id) && attr_message_written(
                without_attr(w, word_description()),
                na,
                msg,
                false,
            );
        let i0 = first_attr_named_from(old_attrs, word_default_message(), 0)->Some_0;
        lemma_first_attr_named_is_named(old_attrs, word_default_message(), 0);
        assert(word_id() != word_default_message());
        assert(word_description() != word_default_message());
        let a: int = if id.len() == 0 {
            i0
        } else if f.has_id {
            lemma_read_id_attr_named(old_attrs);
            lemma_first_attr_named_is_named(old_attrs, word_id(), 0);
            assert(with_id[i0] == old_attrs[i0]);
            i0
        } else {
            assert(with_id[i0 + 1] == with_id.skip(1)[i0]);
            i0 + 1
        };
        assert(is_attr_named(with_id[a], word_default_message()));
        lemma_attr_filter_keeps(with_id, word_description(), a);
        let stripped = without_attr(with_id, word_description());
        let j = choose|j: int| 0 <= j < stripped.len() && stripped[j] == with_id[a];
        lemma_first_attr_named_exists(stripped, word_default_message(), 0, j);
        let k = first_attr_named_from(stripped, word_default_message(), 0)->Some_0;
        lemma_first_attr_named_is_named(stripped, word_default_message(), 0);
        assert(attr_value_replaced(stripped[k], na[k], text_attr_value(m)));
        assert(is_attr_named(na[k], word_default_message()));
    }
}

impl FormatJsTransform {
    /// A rewritten message component with a non-empty computed id holds an
    /// `id` attribute whose value is that id.
    pub proof fn lemma_rewritten_element_has_id(&self, old: JsxOpening, new: JsxOpening)
        requires
            self.element_rewritten(old, new),
            self.is_component_element(old),
            read_attrs(old.attrs@) matches Ok(f) && f.has_default_message,
            ({
                let f = read_attrs(old.attrs@)->Ok_0;
                let msg = message_of(f, self.options().preserve_whitespace);
                computed_id(f.id, msg, f.description, self.pattern()) matches Ok(id) && id.len() > 0
            }),
        ensures
            ({
                let f = read_attrs(old.attrs@)->Ok_0;
                let msg = message_of(f, self.options().preserve_whitespace);
                computed_id(f.id, msg, f.description, self.pattern()) matches Ok(id) && has_text_attr(
                    new.attrs@,
                    word_id(),
                    id,
                )
            }),
    {
        let f = read_attrs(old.attrs@)->Ok_0;
        let msg = message_of(f, self.options().preserve_whitespace);
        let id = computed_id(f.id, msg, f.description, self.pattern())->Ok_0;
        let remove = self.options().remove_default_message;
        let old_attrs = old.attrs@;
        let na = new.attrs@;
        let with_id = choose|w: Seq<JsxAttr>|
            #[trigger] attr_id_written(old_attrs, w, f.has_id, id) && attr_message_written(
                without_attr(w, word_description()),
                na,
                msg,
                remove,
            );
        let i0: int = if f.has_id {
            first_attr_named_from(old_attrs, word_id(), 0)->Some_0
        } else {
            0
        };
        if f.has_id {
            lemma_read_id_attr_named(old_attrs);
            lemma_first_attr_named_is_named(old_attrs, word_id(), 0);
            assert(attr_value_replaced(old_attrs[i0], with_id[i0], text_attr_value(id)));
        }
        let w = with_id[i0];
        assert(is_attr_named(w, word_id()));
        assert(w.kind matches JsxAttrKind::Attr { value: Some(v), .. } && is_text_attr_value(v, id));
        assert(word_id() != word_description());
        assert(word_id() != word_default_message());
        lemma_attr_filter_keeps(with_id, word_description(), i0);
        let stripped = without_attr(with_id, word_description());
        let j = choose|j: int| 0 <= j < stripped.len() && stripped[j] == w;
        if remove {
            lemma_attr_filter_keeps(stripped, word_default_message(), j);
            let k = choose|k: int| 0 <= k < na.len() && na[k] == w;
            assert(is_attr_named(na[k], word_id()));
        } else {
            match msg {
                Some(m) => {
                    match first_attr_named_from(stripped, word_default_message(), 0) {
                        None => {
                            assert(is_attr_named(na[j], word_id()));
                        },
                        Some(k) => {
                            lemma_first_attr_named_is_named(stripped, word_default_message(), 0);
                            assert(j != k);
                            assert(na[j] == stripped[j]);
                            assert(is_attr_named(na[j], word_id()));
                        },
                    }
                },
                None => {
                    assert(is_attr_named(na[j], word_id()));
                },
            }
        }
    }
}

impl FormatJsTransform {
    /// A message component and a descriptor object whose fields read the
    /// same, with a `defaultMessage`, are treated alike: the one is refused
    /// exactly when the other is, and once rewritten, the same id is
    /// written into both (when it is not empty), neither keeps a
    /// `description`, and the same output message is written into the
    /// `defaultMessage` of both, or both lose every `defaultMessage` when
    /// the options remove the message.
    pub proof fn lemma_element_like_object(
        &self,
        old_el: JsxOpening,
        new_el: JsxOpening,
        old_obj: Seq<Prop>,
        new_obj: Seq<Prop>,
    )
        requires
            self.is_component_element(old_el),
            read_attrs(old_el.attrs@) matches Ok(f) && f.has_default_message,
            read_props(old_obj) == read_attrs(old_el.attrs@),
        ensures
            (self.element_fault(old_el) is None) == (self.object_fault(old_obj) is None),
            self.element_rewritten(old_el, new_el) && self.object_rewritten(old_obj, new_obj) ==> {
                let f = read_attrs(old_el.attrs@)->Ok_0;
                let msg = message_of(f, self.options().preserve_whitespace);
                let id = computed_id(f.id, msg, f.description, self.pattern())->Ok_0;
                &&& id.len() > 0 ==> has_text_attr(new_el.attrs@, word_id(), id) && has_text_prop(
                    new_obj,
                    word_id(),
                    id,
                )
                &&& forall|i: int| 0 <= i < new_el.attrs@.len() ==> !is_attr_named(
                    #[trigger] new_el.attrs@[i],
                    word_description(),
                )
                &&& forall|i: int| 0 <= i < new_obj.len() ==> !is_named(#[trigger] new_obj[i], word_description())
                &&& msg is Some
                &&& !self.options().remove_default_message ==> has_text_attr(
                    new_el.attrs@,
                    word_default_message(),
                    msg->Some_0,
                ) && has_text_prop(new_obj, word_default_message(), msg->Some_0)
                &&& self.options().remove_default_message ==> forall|i: int|
                    0 <= i < new_el.attrs@.len() ==> !is_attr_named(
                        #[trigger] new_el.attrs@[i],
                        word_default_message(),
                    )
                &&& self.options().remove_default_message ==> forall|i: int|
                    0 <= i < new_obj.len() ==> !is_named(#[trigger] new_obj[i], word_default_message())
            },
    {
        crate::extract::lemma_read_props_message_seen(old_obj);
        let f0 = read_attrs(old_el.attrs@)->Ok_0;
        if f0.default_message.unwrap().len() == 0 {
            assert(f0.default_message.unwrap() =~= Seq::<char>::empty());
        }
        if self.element_rewritten(old_el, new_el) && self.object_rewritten(old_obj, new_obj) {
            let f = read_attrs(old_el.attrs@)->Ok_0;
            let msg = message_of(f, self.options().preserve_whitespace);
            let id = computed_id(f.id, msg, f.description, self.pattern())->Ok_0;
            self.lemma_rewritten_element_strips(old_el, new_el);
            self.lemma_rewritten_object_strips(old_obj, new_obj);
            if id.len() > 0 {
                self.lemma_rewritten_element_has_id(old_el, new_el);
                self.lemma_rewritten_object_has_id(old_obj, new_obj);
            }
            if !self.options().remove_default_message {
                self.lemma_rewritten_element_has_message(old_el, new_el);
                self.lemma_rewritten_object_has_message(old_obj, new_obj);
            }
        }
    }
}

/// An attribute `name={e}` reads exactly as a descriptor-object property
/// `name: e`: the one reads without error exactly when the other does, to
/// the same fields, so a string literal, a template literal without
/// interpolation, and TypeScript wrappers around them are read alike.
pub proof fn lemma_container_reads_like_property(
    f: FieldsView,
    span: Span,
    name: String,
    cs: Span,
    e: Expr,
    p: Prop,
)
    requires
        p.kind matches PropKind::KeyValue { key: PropName::Ident(k), value } && k@ == name@ && value == e,
    ensures
        ({
            let a = JsxAttr {
                origin: p.origin,
                kind: JsxAttrKind::Attr {
                    span,
                    name: JsxAttrName::Ident(name),
                    value: Some(JsxAttrValue::ExprContainer { span: cs, expr: Some(e) }),
                },
            };
            &&& (read_attr(f, a) is Ok) == (read_prop(f, p) is Ok)
            &&& read_attr(f, a) is Ok ==> read_attr(f, a) == read_prop(f, p)
            &&& (descriptor_key_of(name@) is Some && static_string_of(e) is Some) ==> read_attr(f, a)
                == Ok::<FieldsView, DescriptorError>(
                with_field(f, descriptor_key_of(name@)->Some_0, static_string_of(e)->Some_0),
            )
        }),
{
}

} // verus!

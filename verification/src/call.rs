//! Rewriting the message descriptors passed to `defineMessage`,
//! `defineMessages` and the message functions.

use vstd::prelude::*;
use crate::ast::{CallExpr, Expr, ExprKind, ObjectLit, Prop, PropKind};
use crate::config::FormatJsTransform;
use crate::extract::DescriptorPlan;
use crate::descriptor::{
    callee_ident_name, callee_name_of, computed_member, is_computed_member, expr_kind, shape_of, unwrap_ts, unwrapped, DescriptorError,
    TransformError, TransformFault,
};
use crate::text::{chars_of, chars_eq};

verus! {

pub open spec fn word_define_message() -> Seq<char> {
    seq!['d', 'e', 'f', 'i', 'n', 'e', 'M', 'e', 's', 's', 'a', 'g', 'e']
}

pub open spec fn word_define_messages() -> Seq<char> {
    seq!['d', 'e', 'f', 'i', 'n', 'e', 'M', 'e', 's', 's', 'a', 'g', 'e', 's']
}

/// The name a call is made by, when its callee (TypeScript wrappers off)
/// has one.
pub open spec fn call_name(n: CallExpr) -> Option<Seq<char>> {
    match n.callee {
        None => None,
        Some(c) => match callee_name_of(unwrapped(c)) {
            Some((s, _)) => Some(s),
            None => None,
        },
    }
}

/// How a call treats its first argument.
pub enum CallRole {
    /// `defineMessage(descriptor)`
    DefineMessage,
    /// `defineMessages({ key: descriptor, ... })`
    DefineMessages,
    /// A message function: its first argument is rewritten when it is an
    /// object literal, and nothing is required of it otherwise.
    MessageFunction,
    /// Any other call.
    Other,
}

impl FormatJsTransform {
    /// The role of a call, by the name it is made by.
    pub open spec fn call_role(&self, n: CallExpr) -> CallRole {
        match call_name(n) {
            None => CallRole::Other,
            Some(s) => if s == word_define_message() {
                CallRole::DefineMessage
            } else if s == word_define_messages() {
                CallRole::DefineMessages
            } else if self.functions().contains(s) {
                CallRole::MessageFunction
            } else {
                CallRole::Other
            },
        }
    }

    /// Why an entry of a `defineMessages` bag cannot be rewritten: it must
    /// be `key: <object literal>`.
    pub open spec fn entry_fault(&self, p: Prop) -> Option<TransformFault> {
        match p.kind {
            PropKind::Spread(sp) => Some(TransformFault::Descriptor(DescriptorError::SpreadInDefineMessages(sp))),
            PropKind::KeyValue { value, .. } => {
                let v = unwrapped(value);
                match v.kind {
                    ExprKind::Object(o) => self.object_fault(o.props@),
                    _ => Some(TransformFault::Descriptor(DescriptorError::BagEntryNotObject { span: v.span, shape: shape_of(v) })),
                }
            },
            PropKind::Shorthand { span, .. } => Some(TransformFault::Descriptor(DescriptorError::ShorthandInDefineMessages(span))),
            PropKind::Method { span, .. } => Some(TransformFault::Descriptor(DescriptorError::MethodInDefineMessages(span))),
            _ => Some(TransformFault::Descriptor(DescriptorError::AccessorInDefineMessages)),
        }
    }

    /// The first fault among the entries of a `defineMessages` bag.
    pub open spec fn bag_fault(&self, props: Seq<Prop>) -> Option<TransformFault>
        decreases props.len(),
    {
        if props.len() == 0 {
            None
        } else {
            match self.bag_fault(props.drop_last()) {
                Some(e) => Some(e),
                None => self.entry_fault(props.last()),
            }
        }
    }

    /// The fault of the object literal under the TypeScript wrappers of `e`:
    /// a descriptor's, or a bag's when `bag` holds.
    pub open spec fn object_expr_fault(&self, e: Expr, bag: bool) -> Option<TransformFault> {
        match unwrapped(e).kind {
            ExprKind::Object(o) => if bag {
                self.bag_fault(o.props@)
            } else {
                self.object_fault(o.props@)
            },
            _ => None,
        }
    }

    /// Why a call cannot be rewritten, if it cannot.  A callee that is a
    /// computed member (TypeScript wrappers off), `obj[expr](...)`, is
    /// refused whatever it holds, since whether it calls a message function
    /// cannot be told statically.
    pub open spec fn call_fault(&self, n: CallExpr) -> Option<TransformFault> {
        if n.callee matches Some(c) && is_computed_member(unwrapped(c)) {
            Some(TransformFault::Descriptor(DescriptorError::ComputedMemberCallee(unwrapped(n.callee->Some_0).span)))
        } else {
            self.named_call_fault(n)
        }
    }

    /// Why a call whose callee is not a computed member cannot be
    /// rewritten, if it cannot.
    pub open spec fn named_call_fault(&self, n: CallExpr) -> Option<TransformFault> {
        match self.call_role(n) {
            CallRole::DefineMessage => if n.args@.len() == 0 {
                Some(TransformFault::Descriptor(DescriptorError::DefineMessageWithoutArgument(n.span)))
            } else {
                let a = unwrapped(n.args@[0]);
                if a.kind is Object {
                    self.object_expr_fault(n.args@[0], false)
                } else {
                    Some(TransformFault::Descriptor(DescriptorError::DefineMessageNotObject { span: a.span, shape: shape_of(a) }))
                }
            },
            CallRole::DefineMessages => if n.args@.len() == 0 {
                Some(TransformFault::Descriptor(DescriptorError::DefineMessagesWithoutArgument(n.span)))
            } else {
                let a = unwrapped(n.args@[0]);
                if a.kind is Object {
                    self.object_expr_fault(n.args@[0], true)
                } else {
                    Some(TransformFault::Descriptor(DescriptorError::DefineMessagesNotObject { span: a.span, shape: shape_of(a) }))
                }
            },
            CallRole::MessageFunction => if n.args@.len() == 0 {
                None
            } else {
                self.object_expr_fault(n.args@[0], false)
            },
            CallRole::Other => None,
        }
    }

    /// `new` is the entry `p` of a bag with its descriptor rewritten.
    pub open spec fn entry_rewritten(&self, p: Prop, q: Prop) -> bool {
        &&& q.origin == p.origin
        &&& match p.kind {
            PropKind::KeyValue { key, value } => {
                &&& q.kind matches PropKind::KeyValue { key: k2, value: v2 }
                &&& k2 == key
                &&& self.descriptor_expr_rewritten(value, v2)
            },
            _ => q == p,
        }
    }

    /// `new` is the bag `old` with the descriptor of every entry rewritten.
    pub open spec fn bag_rewritten(&self, old: Seq<Prop>, new: Seq<Prop>) -> bool {
        &&& new.len() == old.len()
        &&& forall|i: int| 0 <= i < old.len() ==> self.entry_rewritten(#[trigger] old[i], new[i])
    }

    /// `new` is `old` with the descriptor object literal under its
    /// TypeScript wrappers rewritten.
    pub open spec fn descriptor_expr_rewritten(&self, old: Expr, new: Expr) -> bool
        decreases old,
    {
        &&& new.span == old.span
        &&& match old.kind {
            ExprKind::Ts(a) => match new.kind {
                ExprKind::Ts(b) => self.descriptor_expr_rewritten(*a, *b),
                _ => false,
            },
            ExprKind::Object(o) => match new.kind {
                ExprKind::Object(o2) => self.object_rewritten(o.props@, o2.props@),
                _ => false,
            },
            _ => new == old,
        }
    }

    /// `new` is `old` with the bag object literal under its TypeScript
    /// wrappers rewritten.
    pub open spec fn bag_expr_rewritten(&self, old: Expr, new: Expr) -> bool
        decreases old,
    {
        &&& new.span == old.span
        &&& match old.kind {
            ExprKind::Ts(a) => match new.kind {
                ExprKind::Ts(b) => self.bag_expr_rewritten(*a, *b),
                _ => false,
            },
            ExprKind::Object(o) => match new.kind {
                ExprKind::Object(o2) => self.bag_rewritten(o.props@, o2.props@),
                _ => false,
            },
            _ => new == old,
        }
    }

    /// `new` is `old` with the object literal under its TypeScript
    /// wrappers rewritten: as a descriptor, or as a bag when `bag` holds.
    pub open spec fn expr_rewritten(&self, old: Expr, new: Expr, bag: bool) -> bool {
        if bag {
            self.bag_expr_rewritten(old, new)
        } else {
            self.descriptor_expr_rewritten(old, new)
        }
    }

    /// `new` is what the call `old` becomes: its first argument rewritten
    /// when the call is `defineMessage`, `defineMessages` or a message
    /// function and that argument is an object literal (under TypeScript
    /// wrappers); everything else the same.
    pub open spec fn call_rewritten(&self, old: CallExpr, new: CallExpr) -> bool {
        &&& new.span == old.span
        &&& new.callee == old.callee
        &&& new.args@.len() == old.args@.len()
        &&& forall|i: int| 1 <= i < old.args@.len() ==> new.args@[i] == old.args@[i]
        &&& old.args@.len() > 0 ==> {
            let a = old.args@[0];
            if unwrapped(a).kind is Object && !(self.call_role(old) is Other) {
                self.expr_rewritten(a, new.args@[0], self.call_role(old) is DefineMessages)
            } else {
                new.args@[0] == a
            }
        }
    }
}

impl FormatJsTransform {
    /// The role of a call, and why it cannot be rewritten, depend only on
    /// the name it is called by: a plain identifier callee `name(...)` and
    /// a member callee `obj.name(...)` (TypeScript wrappers off either way)
    /// with the same arguments are treated alike.
    pub proof fn lemma_role_by_name(&self, n1: CallExpr, n2: CallExpr)
        requires
            n1.callee is Some,
            n2.callee is Some,
            callee_name_of(unwrapped(n1.callee->Some_0)) is Some,
            callee_name_of(unwrapped(n2.callee->Some_0)) is Some,
            callee_name_of(unwrapped(n1.callee->Some_0))->Some_0.0 == callee_name_of(
                unwrapped(n2.callee->Some_0),
            )->Some_0.0,
        ensures
            self.call_role(n1) == self.call_role(n2),
            n1.span == n2.span && n1.args@ == n2.args@ ==> self.call_fault(n1) == self.call_fault(n2),
    {
    }

    /// A call of a listed message function by its bare name, such as
    /// `formatMessage(...)` after `const { formatMessage } = useIntl()`,
    /// is a message-function call.
    pub proof fn lemma_bare_name_is_message_function(&self, n: CallExpr)
        requires
            n.callee is Some,
            unwrapped(n.callee->Some_0).kind matches ExprKind::Ident(s) && self.functions().contains(s@)
                && s@ != word_define_message() && s@ != word_define_messages(),
        ensures
            self.call_role(n) is MessageFunction,
            !is_computed_member(unwrapped(n.callee->Some_0)),
    {
    }
}

/// Whether the expression, TypeScript wrappers off, is an object literal.
fn is_object_expr(e: &Expr) -> (r: bool)
    ensures
        r == (unwrapped(*e).kind is Object),
{
    match &unwrap_ts(e).kind {
        ExprKind::Object(_) => true,
        _ => false,
    }
}

impl FormatJsTransform {
    /// `p` is an entry `key: <object literal>` of a bag, and `plan` is what
    /// that descriptor becomes.
    pub open spec fn entry_plans(&self, p: Prop, plan: Option<DescriptorPlan>) -> bool {
        &&& p.kind matches PropKind::KeyValue { value, .. }
        &&& unwrapped(value).kind matches ExprKind::Object(o)
        &&& self.plans_opt(o.props@, plan)
    }

    /// `plans` says, entry by entry, what the descriptors of a bag become.
    pub open spec fn bag_plans(&self, props: Seq<Prop>, plans: Seq<Option<DescriptorPlan>>) -> bool {
        &&& plans.len() == props.len()
        &&& forall|i: int| 0 <= i < props.len() ==> self.entry_plans(#[trigger] props[i], plans[i])
    }

    /// Rewrites the descriptor object literal under the TypeScript wrappers
    /// of `e` as `plan` says.
    fn apply_descriptor_expr(&self, e: Expr, plan: &Option<DescriptorPlan>) -> (r: Expr)
        requires
            unwrapped(e).kind matches ExprKind::Object(o) && self.plans_opt(o.props@, *plan),
        ensures
            self.descriptor_expr_rewritten(e, r),
        decreases e,
    {
        let Expr { span, kind } = e;
        match kind {
            ExprKind::Ts(inner) => {
                let ne = self.apply_descriptor_expr(*inner, plan);
                Expr { span, kind: ExprKind::Ts(Box::new(ne)) }
            },
            ExprKind::Object(mut o) => {
                self.apply_message_plan(&mut o, plan);
                Expr { span, kind: ExprKind::Object(o) }
            },
            other => {
                assert(false);
                Expr { span, kind: other }
            },
        }
    }

    /// Works out what the descriptors of a `defineMessages` bag become,
    /// without touching them: every entry must be `key: <object literal>`
    /// with a descriptor that can be rewritten; the first entry that fails
    /// gives the error.
    fn plan_bag(&self, props: &Vec<Prop>) -> (r: Result<Vec<Option<DescriptorPlan>>, TransformError>)
        ensures
            match r {
                Ok(plans) => self.bag_fault(props@) is None && self.bag_plans(props@, plans@),
                Err(x) => self.bag_fault(props@) == Some(x@),
            },
    {
        let mut plans: Vec<Option<DescriptorPlan>> = Vec::new();
        let mut i: usize = 0;
        while i < props.len()
            invariant
                i <= props@.len(),
                plans@.len() == i,
                forall|j: int| 0 <= j < i ==> self.entry_plans(#[trigger] props@[j], plans@[j]),
                self.bag_fault(props@.take(i as int)) is None,
            decreases props@.len() - i,
        {
            proof {
                assert(props@.take(i + 1).drop_last() =~= props@.take(i as int));
                assert(props@.take(i + 1).last() == props@[i as int]);
            }
            let fault: Option<TransformError> = match &props[i].kind {
                PropKind::Spread(sp) => Some(TransformError::Descriptor(DescriptorError::SpreadInDefineMessages(*sp))),
                PropKind::KeyValue { value, .. } => {
                    let u = unwrap_ts(value);
                    match &u.kind {
                        ExprKind::Object(o) => match self.plan_message_object(&o.props) {
                            Ok(plan) => {
                                let ghost before = plans@;
                                plans.push(plan);
                                assert forall|j: int| 0 <= j < i + 1 implies self.entry_plans(
                                    #[trigger] props@[j],
                                    plans@[j],
                                ) by {
                                    if j < i {
                                        assert(plans@[j] == before[j]);
                                    }
                                }
                                None
                            },
                            Err(x) => Some(x),
                        },
                        _ => Some(TransformError::Descriptor(DescriptorError::BagEntryNotObject { span: u.span, shape: expr_kind(u) })),
                    }
                },
                PropKind::Shorthand { span, .. } => Some(TransformError::Descriptor(DescriptorError::ShorthandInDefineMessages(*span))),
                PropKind::Method { span, .. } => Some(TransformError::Descriptor(DescriptorError::MethodInDefineMessages(*span))),
                _ => Some(TransformError::Descriptor(DescriptorError::AccessorInDefineMessages)),
            };
            match fault {
                None => {
                    i = i + 1;
                },
                Some(x) => {
                    proof {
                        assert(self.bag_fault(props@.take(i + 1)) == Some(x@));
                        self.lemma_bag_fault_stays(props@, i + 1);
                    }
                    return Err(x);
                },
            }
        }
        assert(props@.take(i as int) =~= props@);
        Ok(plans)
    }

    proof fn lemma_bag_fault_stays(&self, props: Seq<Prop>, n: int)
        requires
            0 <= n <= props.len(),
            self.bag_fault(props.take(n)) is Some,
        ensures
            self.bag_fault(props) == self.bag_fault(props.take(n)),
        decreases props.len() - n,
    {
        if n < props.len() {
            assert(props.take(n + 1).drop_last() =~= props.take(n));
            self.lemma_bag_fault_stays(props, n + 1);
        } else {
            assert(props.take(n) =~= props);
        }
    }

    /// Rewrites the descriptor of every entry of a `defineMessages` bag as
    /// `plans` says, in order.
    fn apply_bag(&self, outer: &mut ObjectLit, plans: &Vec<Option<DescriptorPlan>>)
        requires
            self.bag_plans(old(outer).props@, plans@),
        ensures
            self.bag_rewritten(old(outer).props@, final(outer).props@),
    {
        let ghost start = outer.props@;
        let mut i: usize = 0;
        while i < outer.props.len()
            invariant
                start == old(outer).props@,
                self.bag_plans(start, plans@),
                i <= outer.props@.len(),
                outer.props@.len() == start.len(),
                forall|j: int| 0 <= j < i ==> self.entry_rewritten(#[trigger] start[j], outer.props@[j]),
                forall|j: int| i <= j < start.len() ==> #[trigger] outer.props@[j] == start[j],
            decreases outer.props@.len() - i,
        {
            let ghost before = outer.props@;
            let p = outer.props.remove(i);
            assert(p == start[i as int]);
            assert(self.entry_plans(start[i as int], plans@[i as int]));
            let Prop { origin, kind } = p;
            let q = match kind {
                PropKind::KeyValue { key, value } => {
                    let nv = self.apply_descriptor_expr(value, &plans[i]);
                    Prop { origin, kind: PropKind::KeyValue { key, value: nv } }
                },
                other => {
                    assert(false);
                    Prop { origin, kind: other }
                },
            };
            outer.props.insert(i, q);
            assert forall|j: int| 0 <= j < i + 1 implies self.entry_rewritten(
                #[trigger] start[j],
                outer.props@[j],
            ) by {
                if j < i {
                    assert(outer.props@[j] == before[j]);
                }
            }
            assert forall|j: int| i + 1 <= j < start.len() implies #[trigger] outer.props@[j]
                == start[j] by {
                assert(outer.props@[j] == before[j]);
            }
            i = i + 1;
        }
    }

    /// Rewrites the bag object literal under the TypeScript wrappers of `e`
    /// as `plans` says.
    fn apply_bag_expr(&self, e: Expr, plans: &Vec<Option<DescriptorPlan>>) -> (r: Expr)
        requires
            unwrapped(e).kind matches ExprKind::Object(o) && self.bag_plans(o.props@, plans@),
        ensures
            self.bag_expr_rewritten(e, r),
        decreases e,
    {
        let Expr { span, kind } = e;
        match kind {
            ExprKind::Ts(inner) => {
                let ne = self.apply_bag_expr(*inner, plans);
                Expr { span, kind: ExprKind::Ts(Box::new(ne)) }
            },
            ExprKind::Object(mut o) => {
                self.apply_bag(&mut o, plans);
                Expr { span, kind: ExprKind::Object(o) }
            },
            other => {
                assert(false);
                Expr { span, kind: other }
            },
        }
    }

    /// Rewrites the first argument of `n` (see
    /// [`FormatJsTransform::call_rewritten`]) when `n` is a call of
    /// `defineMessage`, `defineMessages` or a message function; the first
    /// two require an object literal.  On an error the call is left as it
    /// was.
    pub fn handle_call_expr(&self, n: &mut CallExpr) -> (r: Result<(), TransformError>)
        ensures
            match r {
                Ok(()) => self.call_fault(*old(n)) is None && self.call_rewritten(*old(n), *final(n)),
                Err(x) => self.call_fault(*old(n)) == Some(x@) && *final(n) == *old(n),
            },
    {
        let name = match &n.callee {
            None => {
                return Ok(());
            },
            Some(c) => {
                let u = unwrap_ts(c);
                if computed_member(u) {
                    return Err(TransformError::Descriptor(DescriptorError::ComputedMemberCallee(u.span)));
                }
                match callee_ident_name(u) {
                    None => {
                        return Ok(());
                    },
                    Some((s, _)) => s,
                }
            },
        };
        let nc = chars_of(name.as_str());
        let dm: [char; 13] = ['d', 'e', 'f', 'i', 'n', 'e', 'M', 'e', 's', 's', 'a', 'g', 'e'];
        let dms: [char; 14] = ['d', 'e', 'f', 'i', 'n', 'e', 'M', 'e', 's', 's', 'a', 'g', 'e', 's'];
        assert(dm@ == word_define_message());
        assert(dms@ == word_define_messages());
        let is_define = chars_eq(&nc, &dm);
        let is_define_all = chars_eq(&nc, &dms);
        let is_function = !is_define && !is_define_all && self.is_format_message_call(name.as_str());
        if !is_define && !is_define_all && !is_function {
            return Ok(());
        }
        if n.args.len() == 0 {
            if is_define {
                return Err(TransformError::Descriptor(DescriptorError::DefineMessageWithoutArgument(n.span)));
            } else if is_define_all {
                return Err(TransformError::Descriptor(DescriptorError::DefineMessagesWithoutArgument(n.span)));
            } else {
                return Ok(());
            }
        }
        if !is_object_expr(&n.args[0]) {
            let u = unwrap_ts(&n.args[0]);
            if is_define {
                return Err(TransformError::Descriptor(DescriptorError::DefineMessageNotObject { span: u.span, shape: expr_kind(u) }));
            } else if is_define_all {
                return Err(TransformError::Descriptor(DescriptorError::DefineMessagesNotObject { span: u.span, shape: expr_kind(u) }));
            } else {
                return Ok(());
            }
        }
        let ghost old_args = n.args@;
        if is_define_all {
            let plans = match &unwrap_ts(&n.args[0]).kind {
                ExprKind::Object(o) => match self.plan_bag(&o.props) {
                    Ok(plans) => plans,
                    Err(x) => {
                        return Err(x);
                    },
                },
                _ => {
                    assert(false);
                    return Ok(());
                },
            };
            let a0 = n.args.remove(0);
            let a1 = self.apply_bag_expr(a0, &plans);
            n.args.insert(0, a1);
        } else {
            let plan = match &unwrap_ts(&n.args[0]).kind {
                ExprKind::Object(o) => match self.plan_message_object(&o.props) {
                    Ok(plan) => plan,
                    Err(x) => {
                        return Err(x);
                    },
                },
                _ => {
                    assert(false);
                    return Ok(());
                },
            };
            let a0 = n.args.remove(0);
            let a1 = self.apply_descriptor_expr(a0, &plan);
            n.args.insert(0, a1);
        }
        assert forall|i: int| 1 <= i < old_args.len() implies n.args@[i] == old_args[i] by {
        }
        Ok(())
    }
}

} // verus!

use swc_plugin_formatjs::descriptor::{compute_id, expr_kind, is_descriptor_key, unwrap_ts};
use swc_plugin_formatjs::{
    formatjs, CallExpr, Config, ConfigError, DescriptorError, DescriptorKey, Expr, ExprKind,
    ExprShape, FormatJsTransform, JsxAttr, JsxAttrKind, JsxAttrName, JsxAttrValue, JsxOpening,
    MemberProp, ObjectLit, PatternError, Prop, PropKind, PropName, Span, TransformError,
    DEFAULT_ID_INTERPOLATION_PATTERN,
};

fn sp(lo: u32) -> Span {
    Span { lo, hi: lo + 1 }
}

fn dummy() -> Span {
    Span { lo: 0, hi: 0 }
}

fn e(lo: u32, kind: ExprKind) -> Expr {
    Expr { span: sp(lo), kind }
}

fn lit(lo: u32, v: &str) -> Expr {
    e(lo, ExprKind::Str(v.to_string()))
}

fn generated(v: &str) -> Expr {
    Expr { span: dummy(), kind: ExprKind::Generated(v.to_string()) }
}

fn kv(origin: usize, key: &str, value: Expr) -> Prop {
    Prop {
        origin: Some(origin),
        kind: PropKind::KeyValue { key: PropName::Ident(key.to_string()), value },
    }
}

fn object(props: Vec<Prop>) -> ObjectLit {
    ObjectLit { props }
}

fn transform() -> FormatJsTransform {
    FormatJsTransform::new(Config::default()).unwrap()
}

fn transform_with(f: impl FnOnce(&mut Config)) -> FormatJsTransform {
    let mut c = Config::default();
    f(&mut c);
    FormatJsTransform::new(c).unwrap()
}

fn member_call(name: &str, args: Vec<Expr>) -> CallExpr {
    CallExpr {
        span: sp(100),
        callee: Some(e(101, ExprKind::Member(MemberProp::Ident(name.to_string())))),
        args,
    }
}

fn ident_call(name: &str, args: Vec<Expr>) -> CallExpr {
    CallExpr { span: sp(100), callee: Some(e(101, ExprKind::Ident(name.to_string()))), args }
}

fn object_expr(lo: u32, props: Vec<Prop>) -> Expr {
    e(lo, ExprKind::Object(object(props)))
}

fn arg_object(call: &CallExpr) -> &ObjectLit {
    match &unwrap_ts(&call.args[0]).kind {
        ExprKind::Object(o) => o,
        _ => panic!("first argument is not an object"),
    }
}

fn id_prop(id: &str) -> Prop {
    Prop {
        origin: None,
        kind: PropKind::KeyValue { key: PropName::Ident("id".to_string()), value: generated(id) },
    }
}

#[test]
fn format_message_call_gets_hashed_id_and_loses_description() {
    let t = transform();
    let mut call = member_call(
        "formatMessage",
        vec![object_expr(
            10,
            vec![
                kv(0, "defaultMessage", lit(11, "Hello, {name}!")),
                kv(1, "description", lit(12, "Greets the user by name")),
            ],
        )],
    );
    assert_eq!(t.handle_call_expr(&mut call), Ok(()));
    let o = arg_object(&call);
    assert_eq!(
        o.props,
        vec![id_prop("LlYGNJ"), kv(0, "defaultMessage", generated("Hello, {name}!"))]
    );
}

#[test]
fn remove_default_message_leaves_only_the_id() {
    let t = transform_with(|c| c.remove_default_message = true);
    let mut o = object(vec![
        kv(0, "defaultMessage", lit(11, "Hello, {name}!")),
        kv(1, "values", e(13, ExprKind::Other)),
    ]);
    assert_eq!(t.process_message_object(&mut o), Ok(()));
    assert_eq!(o.props, vec![id_prop("tBFOH1"), kv(1, "values", e(13, ExprKind::Other))]);
}

#[test]
fn existing_id_is_kept_and_message_normalized() {
    let t = transform();
    let mut o = object(vec![
        kv(0, "id", lit(10, "app.greeting")),
        kv(1, "defaultMessage", lit(11, "  Hello \n  world ")),
    ]);
    assert_eq!(t.process_message_object(&mut o), Ok(()));
    assert_eq!(
        o.props,
        vec![kv(0, "id", generated("app.greeting")), kv(1, "defaultMessage", generated("Hello world"))]
    );
}

#[test]
fn preserve_whitespace_keeps_the_message() {
    let t = transform_with(|c| c.preserve_whitespace = true);
    let mut o = object(vec![kv(0, "id", lit(10, "k")), kv(1, "defaultMessage", lit(11, " a  b "))]);
    assert_eq!(t.process_message_object(&mut o), Ok(()));
    assert_eq!(o.props[1], kv(1, "defaultMessage", generated(" a  b ")));
}

#[test]
fn object_without_descriptor_fields_is_left_alone() {
    let t = transform();
    let mut o = object(vec![kv(0, "values", lit(10, "x")), kv(1, "other", e(11, ExprKind::Num))]);
    assert_eq!(t.process_message_object(&mut o), Ok(()));
    assert_eq!(o.props, vec![kv(0, "values", lit(10, "x")), kv(1, "other", e(11, ExprKind::Num))]);
}

#[test]
fn descriptor_errors_name_the_offending_property() {
    let t = transform();
    let cases: Vec<(Vec<Prop>, DescriptorError)> = vec![
        (
            vec![Prop { origin: Some(0), kind: PropKind::Spread(sp(5)) }],
            DescriptorError::SpreadInDescriptor(sp(5)),
        ),
        (
            vec![Prop {
                origin: Some(0),
                kind: PropKind::KeyValue { key: PropName::Computed(sp(6)), value: lit(7, "x") },
            }],
            DescriptorError::ComputedKey(sp(6)),
        ),
        (
            vec![Prop {
                origin: Some(0),
                kind: PropKind::KeyValue { key: PropName::Num(sp(6)), value: lit(7, "x") },
            }],
            DescriptorError::NumericKey(sp(6)),
        ),
        (
            vec![Prop {
                origin: Some(0),
                kind: PropKind::Shorthand { name: "defaultMessage".to_string(), span: sp(8) },
            }],
            DescriptorError::ShorthandInDescriptor { span: sp(8), key: DescriptorKey::DefaultMessage },
        ),
        (
            vec![kv(0, "defaultMessage", e(9, ExprKind::Ident("msg".to_string())))],
            DescriptorError::NotStringLiteral {
                span: sp(9),
                key: DescriptorKey::DefaultMessage,
                shape: ExprShape::IdentifierReference,
            },
        ),
        (
            vec![kv(0, "id", e(9, ExprKind::Bin))],
            DescriptorError::NotStringLiteral {
                span: sp(9),
                key: DescriptorKey::Id,
                shape: ExprShape::BinaryExpression,
            },
        ),
        (
            vec![kv(0, "defaultMessage", lit(9, ""))],
            DescriptorError::MissingIdAndMessage,
        ),
        (
            vec![kv(0, "id", lit(9, ""))],
            DescriptorError::MissingIdAndMessage,
        ),
        (
            vec![Prop {
                origin: Some(0),
                kind: PropKind::Method { key: PropName::Ident("id".to_string()), span: sp(3) },
            }],
            DescriptorError::MethodInDescriptor(sp(3)),
        ),
        (
            vec![Prop {
                origin: Some(0),
                kind: PropKind::Method { key: PropName::Computed(sp(2)), span: sp(3) },
            }],
            DescriptorError::MethodInDescriptor(sp(3)),
        ),
        (
            vec![Prop { origin: Some(0), kind: PropKind::Getter(sp(4)) }],
            DescriptorError::GetterInDescriptor(sp(4)),
        ),
        (
            vec![Prop { origin: Some(0), kind: PropKind::Setter(sp(4)) }],
            DescriptorError::SetterInDescriptor(sp(4)),
        ),
        (
            vec![Prop { origin: Some(0), kind: PropKind::Assign(sp(4)) }],
            DescriptorError::AssignInDescriptor(sp(4)),
        ),
    ];
    for (props, err) in cases {
        let mut o = object(props);
        let before = format!("{:?}", o);
        assert_eq!(t.process_message_object(&mut o), Err(TransformError::Descriptor(err)));
        assert_eq!(format!("{:?}", o), before);
    }
}

#[test]
fn harmless_properties_are_ignored() {
    let t = transform();
    let mut o = object(vec![
        Prop { origin: Some(0), kind: PropKind::Shorthand { name: "values".to_string(), span: sp(1) } },
        Prop {
            origin: Some(1),
            kind: PropKind::Method { key: PropName::Str("render".to_string()), span: sp(2) },
        },
        kv(2, "id", lit(3, "x.y")),
    ]);
    assert_eq!(t.process_message_object(&mut o), Ok(()));
    assert_eq!(o.props[2], kv(2, "id", generated("x.y")));
}

#[test]
fn typescript_wrappers_and_templates() {
    let t = transform();
    let wrapped = e(20, ExprKind::Ts(Box::new(lit(21, "Hello, {name}!"))));
    let mut o = object(vec![kv(0, "defaultMessage", wrapped)]);
    assert_eq!(t.process_message_object(&mut o), Ok(()));
    assert_eq!(o.props[0], id_prop("tBFOH1"));

    let tpl = e(22, ExprKind::Tpl { quasis: 1, exprs: 0, first_cooked: Some("Hello, {name}!".to_string()) });
    let mut o = object(vec![kv(0, "defaultMessage", tpl)]);
    assert_eq!(t.process_message_object(&mut o), Ok(()));
    assert_eq!(o.props[0], id_prop("tBFOH1"));

    let tpl = e(23, ExprKind::Tpl { quasis: 2, exprs: 1, first_cooked: Some("a".to_string()) });
    let mut o = object(vec![kv(0, "defaultMessage", tpl)]);
    assert_eq!(
        t.process_message_object(&mut o),
        Err(TransformError::Descriptor(DescriptorError::NotStringLiteral {
            span: sp(23),
            key: DescriptorKey::DefaultMessage,
            shape: ExprShape::TemplateLiteral,
        }))
    );

    let wrapped_ident = e(24, ExprKind::Ts(Box::new(e(25, ExprKind::Ident("m".to_string())))));
    let mut o = object(vec![kv(0, "defaultMessage", wrapped_ident)]);
    assert_eq!(
        t.process_message_object(&mut o),
        Err(TransformError::Descriptor(DescriptorError::NotStringLiteral {
            span: sp(24),
            key: DescriptorKey::DefaultMessage,
            shape: ExprShape::NonLiteral,
        }))
    );
}

#[test]
fn later_fields_win_and_first_field_is_rewritten() {
    let t = transform_with(|c| c.preserve_whitespace = true);
    let mut o = object(vec![
        kv(0, "defaultMessage", lit(1, "first")),
        kv(1, "description", lit(2, "d1")),
        kv(2, "defaultMessage", lit(3, "Hello, {name}!")),
        kv(3, "description", lit(4, "")),
    ]);
    assert_eq!(t.process_message_object(&mut o), Ok(()));
    assert_eq!(
        o.props,
        vec![
            id_prop("tBFOH1"),
            kv(0, "defaultMessage", generated("Hello, {name}!")),
            kv(2, "defaultMessage", lit(3, "Hello, {name}!")),
        ]
    );
}

#[test]
fn pattern_failures_surface_when_ids_are_computed() {
    let t = transform_with(|c| c.id_interpolation_pattern = Some("[hash]".to_string()));
    let mut o = object(vec![kv(0, "defaultMessage", lit(1, "x"))]);
    assert_eq!(
        t.process_message_object(&mut o),
        Err(TransformError::Pattern(PatternError::UnsupportedHashType("md5".to_string())))
    );
    let mut o = object(vec![kv(0, "id", lit(1, "kept")), kv(1, "defaultMessage", lit(2, "x"))]);
    assert_eq!(t.process_message_object(&mut o), Ok(()));
}

#[test]
fn empty_pattern_gives_an_empty_id() {
    let t = transform_with(|c| c.id_interpolation_pattern = Some(String::new()));
    let mut o = object(vec![kv(0, "defaultMessage", lit(1, "x"))]);
    assert_eq!(t.process_message_object(&mut o), Ok(()));
    assert_eq!(o.props[0], id_prop(""));
}

fn attr(origin: usize, name: &str, value: Option<JsxAttrValue>) -> JsxAttr {
    JsxAttr {
        origin: Some(origin),
        kind: JsxAttrKind::Attr { span: sp(50 + origin as u32), name: JsxAttrName::Ident(name.to_string()), value },
    }
}

fn jsx_str(v: &str) -> Option<JsxAttrValue> {
    Some(JsxAttrValue::Str(v.to_string()))
}

fn jsx_gen(v: &str) -> Option<JsxAttrValue> {
    Some(JsxAttrValue::Generated(v.to_string()))
}

fn element(name: &str, attrs: Vec<JsxAttr>) -> JsxOpening {
    JsxOpening { span: sp(40), name: Some(name.to_string()), attrs }
}

#[test]
fn formatted_message_gets_id_and_loses_description() {
    let t = transform();
    let mut n = element(
        "FormattedMessage",
        vec![
            attr(0, "defaultMessage", jsx_str("Hello, {name}!")),
            attr(1, "description", jsx_str("Greets the user by name")),
            attr(2, "values", Some(JsxAttrValue::ExprContainer { span: sp(9), expr: Some(e(10, ExprKind::Other)) })),
        ],
    );
    assert_eq!(t.handle_jsx_opening(&mut n), Ok(()));
    assert_eq!(
        n.attrs,
        vec![
            JsxAttr {
                origin: None,
                kind: JsxAttrKind::Attr {
                    span: dummy(),
                    name: JsxAttrName::Ident("id".to_string()),
                    value: jsx_gen("LlYGNJ"),
                },
            },
            attr(0, "defaultMessage", jsx_gen("Hello, {name}!")),
            attr(2, "values", Some(JsxAttrValue::ExprContainer { span: sp(9), expr: Some(e(10, ExprKind::Other)) })),
        ]
    );
}

#[test]
fn jsx_without_default_message_is_skipped() {
    let t = transform();
    let attrs = vec![JsxAttr { origin: Some(0), kind: JsxAttrKind::Spread }, attr(1, "description", jsx_str("d"))];
    let mut n = element("FormattedMessage", attrs);
    let before = format!("{:?}", n);
    assert_eq!(t.handle_jsx_opening(&mut n), Ok(()));
    assert_eq!(format!("{:?}", n), before);
}

#[test]
fn other_elements_are_left_alone() {
    let t = transform();
    let mut n = element("div", vec![attr(0, "defaultMessage", jsx_str("x"))]);
    let before = format!("{:?}", n);
    assert_eq!(t.handle_jsx_opening(&mut n), Ok(()));
    assert_eq!(format!("{:?}", n), before);
    let t = transform_with(|c| c.additional_component_names = vec!["Msg".to_string()]);
    let mut n = element("Msg", vec![attr(0, "defaultMessage", jsx_str("Hello, {name}!"))]);
    assert_eq!(t.handle_jsx_opening(&mut n), Ok(()));
    assert_eq!(n.attrs.len(), 2);
}

#[test]
fn jsx_errors() {
    let t = transform();
    let cases: Vec<(Vec<JsxAttr>, DescriptorError)> = vec![
        (vec![attr(0, "defaultMessage", jsx_str(""))], DescriptorError::JsxEmptyMessageWithoutId(sp(40))),
        (
            vec![attr(0, "defaultMessage", None)],
            DescriptorError::JsxAttrWithoutValue { span: sp(50), key: DescriptorKey::DefaultMessage },
        ),
        (
            vec![attr(0, "id", Some(JsxAttrValue::ExprContainer { span: sp(7), expr: None }))],
            DescriptorError::JsxAttrEmpty { span: sp(7), key: DescriptorKey::Id },
        ),
        (
            vec![attr(0, "description", Some(JsxAttrValue::ExprContainer { span: sp(7), expr: Some(e(8, ExprKind::Call)) }))],
            DescriptorError::JsxAttrNotStringLiteral {
                span: sp(7),
                key: DescriptorKey::Description,
                shape: ExprShape::FunctionCall,
            },
        ),
        (
            vec![attr(0, "defaultMessage", Some(JsxAttrValue::Element(sp(6))))],
            DescriptorError::JsxAttrElement { span: sp(6), key: DescriptorKey::DefaultMessage },
        ),
        (
            vec![attr(0, "defaultMessage", Some(JsxAttrValue::Fragment(sp(6))))],
            DescriptorError::JsxAttrFragment { span: sp(6), key: DescriptorKey::DefaultMessage },
        ),
    ];
    for (attrs, err) in cases {
        let mut n = element("FormattedMessage", attrs);
        assert_eq!(t.handle_jsx_opening(&mut n), Err(TransformError::Descriptor(err)));
    }
}

#[test]
fn jsx_existing_id_and_removed_message() {
    let t = transform_with(|c| c.remove_default_message = true);
    let mut n = element(
        "FormattedMessage",
        vec![
            attr(0, "id", jsx_str("greeting")),
            attr(1, "defaultMessage", Some(JsxAttrValue::ExprContainer { span: sp(3), expr: Some(lit(4, "Hi")) })),
            JsxAttr { origin: Some(2), kind: JsxAttrKind::Attr { span: sp(5), name: JsxAttrName::Namespaced, value: None } },
        ],
    );
    assert_eq!(t.handle_jsx_opening(&mut n), Ok(()));
    assert_eq!(
        n.attrs,
        vec![
            attr(0, "id", jsx_gen("greeting")),
            JsxAttr { origin: Some(2), kind: JsxAttrKind::Attr { span: sp(5), name: JsxAttrName::Namespaced, value: None } },
        ]
    );
}

#[test]
fn jsx_empty_id_is_not_written() {
    let t = transform_with(|c| c.id_interpolation_pattern = Some(String::new()));
    let mut n = element("FormattedMessage", vec![attr(0, "defaultMessage", jsx_str("x"))]);
    assert_eq!(t.handle_jsx_opening(&mut n), Ok(()));
    assert_eq!(n.attrs, vec![attr(0, "defaultMessage", jsx_gen("x"))]);
}

#[test]
fn define_messages_rewrites_every_entry() {
    let t = transform();
    let bag = vec![
        kv(0, "greeting", object_expr(1, vec![kv(0, "defaultMessage", lit(2, "Hello, {name}!"))])),
        kv(
            1,
            "farewell",
            e(3, ExprKind::Ts(Box::new(object_expr(4, vec![kv(0, "id", lit(5, "bye")), kv(1, "defaultMessage", lit(6, "Bye"))])))),
        ),
    ];
    let mut call = ident_call("defineMessages", vec![object_expr(7, bag)]);
    assert_eq!(t.handle_call_expr(&mut call), Ok(()));
    let outer = arg_object(&call);
    match &outer.props[0].kind {
        PropKind::KeyValue { value, .. } => match &value.kind {
            ExprKind::Object(o) => assert_eq!(o.props[0], id_prop("tBFOH1")),
            _ => panic!(),
        },
        _ => panic!(),
    }
    match &outer.props[1].kind {
        PropKind::KeyValue { value, .. } => match &unwrap_ts(value).kind {
            ExprKind::Object(o) => assert_eq!(o.props[0], kv(0, "id", generated("bye"))),
            _ => panic!(),
        },
        _ => panic!(),
    }
}

#[test]
fn define_message_errors() {
    let t = transform();
    let mut c = ident_call("defineMessage", vec![]);
    assert_eq!(
        t.handle_call_expr(&mut c),
        Err(TransformError::Descriptor(DescriptorError::DefineMessageWithoutArgument(sp(100))))
    );
    let mut c = ident_call("defineMessage", vec![lit(3, "x")]);
    assert_eq!(
        t.handle_call_expr(&mut c),
        Err(TransformError::Descriptor(DescriptorError::DefineMessageNotObject {
            span: sp(3),
            shape: ExprShape::StringLiteral,
        }))
    );
    let mut c = ident_call("defineMessages", vec![]);
    assert_eq!(
        t.handle_call_expr(&mut c),
        Err(TransformError::Descriptor(DescriptorError::DefineMessagesWithoutArgument(sp(100))))
    );
    let mut c = ident_call("defineMessages", vec![e(3, ExprKind::Array)]);
    assert_eq!(
        t.handle_call_expr(&mut c),
        Err(TransformError::Descriptor(DescriptorError::DefineMessagesNotObject {
            span: sp(3),
            shape: ExprShape::ArrayLiteral,
        }))
    );
    let bag = vec![Prop { origin: Some(0), kind: PropKind::Spread(sp(8)) }];
    let mut c = ident_call("defineMessages", vec![object_expr(7, bag)]);
    assert_eq!(
        t.handle_call_expr(&mut c),
        Err(TransformError::Descriptor(DescriptorError::SpreadInDefineMessages(sp(8))))
    );
    let bag = vec![kv(0, "a", lit(9, "x"))];
    let mut c = ident_call("defineMessages", vec![object_expr(7, bag)]);
    assert_eq!(
        t.handle_call_expr(&mut c),
        Err(TransformError::Descriptor(DescriptorError::BagEntryNotObject {
            span: sp(9),
            shape: ExprShape::StringLiteral,
        }))
    );
    let bag = vec![Prop { origin: Some(0), kind: PropKind::Shorthand { name: "a".to_string(), span: sp(2) } }];
    let mut c = ident_call("defineMessages", vec![object_expr(7, bag)]);
    assert_eq!(
        t.handle_call_expr(&mut c),
        Err(TransformError::Descriptor(DescriptorError::ShorthandInDefineMessages(sp(2))))
    );
    let bag = vec![Prop { origin: Some(0), kind: PropKind::Getter(sp(2)) }];
    let mut c = ident_call("defineMessages", vec![object_expr(7, bag)]);
    assert_eq!(
        t.handle_call_expr(&mut c),
        Err(TransformError::Descriptor(DescriptorError::AccessorInDefineMessages))
    );
}

#[test]
fn message_function_calls_without_object_are_skipped() {
    let t = transform();
    let mut c = member_call("formatMessage", vec![]);
    assert_eq!(t.handle_call_expr(&mut c), Ok(()));
    let mut c = member_call("formatMessage", vec![lit(1, "x")]);
    assert_eq!(t.handle_call_expr(&mut c), Ok(()));
    assert_eq!(c.args, vec![lit(1, "x")]);
    let mut c = ident_call("somethingElse", vec![object_expr(2, vec![kv(0, "defaultMessage", lit(3, "x"))])]);
    assert_eq!(t.handle_call_expr(&mut c), Ok(()));
    assert_eq!(arg_object(&c).props.len(), 1);
}

#[test]
fn computed_member_callees() {
    let t = transform();
    let callee = e(1, ExprKind::Member(MemberProp::Computed(Box::new(e(2, ExprKind::Ident("$t".to_string()))))));
    let build = |callee: Expr| CallExpr {
        span: sp(0),
        callee: Some(callee),
        args: vec![object_expr(3, vec![kv(0, "defaultMessage", lit(4, "Hello, {name}!"))])],
    };
    let mut c = build(callee);
    assert_eq!(
        t.handle_call_expr(&mut c),
        Err(TransformError::Descriptor(DescriptorError::ComputedMemberCallee(sp(1))))
    );
    assert_eq!(arg_object(&c).props.len(), 1);
    let callee = e(1, ExprKind::Member(MemberProp::Computed(Box::new(lit(2, "formatMessage")))));
    let mut c = build(callee);
    assert_eq!(
        t.handle_call_expr(&mut c),
        Err(TransformError::Descriptor(DescriptorError::ComputedMemberCallee(sp(1))))
    );
    let callee = e(
        5,
        ExprKind::Ts(Box::new(e(1, ExprKind::Member(MemberProp::Computed(Box::new(e(2, ExprKind::Ident("fnName".to_string())))))))),
    );
    let mut c = build(callee);
    assert_eq!(
        t.handle_call_expr(&mut c),
        Err(TransformError::Descriptor(DescriptorError::ComputedMemberCallee(sp(1))))
    );
    let mut c = build(e(1, ExprKind::Member(MemberProp::Ident("formatMessage".to_string()))));
    assert_eq!(t.handle_call_expr(&mut c), Ok(()));
    assert_eq!(arg_object(&c).props[0], id_prop("tBFOH1"));
    let mut c = CallExpr { span: sp(0), callee: None, args: vec![] };
    assert_eq!(t.handle_call_expr(&mut c), Ok(()));
}

#[test]
fn options_that_are_refused() {
    let mut c = Config::default();
    c.ast = true;
    assert_eq!(FormatJsTransform::new(c).err(), Some(ConfigError::Ast));
    let mut c = Config::default();
    c.extract_source_location = true;
    assert_eq!(formatjs(c).err(), Some(ConfigError::ExtractSourceLocation));
    let mut c = Config::default();
    c.pragma = Some("@intl".to_string());
    assert_eq!(formatjs(c).err(), Some(ConfigError::Pragma("@intl".to_string())));
    let mut c = Config::default();
    c.pragma = Some(String::new());
    assert!(formatjs(c).is_ok());
    let mut c = Config::default();
    c.override_id_fn = true;
    assert_eq!(formatjs(c).err(), Some(ConfigError::OverrideIdFn));
    let mut c = Config::default();
    c.on_msg_extracted = true;
    assert_eq!(formatjs(c).err(), Some(ConfigError::OnMsgExtracted));
    let mut c = Config::default();
    c.on_meta_extracted = true;
    assert_eq!(formatjs(c).err(), Some(ConfigError::OnMetaExtracted));
    let mut c = Config::default();
    c.pragma = Some("@intl".to_string());
    c.override_id_fn = true;
    assert_eq!(formatjs(c).err(), Some(ConfigError::Pragma("@intl".to_string())));
    let mut c = Config::default();
    c.on_meta_extracted = true;
    c.id_interpolation_pattern = Some("[name]".to_string());
    assert_eq!(formatjs(c).err(), Some(ConfigError::OnMetaExtracted));
    let mut c = Config::default();
    c.id_interpolation_pattern = Some("[name].[hash]".to_string());
    assert_eq!(
        formatjs(c).err(),
        Some(ConfigError::Pattern(PatternError::UnsupportedToken("[name]".to_string())))
    );
}

#[test]
fn names_of_functions_and_components() {
    let t = transform_with(|c| {
        c.additional_function_names = vec!["t".to_string(), "formatMessage".to_string()];
        c.additional_component_names = vec!["Trans".to_string()];
    });
    for name in ["t", "formatMessage", "$t", "$formatMessage"] {
        assert!(t.is_format_message_call(name), "{}", name);
    }
    assert!(!t.is_format_message_call("defineMessage"));
    assert!(t.is_message_component("Trans"));
    assert!(t.is_message_component("FormattedMessage"));
    assert!(!t.is_message_component("div"));
    assert_eq!(t.id_pattern(), DEFAULT_ID_INTERPOLATION_PATTERN);
}

#[test]
fn computing_ids() {
    let p = DEFAULT_ID_INTERPOLATION_PATTERN;
    assert_eq!(compute_id(Some("x"), Some("m"), None, p).unwrap(), "x");
    assert_eq!(compute_id(Some(""), None, None, p).unwrap(), "");
    assert_eq!(compute_id(None, Some(""), None, p).unwrap(), "");
    assert_eq!(compute_id(None, Some("Hello, {name}!"), Some(""), p).unwrap(), "tBFOH1");
    assert_eq!(
        compute_id(None, Some("Hello, {name}!"), Some("Greets the user by name"), p).unwrap(),
        "LlYGNJ"
    );
}

#[test]
fn descriptor_keys_and_shapes() {
    assert!(is_descriptor_key("id"));
    assert!(is_descriptor_key("defaultMessage"));
    assert!(is_descriptor_key("description"));
    assert!(!is_descriptor_key("values"));
    assert!(!is_descriptor_key("ID"));
    assert_eq!(expr_kind(&e(0, ExprKind::Cond)).text(), "ternary expression");
    assert_eq!(expr_kind(&e(0, ExprKind::Null)).text(), "null");
    assert_eq!(expr_kind(&e(0, ExprKind::Ts(Box::new(lit(1, "x"))))).text(), "non-literal expression");
}

#[test]
fn failed_call_is_left_as_it_was() {
    let t = transform();
    let build = || {
        let bag = vec![
            kv(0, "greeting", object_expr(1, vec![kv(0, "defaultMessage", lit(2, "Hello, {name}!"))])),
            kv(1, "broken", lit(3, "x")),
        ];
        ident_call("defineMessages", vec![object_expr(7, bag), lit(8, "second")])
    };
    let mut call = build();
    assert_eq!(
        t.handle_call_expr(&mut call),
        Err(TransformError::Descriptor(DescriptorError::BagEntryNotObject {
            span: sp(3),
            shape: ExprShape::StringLiteral,
        }))
    );
    assert_eq!(call, build());
    let build = || {
        ident_call(
            "defineMessage",
            vec![object_expr(1, vec![kv(0, "defaultMessage", lit(2, "")), kv(1, "description", lit(3, "d"))])],
        )
    };
    let mut call = build();
    assert_eq!(
        t.handle_call_expr(&mut call),
        Err(TransformError::Descriptor(DescriptorError::MissingIdAndMessage))
    );
    assert_eq!(call, build());
}

#[test]
fn messages_with_the_same_normalized_text_get_the_same_descriptor() {
    let t = transform();
    let mut a = object(vec![
        kv(0, "defaultMessage", lit(11, "Hello,   {name}!")),
        kv(1, "description", lit(12, "Greets the user by name")),
    ]);
    let mut b = object(vec![
        kv(0, "defaultMessage", lit(21, "\n  Hello, {name}!  ")),
        kv(1, "description", lit(12, "Greets the user by name")),
    ]);
    assert_eq!(t.process_message_object(&mut a), Ok(()));
    assert_eq!(t.process_message_object(&mut b), Ok(()));
    assert_eq!(a, b);
    assert_eq!(a.props, vec![id_prop("LlYGNJ"), kv(0, "defaultMessage", generated("Hello, {name}!"))]);
}

#[test]
fn element_and_object_with_the_same_fields_get_the_same_id() {
    for remove in [false, true] {
        let t = transform_with(|c| c.remove_default_message = remove);
        let mut n = element(
            "FormattedMessage",
            vec![
                attr(0, "defaultMessage", jsx_str("Hello,  {name}!")),
                attr(1, "description", jsx_str("Greets the user by name")),
            ],
        );
        let mut o = object(vec![
            kv(0, "defaultMessage", lit(11, "Hello,  {name}!")),
            kv(1, "description", lit(12, "Greets the user by name")),
        ]);
        assert_eq!(t.handle_jsx_opening(&mut n), Ok(()));
        assert_eq!(t.process_message_object(&mut o), Ok(()));
        let attr_id = n.attrs.iter().find_map(|a| match &a.kind {
            JsxAttrKind::Attr { name: JsxAttrName::Ident(k), value: Some(JsxAttrValue::Generated(v)), .. }
                if k == "id" => Some(v.clone()),
            _ => None,
        });
        let prop_id = o.props.iter().find_map(|p| match &p.kind {
            PropKind::KeyValue { key: PropName::Ident(k), value } if k == "id" => match &value.kind {
                ExprKind::Generated(v) => Some(v.clone()),
                _ => None,
            },
            _ => None,
        });
        assert_eq!(attr_id, Some("LlYGNJ".to_string()));
        assert_eq!(attr_id, prop_id);
        let attr_msg = n.attrs.iter().find_map(|a| match &a.kind {
            JsxAttrKind::Attr { name: JsxAttrName::Ident(k), value: Some(JsxAttrValue::Generated(v)), .. }
                if k == "defaultMessage" => Some(v.clone()),
            _ => None,
        });
        let prop_msg = o.props.iter().find_map(|p| match &p.kind {
            PropKind::KeyValue { key: PropName::Ident(k), value } if k == "defaultMessage" => match &value.kind {
                ExprKind::Generated(v) => Some(v.clone()),
                _ => None,
            },
            _ => None,
        });
        assert_eq!(attr_msg, prop_msg);
        assert_eq!(attr_msg, if remove { None } else { Some("Hello, {name}!".to_string()) });
        assert_eq!(n.attrs.len(), if remove { 1 } else { 2 });
        assert_eq!(o.props.len(), if remove { 1 } else { 2 });
    }
}

use kas::args::{
    AttrInput, Given, Lit, ParseError, Token, WidgetArgs, WidgetAttrArgs, Word,
};
use kas::derive::{
    msg_restriction, read_attrs, Args, Child, DeriveError, FieldAttr, FieldError, Note, Reading,
    StructKind, TypeAttr,
};

fn none() -> WidgetAttrArgs {
    WidgetAttrArgs { col: None, row: None, cspan: None, rspan: None, handler: None }
}

fn plain_widget() -> TypeAttr {
    TypeAttr::Widget(AttrInput::Empty)
}

fn child() -> FieldAttr {
    FieldAttr::Widget(AttrInput::Empty)
}

fn child_at(col: u32) -> FieldAttr {
    FieldAttr::Widget(AttrInput::Group(vec![
        Token::Ident(Word::Col),
        Token::Equals,
        Token::Lit(Lit::Int(col)),
    ]))
}

fn bad_child() -> FieldAttr {
    FieldAttr::Widget(AttrInput::Group(vec![Token::Comma]))
}

#[test]
fn simple_widget() {
    let fields = vec![vec![FieldAttr::Core], vec![], vec![child()]];
    let reading = read_attrs(StructKind::Named, &fields, &vec![plain_widget()]);
    assert_eq!(
        reading,
        Reading {
            result: Ok(Args {
                core: 0,
                layout_data: None,
                widget_attr: 0,
                widget: WidgetArgs { layout: None, is_frame: false },
                handler: None,
                children: vec![Child { field: 2, attr: 0, args: none() }],
            }),
            notes: vec![],
        }
    );
}

#[test]
fn everything_a_widget_can_declare() {
    let fields = vec![
        vec![FieldAttr::Other, child_at(1)],
        vec![FieldAttr::LayoutData { expected_type: true }],
        vec![FieldAttr::Core, FieldAttr::Other],
        vec![child_at(3), child()],
    ];
    let attrs = vec![
        TypeAttr::Other,
        TypeAttr::Handler { parses: true },
        TypeAttr::Widget(AttrInput::Group(vec![Token::Ident(Word::Frame)])),
    ];
    let reading = read_attrs(StructKind::Unnamed, &fields, &attrs);
    assert_eq!(reading.notes, vec![]);
    let args = reading.result.unwrap();
    assert_eq!(args.core, 2);
    assert_eq!(args.layout_data, Some(1));
    assert_eq!(args.widget_attr, 2);
    assert_eq!(args.widget, WidgetArgs { layout: None, is_frame: true });
    assert_eq!(args.handler, Some(1));
    assert_eq!(
        args.children,
        vec![
            Child {
                field: 0,
                attr: 1,
                args: WidgetAttrArgs { col: Some(Given { at: 2, lit: Lit::Int(1) }), ..none() },
            },
            Child {
                field: 3,
                attr: 0,
                args: WidgetAttrArgs { col: Some(Given { at: 2, lit: Lit::Int(3) }), ..none() },
            },
            Child { field: 3, attr: 1, args: none() },
        ]
    );
}

#[test]
fn only_structs_with_fields_are_widgets() {
    let fields = vec![vec![FieldAttr::Core]];
    for kind in [StructKind::Unit, StructKind::Enum, StructKind::Union] {
        let reading = read_attrs(kind, &fields, &vec![plain_widget()]);
        assert_eq!(reading, Reading { result: Err(DeriveError::NotStruct), notes: vec![] });
    }
}

#[test]
fn core_field_is_needed() {
    let fields = vec![vec![child()], vec![FieldAttr::Other]];
    let reading = read_attrs(StructKind::Named, &fields, &vec![plain_widget()]);
    assert_eq!(reading.result, Err(DeriveError::NoCore));
    // and is missed before the attribute of the type is
    let reading = read_attrs(StructKind::Named, &fields, &vec![]);
    assert_eq!(reading.result, Err(DeriveError::NoCore));
}

#[test]
fn widget_attribute_is_needed() {
    let fields = vec![vec![FieldAttr::Core]];
    let reading = read_attrs(StructKind::Named, &fields, &vec![TypeAttr::Handler { parses: true }]);
    assert_eq!(reading.result, Err(DeriveError::NoWidget));
}

#[test]
fn what_is_given_twice_is_noted_and_the_first_counts() {
    let fields = vec![
        vec![FieldAttr::Core, FieldAttr::LayoutData { expected_type: false }],
        vec![FieldAttr::LayoutData { expected_type: false }, FieldAttr::Core, FieldAttr::Core],
    ];
    let attrs = vec![
        TypeAttr::Widget(AttrInput::Group(vec![Token::Ident(Word::Frame)])),
        TypeAttr::Handler { parses: true },
        TypeAttr::Widget(AttrInput::Other),
        TypeAttr::Handler { parses: false },
    ];
    let reading = read_attrs(StructKind::Named, &fields, &attrs);
    assert_eq!(
        reading.notes,
        vec![
            Note::LayoutDataType { field: 0, attr: 1 },
            Note::MultipleLayoutData { field: 1, attr: 0 },
            Note::MultipleCore { field: 1, attr: 1 },
            Note::MultipleCore { field: 1, attr: 2 },
            Note::MultipleWidget { attr: 2 },
            Note::MultipleHandler { attr: 3 },
        ]
    );
    let args = reading.result.unwrap();
    assert_eq!(args.core, 0);
    assert_eq!(args.layout_data, Some(0));
    assert_eq!(args.widget, WidgetArgs { layout: None, is_frame: true });
    assert_eq!(args.handler, Some(1));
}

#[test]
fn child_whose_arguments_cannot_be_read_ends_the_reading() {
    let fields = vec![
        vec![FieldAttr::Core, FieldAttr::Core],
        vec![child(), bad_child(), FieldAttr::Core],
        vec![bad_child()],
    ];
    let reading = read_attrs(StructKind::Named, &fields, &vec![plain_widget()]);
    assert_eq!(
        reading,
        Reading {
            result: Err(DeriveError::Child {
                field: 1,
                attr: 1,
                error: ParseError::Unexpected(0),
            }),
            notes: vec![Note::MultipleCore { field: 0, attr: 1 }],
        }
    );
}

#[test]
fn widget_whose_arguments_cannot_be_read_ends_the_reading() {
    let fields = vec![vec![FieldAttr::Core]];
    let attrs = vec![TypeAttr::Widget(AttrInput::Other), TypeAttr::Handler { parses: false }];
    let reading = read_attrs(StructKind::Named, &fields, &attrs);
    assert_eq!(
        reading.result,
        Err(DeriveError::Widget { attr: 0, error: ParseError::ExpectedParentheses })
    );
}

#[test]
fn handler_whose_arguments_cannot_be_read_ends_the_reading() {
    let fields = vec![vec![FieldAttr::Core]];
    let attrs = vec![
        plain_widget(),
        plain_widget(),
        TypeAttr::Handler { parses: false },
        TypeAttr::Widget(AttrInput::Other),
    ];
    let reading = read_attrs(StructKind::Named, &fields, &attrs);
    assert_eq!(reading.result, Err(DeriveError::Handler { attr: 2 }));
    assert_eq!(reading.notes, vec![Note::MultipleWidget { attr: 1 }]);
}

#[test]
fn type_of_a_report_only_for_children_of_open_type() {
    assert_eq!(msg_restriction(true, false), Ok(()));
    assert_eq!(msg_restriction(true, true), Err(FieldError::MsgOnFixedType));
    assert_eq!(msg_restriction(false, false), Err(FieldError::MsgOnNonWidget));
    assert_eq!(msg_restriction(false, true), Err(FieldError::MsgOnNonWidget));
}

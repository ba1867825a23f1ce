//! Reading the declaration of a widget: which field holds the common widget
//! data, which fields are children, and what the attributes of the type say.
//!
//! The declaration comes as the kinds of its attributes, field by field.
//! Reading goes through the fields in order, then through the attributes of
//! the type. An attribute whose arguments cannot be read ends the reading
//! with an error. What is given once too often is noted and passed over.

use crate::args::{AttrInput, ParseError, WidgetArgs, WidgetAttrArgs};
use vstd::prelude::*;

verus! {

/// What kind of type a declaration declares.
#[derive(Clone, Copy, Debug, PartialEq, Eq, Structural)]
pub enum StructKind {
    /// A struct with named fields.
    Named,
    /// A struct with unnamed fields.
    Unnamed,
    /// A struct without fields.
    Unit,
    /// An enum.
    Enum,
    /// A union.
    Union,
}

/// An attribute of a field.
#[derive(Clone, Debug, PartialEq, Eq)]
pub enum FieldAttr {
    /// `core`: the field holds the common widget data.
    Core,
    /// `layout_data`: the field holds the data of the layout; with it,
    /// whether the field has the type that such data has.
    LayoutData { expected_type: bool },
    /// `widget`: the field is a child, with the arguments that follow.
    Widget(AttrInput),
    /// Any other attribute.
    Other,
}

/// An attribute of the type.
#[derive(Clone, Debug, PartialEq, Eq)]
pub enum TypeAttr {
    /// `widget`, with the arguments that follow.
    Widget(AttrInput),
    /// `handler`; with it, whether its arguments can be read.
    Handler { parses: bool },
    /// Any other attribute.
    Other,
}

/// A child of the widget: the index of its field, the index of the
/// attribute of the field that declares it, and its arguments.
#[derive(Clone, Copy, Debug, PartialEq, Eq, Structural)]
pub struct Child {
    pub field: usize,
    pub attr: usize,
    pub args: WidgetAttrArgs,
}

/// What the declaration of a widget says.
#[derive(Clone, Debug, PartialEq, Eq)]
pub struct Args {
    /// The index of the field that holds the common widget data.
    pub core: usize,
    /// The index of the field that holds the data of the layout.
    pub layout_data: Option<usize>,
    /// The index of the attribute of the type that declares the widget.
    pub widget_attr: usize,
    /// The arguments of the widget.
    pub widget: WidgetArgs,
    /// The index of the attribute of the type that declares the handler.
    pub handler: Option<usize>,
    /// The children, in the order of their attributes.
    pub children: Vec<Child>,
}

/// Something noted while reading that does not end the reading.
#[derive(Clone, Copy, Debug, PartialEq, Eq, Structural)]
pub enum Note {
    /// A second field is marked as holding the common widget data.
    MultipleCore { field: usize, attr: usize },
    /// A second field is marked as holding the data of the layout.
    MultipleLayoutData { field: usize, attr: usize },
    /// The field marked as holding the data of the layout has another type
    /// than such data has.
    LayoutDataType { field: usize, attr: usize },
    /// The type has a second attribute `widget`.
    MultipleWidget { attr: usize },
    /// The type has a second attribute `handler`.
    MultipleHandler { attr: usize },
}

/// Why the declaration is not that of a widget.
#[derive(Clone, Copy, Debug, PartialEq, Eq, Structural)]
pub enum DeriveError {
    /// It declares an enum, a union or a struct without fields.
    NotStruct,
    /// The arguments of a child cannot be read.
    Child { field: usize, attr: usize, error: ParseError },
    /// The arguments of the widget cannot be read.
    Widget { attr: usize, error: ParseError },
    /// The arguments of the handler cannot be read.
    Handler { attr: usize },
    /// The type has no attribute `widget`.
    NoWidget,
    /// No field is marked as holding the common widget data.
    NoCore,
}

/// What came of reading a declaration: what it says or why it is not that of
/// a widget, and what was noted on the way.
#[derive(Debug, PartialEq, Eq)]
pub struct Reading {
    pub result: Result<Args, DeriveError>,
    pub notes: Vec<Note>,
}

/// How far a reading has come.
pub struct Progress {
    pub core: Option<usize>,
    pub layout_data: Option<usize>,
    pub children: Seq<Child>,
    pub widget: Option<(usize, WidgetArgs)>,
    pub handler: Option<usize>,
    pub notes: Seq<Note>,
    pub failed: Option<DeriveError>,
}

impl Progress {
    /// Nothing read yet.
    pub open spec fn start() -> Progress {
        Progress {
            core: None,
            layout_data: None,
            children: Seq::empty(),
            widget: None,
            handler: None,
            notes: Seq::empty(),
            failed: None,
        }
    }

    /// The reading with one more thing noted.
    pub open spec fn noting(self, note: Note) -> Progress {
        Progress { notes: self.notes.push(note), ..self }
    }

    /// The reading after attribute `attr` of field `field`. The first field
    /// marked `core` holds the common widget data and the first marked
    /// `layout_data` the data of the layout; a later one is noted. Every
    /// attribute `widget` gives a child.
    pub open spec fn field_attr(self, field: usize, attr: usize, a: FieldAttr) -> Progress {
        if self.failed is Some {
            self
        } else {
            match a {
                FieldAttr::Core => if self.core is None {
                    Progress { core: Some(field), ..self }
                } else {
                    self.noting(Note::MultipleCore { field, attr })
                },
                FieldAttr::LayoutData { expected_type } => if self.layout_data is None {
                    let noted = if expected_type {
                        self
                    } else {
                        self.noting(Note::LayoutDataType { field, attr })
                    };
                    Progress { layout_data: Some(field), ..noted }
                } else {
                    self.noting(Note::MultipleLayoutData { field, attr })
                },
                FieldAttr::Widget(input) => match WidgetAttrArgs::parsed(input) {
                    Ok(args) => Progress {
                        children: self.children.push(Child { field, attr, args }),
                        ..self
                    },
                    Err(error) => Progress {
                        failed: Some(DeriveError::Child { field, attr, error }),
                        ..self
                    },
                },
                FieldAttr::Other => self,
            }
        }
    }

    /// The reading after the first `count` attributes of field `field`.
    pub open spec fn field_attrs(self, field: usize, attrs: Seq<FieldAttr>, count: int) -> Progress
        decreases count,
    {
        if count <= 0 {
            self
        } else {
            self.field_attrs(field, attrs, count - 1).field_attr(
                field,
                (count - 1) as usize,
                attrs[count - 1],
            )
        }
    }

    /// The reading after the first `count` fields.
    pub open spec fn fields(self, fields: Seq<Vec<FieldAttr>>, count: int) -> Progress
        decreases count,
    {
        if count <= 0 {
            self
        } else {
            self.fields(fields, count - 1).field_attrs(
                (count - 1) as usize,
                fields[count - 1]@,
                fields[count - 1]@.len() as int,
            )
        }
    }

    /// The reading after attribute `attr` of the type. The first attribute
    /// `widget` and the first attribute `handler` count; a later one is
    /// noted.
    pub open spec fn type_attr(self, attr: usize, a: TypeAttr) -> Progress {
        if self.failed is Some {
            self
        } else {
            match a {
                TypeAttr::Widget(input) => if self.widget is None {
                    match WidgetArgs::parsed(input) {
                        Ok(args) => Progress { widget: Some((attr, args)), ..self },
                        Err(error) => Progress {
                            failed: Some(DeriveError::Widget { attr, error }),
                            ..self
                        },
                    }
                } else {
                    self.noting(Note::MultipleWidget { attr })
                },
                TypeAttr::Handler { parses } => if self.handler is None {
                    if parses {
                        Progress { handler: Some(attr), ..self }
                    } else {
                        Progress { failed: Some(DeriveError::Handler { attr }), ..self }
                    }
                } else {
                    self.noting(Note::MultipleHandler { attr })
                },
                TypeAttr::Other => self,
            }
        }
    }

    /// The reading after the first `count` attributes of the type.
    pub open spec fn type_attrs(self, attrs: Seq<TypeAttr>, count: int) -> Progress
        decreases count,
    {
        if count <= 0 {
            self
        } else {
            self.type_attrs(attrs, count - 1).type_attr((count - 1) as usize, attrs[count - 1])
        }
    }

    /// What comes of the reading in the end: an error where it has failed,
    /// or where no field holds the common widget data, or where the type is
    /// not marked as a widget.
    pub open spec fn outcome(self) -> Result<ArgsView, DeriveError> {
        match self.failed {
            Some(error) => Err(error),
            None => match self.core {
                None => Err(DeriveError::NoCore),
                Some(core) => match self.widget {
                    None => Err(DeriveError::NoWidget),
                    Some((widget_attr, widget)) => Ok(
                        ArgsView {
                            core,
                            layout_data: self.layout_data,
                            widget_attr,
                            widget,
                            handler: self.handler,
                            children: self.children,
                        },
                    ),
                },
            },
        }
    }
}

/// What the declaration of a widget says, as a value of specifications.
pub struct ArgsView {
    pub core: usize,
    pub layout_data: Option<usize>,
    pub widget_attr: usize,
    pub widget: WidgetArgs,
    pub handler: Option<usize>,
    pub children: Seq<Child>,
}

impl View for Args {
    type V = ArgsView;

    open spec fn view(&self) -> ArgsView {
        ArgsView {
            core: self.core,
            layout_data: self.layout_data,
            widget_attr: self.widget_attr,
            widget: self.widget,
            handler: self.handler,
            children: self.children@,
        }
    }
}

/// What came of reading a declaration, as a value of specifications.
pub struct ReadingView {
    pub result: Result<ArgsView, DeriveError>,
    pub notes: Seq<Note>,
}

impl View for Reading {
    type V = ReadingView;

    open spec fn view(&self) -> ReadingView {
        ReadingView {
            result: match self.result {
                Ok(args) => Ok(args@),
                Err(error) => Err(error),
            },
            notes: self.notes@,
        }
    }
}

/// Where the reading of a declaration ends. Only the declaration of a struct
/// with fields is read; then the fields are, in order, and after them the
/// attributes of the type.
pub open spec fn read(kind: StructKind, fields: Seq<Vec<FieldAttr>>, attrs: Seq<TypeAttr>) -> Progress {
    if kind == StructKind::Named || kind == StructKind::Unnamed {
        Progress::start().fields(fields, fields.len() as int).type_attrs(attrs, attrs.len() as int)
    } else {
        Progress { failed: Some(DeriveError::NotStruct), ..Progress::start() }
    }
}

/// Once reading has failed within a field, the attributes that follow in
/// the field change nothing.
pub proof fn lemma_field_attrs_after_failure(
    progress: Progress,
    field: usize,
    attrs: Seq<FieldAttr>,
    failed_at: int,
    count: int,
)
    requires
        failed_at <= count,
        progress.field_attrs(field, attrs, failed_at).failed is Some,
    ensures
        progress.field_attrs(field, attrs, count) == progress.field_attrs(field, attrs, failed_at),
    decreases count - failed_at,
{
    if failed_at < count {
        lemma_field_attrs_after_failure(progress, field, attrs, failed_at, count - 1);
    }
}

/// Once reading has failed, the fields that follow change nothing.
pub proof fn lemma_fields_after_failure(
    progress: Progress,
    fields: Seq<Vec<FieldAttr>>,
    failed_at: int,
    count: int,
)
    requires
        failed_at <= count,
        progress.fields(fields, failed_at).failed is Some,
    ensures
        progress.fields(fields, count) == progress.fields(fields, failed_at),
    decreases count - failed_at,
{
    if failed_at < count {
        lemma_fields_after_failure(progress, fields, failed_at, count - 1);
        lemma_field_attrs_after_failure(
            progress.fields(fields, count - 1),
            (count - 1) as usize,
            fields[count - 1]@,
            0,
            fields[count - 1]@.len() as int,
        );
    }
}

/// Once reading has failed, the attributes of the type that follow change
/// nothing.
pub proof fn lemma_type_attrs_after_failure(
    progress: Progress,
    attrs: Seq<TypeAttr>,
    failed_at: int,
    count: int,
)
    requires
        failed_at <= count,
        progress.type_attrs(attrs, failed_at).failed is Some,
    ensures
        progress.type_attrs(attrs, count) == progress.type_attrs(attrs, failed_at),
    decreases count - failed_at,
{
    if failed_at < count {
        lemma_type_attrs_after_failure(progress, attrs, failed_at, count - 1);
    }
}

/// Reads the declaration of a widget: `kind` tells what it declares,
/// `fields` holds the attributes of each field and `attrs` those of the
/// type.
pub fn read_attrs(kind: StructKind, fields: &Vec<Vec<FieldAttr>>, attrs: &Vec<TypeAttr>) -> (reading:
    Reading)
    ensures
        reading@.result == read(kind, fields@, attrs@).outcome(),
        reading@.notes == read(kind, fields@, attrs@).notes,
{
    let mut notes: Vec<Note> = Vec::new();
    match kind {
        StructKind::Named | StructKind::Unnamed => {},
        _ => {
            return Reading { result: Err(DeriveError::NotStruct), notes };
        },
    }
    let mut core: Option<usize> = None;
    let mut layout_data: Option<usize> = None;
    let mut children: Vec<Child> = Vec::new();
    let ghost start = Progress::start();
    let field_count: usize = fields.len();
    for f in 0..field_count
        invariant
            kind == StructKind::Named || kind == StructKind::Unnamed,
            field_count == fields@.len(),
            start == Progress::start(),
            start.fields(fields@, f as int) == (Progress {
                core,
                layout_data,
                children: children@,
                notes: notes@,
                ..start
            }),
    {
        let field_attrs = &fields[f];
        let attr_count: usize = field_attrs.len();
        let ghost before = start.fields(fields@, f as int);
        for a in 0..attr_count
            invariant
                kind == StructKind::Named || kind == StructKind::Unnamed,
                f < field_count == fields@.len(),
                field_attrs == &fields@[f as int],
                attr_count == field_attrs@.len(),
                start == Progress::start(),
                before == start.fields(fields@, f as int),
                before.field_attrs(f, field_attrs@, a as int) == (Progress {
                    core,
                    layout_data,
                    children: children@,
                    notes: notes@,
                    ..start
                }),
        {
            match &field_attrs[a] {
                FieldAttr::Core => {
                    if core.is_none() {
                        core = Some(f);
                    } else {
                        notes.push(Note::MultipleCore { field: f, attr: a });
                    }
                },
                FieldAttr::LayoutData { expected_type } => {
                    if layout_data.is_none() {
                        if !*expected_type {
                            notes.push(Note::LayoutDataType { field: f, attr: a });
                        }
                        layout_data = Some(f);
                    } else {
                        notes.push(Note::MultipleLayoutData { field: f, attr: a });
                    }
                },
                FieldAttr::Widget(input) => {
                    match WidgetAttrArgs::parse(input) {
                        Ok(args) => {
                            children.push(Child { field: f, attr: a, args });
                        },
                        Err(error) => {
                            proof {
                                let failed = before.field_attrs(f, field_attrs@, a as int + 1);
                                assert(field_attrs@[a as int] == FieldAttr::Widget(*input));
                                assert(failed.failed == Some(
                                    DeriveError::Child { field: f, attr: a, error },
                                ));
                                assert(failed.notes == notes@);
                                assert(start.fields(fields@, f as int + 1) == before.field_attrs(
                                    f,
                                    fields@[f as int]@,
                                    fields@[f as int]@.len() as int,
                                ));
                                lemma_field_attrs_after_failure(
                                    before,
                                    f,
                                    field_attrs@,
                                    a as int + 1,
                                    attr_count as int,
                                );
                                lemma_fields_after_failure(
                                    start,
                                    fields@,
                                    f as int + 1,
                                    field_count as int,
                                );
                                lemma_type_attrs_after_failure(
                                    start.fields(fields@, field_count as int),
                                    attrs@,
                                    0,
                                    attrs@.len() as int,
                                );
                            }
                            return Reading {
                                result: Err(DeriveError::Child { field: f, attr: a, error }),
                                notes,
                            };
                        },
                    }
                },
                FieldAttr::Other => {},
            }
        }
    }
    let mut widget: Option<(usize, WidgetArgs)> = None;
    let mut handler: Option<usize> = None;
    let ghost read_fields = start.fields(fields@, field_count as int);
    let type_count: usize = attrs.len();
    for t in 0..type_count
        invariant
            kind == StructKind::Named || kind == StructKind::Unnamed,
            type_count == attrs@.len(),
            start == Progress::start(),
            read_fields == start.fields(fields@, fields@.len() as int),
            read_fields.type_attrs(attrs@, t as int) == (Progress {
                core,
                layout_data,
                children: children@,
                widget,
                handler,
                notes: notes@,
                failed: None,
            }),
    {
        match &attrs[t] {
            TypeAttr::Widget(input) => {
                if widget.is_none() {
                    match WidgetArgs::parse(input) {
                        Ok(args) => {
                            widget = Some((t, args));
                        },
                        Err(error) => {
                            proof {
                                let failed = read_fields.type_attrs(attrs@, t as int + 1);
                                assert(attrs@[t as int] == TypeAttr::Widget(*input));
                                assert(failed.failed == Some(
                                    DeriveError::Widget { attr: t, error },
                                ));
                                assert(failed.notes == notes@);
                                lemma_type_attrs_after_failure(
                                    read_fields,
                                    attrs@,
                                    t as int + 1,
                                    type_count as int,
                                );
                            }
                            return Reading {
                                result: Err(DeriveError::Widget { attr: t, error }),
                                notes,
                            };
                        },
                    }
                } else {
                    notes.push(Note::MultipleWidget { attr: t });
                }
            },
            TypeAttr::Handler { parses } => {
                if handler.is_none() {
                    if *parses {
                        handler = Some(t);
                    } else {
                        proof {
                            lemma_type_attrs_after_failure(
                                read_fields,
                                attrs@,
                                t as int + 1,
                                type_count as int,
                            );
                        }
                        return Reading { result: Err(DeriveError::Handler { attr: t }), notes };
                    }
                } else {
                    notes.push(Note::MultipleHandler { attr: t });
                }
            },
            TypeAttr::Other => {},
        }
    }
    let result = match core {
        None => Err(DeriveError::NoCore),
        Some(core) => match widget {
            None => Err(DeriveError::NoWidget),
            Some((widget_attr, widget)) => Ok(
                Args { core, layout_data, widget_attr, widget, handler, children },
            ),
        },
    };
    Reading { result, notes }
}

/// Why a field of a widget built in place is refused.
#[derive(Clone, Copy, Debug, PartialEq, Eq, Structural)]
pub enum FieldError {
    /// The type of what the field reports is given, and the field is no
    /// child.
    MsgOnNonWidget,
    /// The type of what the field reports is given, and so is the type of
    /// the field.
    MsgOnFixedType,
}

/// Whether a field may give the type of what it reports: only a child may,
/// and only one whose own type is left open. That the field is no child is
/// told first.
pub fn msg_restriction(is_widget: bool, fixed_type: bool) -> (result: Result<(), FieldError>)
    ensures
        result == if !is_widget {
            Err::<(), FieldError>(FieldError::MsgOnNonWidget)
        } else if fixed_type {
            Err::<(), FieldError>(FieldError::MsgOnFixedType)
        } else {
            Ok::<(), FieldError>(())
        },
{
    if !is_widget {
        Err(FieldError::MsgOnNonWidget)
    } else if fixed_type {
        Err(FieldError::MsgOnFixedType)
    } else {
        Ok(())
    }
}

} // verus!

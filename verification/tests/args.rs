use kas::args::{
    AttrInput, Given, GridPos, Lit, ParseError, PosError, Token, WidgetArgs, WidgetAttrArgs, Word,
};

fn none() -> WidgetAttrArgs {
    WidgetAttrArgs { col: None, row: None, cspan: None, rspan: None, handler: None }
}

fn given(n: u32) -> Option<Given> {
    Some(Given { at: 0, lit: Lit::Int(n) })
}

fn other() -> Option<Given> {
    Some(Given { at: 0, lit: Lit::Other })
}

fn key(word: Word) -> Token {
    Token::Ident(word)
}

fn num(n: u32) -> Token {
    Token::Lit(Lit::Int(n))
}

fn attr_args(tokens: &[Token]) -> Result<WidgetAttrArgs, ParseError> {
    WidgetAttrArgs::parse(&AttrInput::Group(tokens.to_vec()))
}

fn widget_args(tokens: &[Token]) -> Result<WidgetArgs, ParseError> {
    WidgetArgs::parse(&AttrInput::Group(tokens.to_vec()))
}

#[test]
fn grid_pos_fills_in_what_is_left_out() {
    assert_eq!(none().as_pos(), Ok(GridPos(0, 0, 1, 1)));
    let all = WidgetAttrArgs {
        col: given(3),
        row: given(4),
        cspan: given(5),
        rspan: given(6),
        handler: Some(2),
    };
    assert_eq!(all.as_pos(), Ok(GridPos(3, 4, 5, 6)));
    let some = WidgetAttrArgs { col: given(2), rspan: given(0), ..none() };
    assert_eq!(some.as_pos(), Ok(GridPos(2, 0, 1, 0)));
}

#[test]
fn grid_pos_needs_whole_numbers() {
    let args = WidgetAttrArgs { row: other(), ..none() };
    assert_eq!(args.as_pos(), Err(PosError::ExpectedInteger(Word::Row)));
    // the first value that is no whole number is told
    let args = WidgetAttrArgs {
        col: given(1),
        row: given(1),
        cspan: other(),
        rspan: other(),
        handler: None,
    };
    assert_eq!(args.as_pos(), Err(PosError::ExpectedInteger(Word::Cspan)));
    let args = WidgetAttrArgs { col: other(), rspan: other(), ..none() };
    assert_eq!(args.as_pos(), Err(PosError::ExpectedInteger(Word::Col)));
    let args = WidgetAttrArgs { rspan: other(), ..none() };
    assert_eq!(args.as_pos(), Err(PosError::ExpectedInteger(Word::Rspan)));
}

#[test]
fn no_arguments_where_nothing_follows() {
    assert_eq!(WidgetAttrArgs::parse(&AttrInput::Empty), Ok(none()));
    assert_eq!(
        WidgetArgs::parse(&AttrInput::Empty),
        Ok(WidgetArgs { layout: None, is_frame: false })
    );
}

#[test]
fn arguments_have_to_be_in_parentheses() {
    assert_eq!(WidgetAttrArgs::parse(&AttrInput::Other), Err(ParseError::ExpectedParentheses));
    assert_eq!(WidgetArgs::parse(&AttrInput::Other), Err(ParseError::ExpectedParentheses));
}

#[test]
fn child_arguments_in_any_order() {
    let tokens = [
        key(Word::Row),
        Token::Equals,
        num(2),
        Token::Comma,
        key(Word::Handler),
        Token::Equals,
        key(Word::Other),
        Token::Comma,
        key(Word::Col),
        Token::Equals,
        Token::Lit(Lit::Other),
    ];
    assert_eq!(
        attr_args(&tokens),
        Ok(WidgetAttrArgs {
            col: Some(Given { at: 10, lit: Lit::Other }),
            row: Some(Given { at: 2, lit: Lit::Int(2) }),
            cspan: None,
            rspan: None,
            handler: Some(6),
        })
    );
}

#[test]
fn all_child_arguments() {
    let tokens = [
        key(Word::Col), Token::Equals, num(1), Token::Comma,
        key(Word::Row), Token::Equals, num(2), Token::Comma,
        key(Word::Cspan), Token::Equals, num(3), Token::Comma,
        key(Word::Rspan), Token::Equals, num(4), Token::Comma,
        key(Word::Handler), Token::Equals, key(Word::Col),
    ];
    let args = attr_args(&tokens).unwrap();
    assert_eq!(args.as_pos(), Ok(GridPos(1, 2, 3, 4)));
    assert_eq!(args.handler, Some(18));
    // nothing can follow once every argument is given
    let mut more = tokens.to_vec();
    more.push(Token::Comma);
    assert_eq!(attr_args(&more), Err(ParseError::Unexpected(20)));
    more.push(key(Word::Col));
    assert_eq!(attr_args(&more), Err(ParseError::Unexpected(20)));
}

#[test]
fn child_argument_given_twice_is_refused() {
    let tokens = [
        key(Word::Col), Token::Equals, num(1), Token::Comma,
        key(Word::Col), Token::Equals, num(2),
    ];
    assert_eq!(attr_args(&tokens), Err(ParseError::Unexpected(4)));
}

#[test]
fn child_arguments_that_end_early() {
    assert_eq!(attr_args(&[]), Err(ParseError::Unexpected(0)));
    assert_eq!(attr_args(&[key(Word::Col)]), Err(ParseError::Unexpected(1)));
    assert_eq!(attr_args(&[key(Word::Col), Token::Equals]), Err(ParseError::Unexpected(2)));
    let tokens = [key(Word::Col), Token::Equals, num(1), Token::Comma];
    assert_eq!(attr_args(&tokens), Err(ParseError::Unexpected(4)));
}

#[test]
fn child_arguments_with_a_wrong_token() {
    assert_eq!(attr_args(&[Token::Comma]), Err(ParseError::Unexpected(0)));
    assert_eq!(attr_args(&[key(Word::Layout)]), Err(ParseError::Unexpected(0)));
    assert_eq!(attr_args(&[key(Word::Other), Token::Equals, num(1)]), Err(ParseError::Unexpected(0)));
    assert_eq!(attr_args(&[key(Word::Col), Token::Comma, num(1)]), Err(ParseError::Unexpected(1)));
    assert_eq!(attr_args(&[key(Word::Col), Token::Other]), Err(ParseError::Unexpected(1)));
    // a place takes a literal, a handler an identifier
    let tokens = [key(Word::Col), Token::Equals, key(Word::Other)];
    assert_eq!(attr_args(&tokens), Err(ParseError::Unexpected(2)));
    let tokens = [key(Word::Handler), Token::Equals, num(1)];
    assert_eq!(attr_args(&tokens), Err(ParseError::Unexpected(2)));
    let tokens = [key(Word::Col), Token::Equals, num(1), Token::Equals];
    assert_eq!(attr_args(&tokens), Err(ParseError::Unexpected(3)));
    let tokens = [key(Word::Col), Token::Equals, num(1), key(Word::Row)];
    assert_eq!(attr_args(&tokens), Err(ParseError::Unexpected(3)));
}

#[test]
fn widget_arguments() {
    let frame = key(Word::Frame);
    let layout = key(Word::Layout);
    let name = key(Word::Other);
    assert_eq!(widget_args(&[frame]), Ok(WidgetArgs { layout: None, is_frame: true }));
    assert_eq!(
        widget_args(&[layout, Token::Equals, name]),
        Ok(WidgetArgs { layout: Some(2), is_frame: false })
    );
    assert_eq!(
        widget_args(&[layout, Token::Equals, name, Token::Comma, frame]),
        Ok(WidgetArgs { layout: Some(2), is_frame: true })
    );
    assert_eq!(
        widget_args(&[frame, Token::Comma, layout, Token::Equals, name]),
        Ok(WidgetArgs { layout: Some(4), is_frame: true })
    );
    // the layout may have any name
    assert_eq!(
        widget_args(&[layout, Token::Equals, frame]),
        Ok(WidgetArgs { layout: Some(2), is_frame: false })
    );
}

#[test]
fn widget_arguments_that_are_refused() {
    let frame = key(Word::Frame);
    let layout = key(Word::Layout);
    let name = key(Word::Other);
    assert_eq!(widget_args(&[]), Err(ParseError::Unexpected(0)));
    assert_eq!(widget_args(&[name]), Err(ParseError::Unexpected(0)));
    assert_eq!(widget_args(&[key(Word::Col)]), Err(ParseError::Unexpected(0)));
    assert_eq!(widget_args(&[frame, Token::Comma]), Err(ParseError::Unexpected(2)));
    assert_eq!(widget_args(&[frame, frame]), Err(ParseError::Unexpected(1)));
    assert_eq!(widget_args(&[frame, Token::Comma, frame]), Err(ParseError::Unexpected(2)));
    assert_eq!(widget_args(&[layout]), Err(ParseError::Unexpected(1)));
    assert_eq!(widget_args(&[layout, Token::Equals]), Err(ParseError::Unexpected(2)));
    assert_eq!(widget_args(&[layout, Token::Equals, num(1)]), Err(ParseError::Unexpected(2)));
    assert_eq!(widget_args(&[layout, Token::Comma]), Err(ParseError::Unexpected(1)));
    assert_eq!(
        widget_args(&[layout, Token::Equals, name, Token::Comma, layout, Token::Equals, name]),
        Err(ParseError::Unexpected(4))
    );
    assert_eq!(
        widget_args(&[layout, Token::Equals, name, Token::Comma, frame, Token::Comma]),
        Err(ParseError::Unexpected(6))
    );
    assert_eq!(
        widget_args(&[frame, Token::Comma, layout, Token::Equals, name, Token::Comma, frame]),
        Err(ParseError::Unexpected(6))
    );
    assert_eq!(
        widget_args(&[frame, Token::Comma, layout, Token::Equals, name, frame]),
        Err(ParseError::Unexpected(5))
    );
}

#[test]
fn literals_from_digits() {
    assert_eq!(Lit::from_digits("0"), Lit::Int(0));
    assert_eq!(Lit::from_digits("7"), Lit::Int(7));
    assert_eq!(Lit::from_digits("120"), Lit::Int(120));
    assert_eq!(Lit::from_digits("0042"), Lit::Int(42));
    assert_eq!(Lit::from_digits("4294967295"), Lit::Int(u32::MAX));
    assert_eq!(Lit::from_digits("000000000004294967295"), Lit::Int(u32::MAX));
}

#[test]
fn literals_that_are_no_whole_number_that_fits() {
    assert_eq!(Lit::from_digits(""), Lit::Other);
    assert_eq!(Lit::from_digits("4294967296"), Lit::Other);
    assert_eq!(Lit::from_digits("4294967300"), Lit::Other);
    assert_eq!(Lit::from_digits("99999999999999999999999"), Lit::Other);
    assert_eq!(Lit::from_digits("-1"), Lit::Other);
    assert_eq!(Lit::from_digits("+1"), Lit::Other);
    assert_eq!(Lit::from_digits("1.5"), Lit::Other);
    assert_eq!(Lit::from_digits("12a"), Lit::Other);
    assert_eq!(Lit::from_digits("a12"), Lit::Other);
    assert_eq!(Lit::from_digits("١٢"), Lit::Other);
    assert_eq!(Lit::from_digits(" 1"), Lit::Other);
}

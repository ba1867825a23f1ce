//! The arguments that the declaration of a widget gives: how they are
//! written, and what they say.
//!
//! The arguments come as tokens. What a token spells is read by whoever
//! holds the source; here a token is known by its kind alone, and a value is
//! named by the place of its token.

use vstd::prelude::*;
use vstd::std_specs::iter::IteratorSpec;
use vstd::string::{axiom_spec_iter, next_postcondition};

verus! {

/// The place of a child in a grid: column, row, number of columns spanned
/// and number of rows spanned.
#[derive(Clone, Copy, Debug, PartialEq, Eq, Structural)]
pub struct GridPos(pub u32, pub u32, pub u32, pub u32);

/// What an identifier spells, as far as the arguments know words.
#[derive(Clone, Copy, Debug, PartialEq, Eq, Structural)]
pub enum Word {
    Col,
    Row,
    Cspan,
    Rspan,
    Handler,
    Layout,
    Frame,
    /// Any other identifier.
    Other,
}

/// A literal, as far as it can give a place: a whole number that fits, or
/// anything else.
#[derive(Clone, Copy, Debug, PartialEq, Eq, Structural)]
pub enum Lit {
    Int(u32),
    Other,
}

/// The number that a digit stands for, where the character is one.
pub open spec fn digit_value(c: char) -> Option<nat> {
    if '0' <= c && c <= '9' {
        Some((c as u32 - '0' as u32) as nat)
    } else {
        None
    }
}

/// Whether all of the characters are digits.
pub open spec fn all_digits(digits: Seq<char>) -> bool {
    forall|i: int| 0 <= i < digits.len() ==> digit_value(#[trigger] digits[i]) is Some
}

/// The number that the digits write in base ten; no digits write zero.
pub open spec fn decimal(digits: Seq<char>) -> nat
    decreases digits.len(),
{
    if digits.len() == 0 {
        0
    } else {
        decimal(digits.drop_last()) * 10 + match digit_value(digits.last()) {
            Some(d) => d,
            None => 0,
        }
    }
}

/// The literal that is written with these characters in base ten: a whole
/// number where there is at least one character, all are digits and the
/// number fits; anything else where not.
pub open spec fn lit_of_digits(digits: Seq<char>) -> Lit {
    if digits.len() > 0 && all_digits(digits) && decimal(digits) <= u32::MAX {
        Lit::Int(decimal(digits) as u32)
    } else {
        Lit::Other
    }
}

/// More digits write no smaller number.
pub proof fn lemma_decimal_grows(digits: Seq<char>, shorter: int)
    requires
        0 <= shorter <= digits.len(),
    ensures
        decimal(digits.take(shorter)) <= decimal(digits),
    decreases digits.len() - shorter,
{
    if shorter < digits.len() {
        lemma_decimal_grows(digits, shorter + 1);
        assert(digits.take(shorter + 1).drop_last() =~= digits.take(shorter));
    } else {
        assert(digits.take(shorter) =~= digits);
    }
}

/// The number that the digit `c` stands for, where it is one.
fn digit_of(c: char) -> (d: Option<u32>)
    ensures
        match d {
            Some(d) => digit_value(c) == Some(d as nat) && d <= 9,
            None => digit_value(c) is None,
        },
{
    if c >= '0' && c <= '9' {
        Some(c as u32 - '0' as u32)
    } else {
        None
    }
}

impl Lit {
    /// The literal that is written with `digits` in base ten.
    pub fn from_digits(digits: &str) -> (lit: Lit)
        ensures
            lit == lit_of_digits(digits@),
    {
        broadcast use {axiom_spec_iter, next_postcondition};

        let ghost all = digits@;
        let ghost mut seen: int = 0;
        let mut value: u32 = 0;
        let mut any = false;
        let mut chars = digits.chars();
        assert(all.take(0) =~= Seq::<char>::empty());
        loop
            invariant
                all == digits@,
                0 <= seen <= all.len(),
                chars.remaining() == all.skip(seen),
                all_digits(all.take(seen)),
                value == decimal(all.take(seen)),
                any == (seen > 0),
            decreases all.len() - seen,
        {
            match chars.next() {
                None => {
                    assert(all.take(seen) =~= all);
                    return if any {
                        Lit::Int(value)
                    } else {
                        Lit::Other
                    };
                },
                Some(c) => {
                    assert(c == all[seen]);
                    proof {
                        assert(all.take(seen + 1).drop_last() =~= all.take(seen));
                        assert(all.skip(seen).drop_first() =~= all.skip(seen + 1));
                        lemma_decimal_grows(all, seen + 1);
                    }
                    let d = match digit_of(c) {
                        Some(d) => d,
                        None => {
                            return Lit::Other;
                        },
                    };
                    if value > (u32::MAX - d) / 10 {
                        return Lit::Other;
                    }
                    value = value * 10 + d;
                    any = true;
                    proof {
                        assert forall|i: int| 0 <= i < seen + 1 implies digit_value(
                            #[trigger] all.take(seen + 1)[i],
                        ) is Some by {
                            if i < seen {
                                assert(all.take(seen + 1)[i] == all.take(seen)[i]);
                            }
                        }
                        seen = seen + 1;
                    }
                },
            }
        }
    }
}

/// A token of an argument list.
#[derive(Clone, Copy, Debug, PartialEq, Eq, Structural)]
pub enum Token {
    /// An identifier.
    Ident(Word),
    /// The sign `=`.
    Equals,
    /// A comma.
    Comma,
    /// A literal.
    Lit(Lit),
    /// Any other token.
    Other,
}

/// What follows the name of an attribute.
#[derive(Clone, Debug, PartialEq, Eq)]
pub enum AttrInput {
    /// Nothing.
    Empty,
    /// Tokens in parentheses.
    Group(Vec<Token>),
    /// Anything else.
    Other,
}

/// Why arguments could not be read.
#[derive(Clone, Copy, Debug, PartialEq, Eq, Structural)]
pub enum ParseError {
    /// What follows the name of the attribute is not in parentheses.
    ExpectedParentheses,
    /// The token at this place in the parentheses is not what may stand
    /// there; where the place is behind the last token, a token is missing.
    Unexpected(usize),
}

/// Why arguments give no place in a grid.
#[derive(Clone, Copy, Debug, PartialEq, Eq, Structural)]
pub enum PosError {
    /// The value given for this word is no whole number that fits.
    ExpectedInteger(Word),
}

/// A literal given as a value: the place of its token, and what it holds.
#[derive(Clone, Copy, Debug, PartialEq, Eq, Structural)]
pub struct Given {
    pub at: usize,
    pub lit: Lit,
}

/// The arguments given for a child: its place in a grid, and the handler of
/// what it reports. Each is there or left out. The handler is known by the
/// place of the token that names it.
#[derive(Clone, Copy, Debug, PartialEq, Eq, Structural)]
pub struct WidgetAttrArgs {
    pub col: Option<Given>,
    pub row: Option<Given>,
    pub cspan: Option<Given>,
    pub rspan: Option<Given>,
    pub handler: Option<usize>,
}

/// The whole number that a value gives: its own, `default` where the value
/// was left out, and none where it is no whole number.
pub open spec fn number_or(value: Option<Given>, default: u32) -> Option<u32> {
    match value {
        Some(given) => match given.lit {
            Lit::Int(n) => Some(n),
            Lit::Other => None,
        },
        None => Some(default),
    }
}

/// Computes `number_or`.
fn read_number(value: Option<Given>, default: u32) -> (n: Option<u32>)
    ensures
        n == number_or(value, default),
{
    match value {
        Some(given) => match given.lit {
            Lit::Int(n) => Some(n),
            Lit::Other => None,
        },
        None => Some(default),
    }
}

impl WidgetAttrArgs {
    /// No arguments given.
    pub open spec fn none() -> WidgetAttrArgs {
        WidgetAttrArgs { col: None, row: None, cspan: None, rspan: None, handler: None }
    }

    /// Whether an argument was given for `word`.
    pub open spec fn has(self, word: Word) -> bool {
        match word {
            Word::Col => self.col is Some,
            Word::Row => self.row is Some,
            Word::Cspan => self.cspan is Some,
            Word::Rspan => self.rspan is Some,
            Word::Handler => self.handler is Some,
            _ => false,
        }
    }

    /// The arguments with one more: for `word`, the value that the token
    /// `value` at place `at` holds.
    pub open spec fn with(self, word: Word, value: Token, at: int) -> WidgetAttrArgs {
        match (word, value) {
            (Word::Col, Token::Lit(lit)) => WidgetAttrArgs {
                col: Some(Given { at: at as usize, lit }),
                ..self
            },
            (Word::Row, Token::Lit(lit)) => WidgetAttrArgs {
                row: Some(Given { at: at as usize, lit }),
                ..self
            },
            (Word::Cspan, Token::Lit(lit)) => WidgetAttrArgs {
                cspan: Some(Given { at: at as usize, lit }),
                ..self
            },
            (Word::Rspan, Token::Lit(lit)) => WidgetAttrArgs {
                rspan: Some(Given { at: at as usize, lit }),
                ..self
            },
            (Word::Handler, Token::Ident(_)) => WidgetAttrArgs {
                handler: Some(at as usize),
                ..self
            },
            _ => self,
        }
    }

    /// The place that the arguments give, what is left out filled in: a
    /// column and a row left out are the first, and a span left out is a
    /// single column or row. There is none where a value given is no whole
    /// number.
    pub open spec fn pos(self) -> Result<GridPos, PosError> {
        if number_or(self.col, 0) is None {
            Err(PosError::ExpectedInteger(Word::Col))
        } else if number_or(self.row, 0) is None {
            Err(PosError::ExpectedInteger(Word::Row))
        } else if number_or(self.cspan, 1) is None {
            Err(PosError::ExpectedInteger(Word::Cspan))
        } else if number_or(self.rspan, 1) is None {
            Err(PosError::ExpectedInteger(Word::Rspan))
        } else {
            Ok(
                GridPos(
                    number_or(self.col, 0).unwrap(),
                    number_or(self.row, 0).unwrap(),
                    number_or(self.cspan, 1).unwrap(),
                    number_or(self.rspan, 1).unwrap(),
                ),
            )
        }
    }

    /// The place of the child in a grid, what is left out filled in.
    pub fn as_pos(&self) -> (pos: Result<GridPos, PosError>)
        ensures
            pos == self.pos(),
    {
        let col = match read_number(self.col, 0) {
            Some(n) => n,
            None => {
                return Err(PosError::ExpectedInteger(Word::Col));
            },
        };
        let row = match read_number(self.row, 0) {
            Some(n) => n,
            None => {
                return Err(PosError::ExpectedInteger(Word::Row));
            },
        };
        let cspan = match read_number(self.cspan, 1) {
            Some(n) => n,
            None => {
                return Err(PosError::ExpectedInteger(Word::Cspan));
            },
        };
        let rspan = match read_number(self.rspan, 1) {
            Some(n) => n,
            None => {
                return Err(PosError::ExpectedInteger(Word::Rspan));
            },
        };
        Ok(GridPos(col, row, cspan, rspan))
    }
}

/// Whether `word` names an argument of a child.
pub open spec fn is_key(word: Word) -> bool {
    word == Word::Col || word == Word::Row || word == Word::Cspan || word == Word::Rspan || word
        == Word::Handler
}

/// The arguments that the first `items` arguments of a list give. Each
/// argument takes three tokens, a word, `=` and a value, and a comma
/// separates it from the next.
pub open spec fn args_upto(tokens: Seq<Token>, items: int) -> WidgetAttrArgs
    decreases items,
{
    if items <= 0 {
        WidgetAttrArgs::none()
    } else {
        let at = 4 * (items - 1);
        let before = args_upto(tokens, items - 1);
        match tokens[at] {
            Token::Ident(word) => before.with(word, tokens[at + 2], at + 2),
            _ => before,
        }
    }
}

/// Whether the token at place `at` of an argument list may stand there,
/// given the tokens before it. The places take turns: a word that names an
/// argument not given before, `=`, a value, a comma. The value of a handler
/// is an identifier, every other value a literal.
pub open spec fn slot_ok(tokens: Seq<Token>, at: int) -> bool {
    let token = tokens[at];
    if at % 4 == 0 {
        match token {
            Token::Ident(word) => is_key(word) && !args_upto(tokens, at / 4).has(word),
            _ => false,
        }
    } else if at % 4 == 1 {
        token == Token::Equals
    } else if at % 4 == 2 {
        if tokens[at - 2] == Token::Ident(Word::Handler) {
            token is Ident
        } else {
            token is Lit
        }
    } else {
        token == Token::Comma
    }
}

/// Whether `tokens` may begin an argument list: every token may stand where
/// it stands.
pub open spec fn viable(tokens: Seq<Token>) -> bool {
    forall|at: int| 0 <= at < tokens.len() ==> slot_ok(tokens, at)
}

/// Whether `tokens` is an argument list: it may begin one, and ends with a
/// value.
pub open spec fn complete(tokens: Seq<Token>) -> bool {
    viable(tokens) && tokens.len() % 4 == 3
}

/// Whether a reading of `tokens` failed at the right place: the tokens
/// before the place may begin a list, and the token at the place may not
/// follow them, or the tokens end there short of a list.
pub open spec fn fails_at(tokens: Seq<Token>, at: int) -> bool {
    &&& 0 <= at <= tokens.len()
    &&& forall|p: int| 0 <= p < at ==> slot_ok(tokens, p)
    &&& if at < tokens.len() {
        !slot_ok(tokens, at)
    } else {
        tokens.len() % 4 != 3
    }
}

/// What comes of reading an argument list.
pub open spec fn parsed_list(tokens: Seq<Token>, result: Result<WidgetAttrArgs, ParseError>) -> bool {
    match result {
        Ok(args) => complete(tokens) && args == args_upto(tokens, (tokens.len() as int + 1) / 4),
        Err(ParseError::Unexpected(at)) => fails_at(tokens, at as int),
        Err(ParseError::ExpectedParentheses) => false,
    }
}

/// A reading ends in one way only: a list gives one set of arguments, and a
/// reading that fails, fails at one place.
pub proof fn lemma_parsed_list_determined(
    tokens: Seq<Token>,
    first: Result<WidgetAttrArgs, ParseError>,
    second: Result<WidgetAttrArgs, ParseError>,
)
    requires
        parsed_list(tokens, first),
        parsed_list(tokens, second),
    ensures
        first == second,
{
    match (first, second) {
        (Err(ParseError::Unexpected(a)), Err(ParseError::Unexpected(b))) => {
            if a < b {
                assert(slot_ok(tokens, a as int));
            } else if b < a {
                assert(slot_ok(tokens, b as int));
            }
        },
        (Ok(_), Err(ParseError::Unexpected(b))) => {
            if b < tokens.len() {
                assert(slot_ok(tokens, b as int));
            }
        },
        (Err(ParseError::Unexpected(a)), Ok(_)) => {
            if a < tokens.len() {
                assert(slot_ok(tokens, a as int));
            }
        },
        _ => {},
    }
}

/// What comes of reading an argument list: what `parsed_list` tells of.
pub open spec fn parsed_list_of(tokens: Seq<Token>) -> Result<WidgetAttrArgs, ParseError> {
    choose|result: Result<WidgetAttrArgs, ParseError>| parsed_list(tokens, result)
}

impl WidgetAttrArgs {
    /// What comes of reading what follows the name of the attribute: no
    /// arguments where nothing follows, and the arguments of the list where
    /// a list in parentheses follows.
    pub open spec fn parsed(input: AttrInput) -> Result<WidgetAttrArgs, ParseError> {
        match input {
            AttrInput::Empty => Ok(WidgetAttrArgs::none()),
            AttrInput::Other => Err(ParseError::ExpectedParentheses),
            AttrInput::Group(tokens) => parsed_list_of(tokens@),
        }
    }

    /// Reads the arguments of a child from what follows the name of its
    /// attribute.
    pub fn parse(input: &AttrInput) -> (result: Result<WidgetAttrArgs, ParseError>)
        ensures
            result == WidgetAttrArgs::parsed(*input),
            input matches AttrInput::Group(tokens) ==> parsed_list(tokens@, result),
    {
        match input {
            AttrInput::Empty => Ok(
                WidgetAttrArgs { col: None, row: None, cspan: None, rspan: None, handler: None },
            ),
            AttrInput::Other => Err(ParseError::ExpectedParentheses),
            AttrInput::Group(tokens) => {
                let result = parse_list(tokens);
                proof {
                    lemma_parsed_list_determined(tokens@, result, parsed_list_of(tokens@));
                }
                result
            },
        }
    }
}

/// Reads an argument list.
fn parse_list(tokens: &Vec<Token>) -> (result: Result<WidgetAttrArgs, ParseError>)
    ensures
        parsed_list(tokens@, result),
{
    let len: usize = tokens.len();
    let mut args = WidgetAttrArgs { col: None, row: None, cspan: None, rspan: None, handler: None };
    let mut at: usize = 0;
    let ghost mut items: int = 0;
    loop
        invariant
            len == tokens@.len(),
            at == 4 * items,
            0 <= items,
            at <= len,
            args == args_upto(tokens@, items),
            forall|p: int| 0 <= p < at ==> slot_ok(tokens@, p),
        decreases len - at,
    {
        if len - at < 3 {
            // a word, `=` and a value are due, and one of them is wanting
            if at == len {
                return Err(ParseError::Unexpected(at));
            }
            let word = match tokens[at] {
                Token::Ident(word) => word,
                _ => {
                    return Err(ParseError::Unexpected(at));
                },
            };
            if !is_free_key(&args, word) {
                return Err(ParseError::Unexpected(at));
            }
            if at + 1 == len {
                return Err(ParseError::Unexpected(at + 1));
            }
            if !is_equals(tokens[at + 1]) {
                return Err(ParseError::Unexpected(at + 1));
            }
            return Err(ParseError::Unexpected(at + 2));
        }
        let word = match tokens[at] {
            Token::Ident(word) => word,
            _ => {
                return Err(ParseError::Unexpected(at));
            },
        };
        if !is_free_key(&args, word) {
            return Err(ParseError::Unexpected(at));
        }
        if !is_equals(tokens[at + 1]) {
            return Err(ParseError::Unexpected(at + 1));
        }
        let value = tokens[at + 2];
        let ghost before = args;
        match (word, value) {
            (Word::Col, Token::Lit(lit)) => {
                args.col = Some(Given { at: at + 2, lit });
            },
            (Word::Row, Token::Lit(lit)) => {
                args.row = Some(Given { at: at + 2, lit });
            },
            (Word::Cspan, Token::Lit(lit)) => {
                args.cspan = Some(Given { at: at + 2, lit });
            },
            (Word::Rspan, Token::Lit(lit)) => {
                args.rspan = Some(Given { at: at + 2, lit });
            },
            (Word::Handler, Token::Ident(_)) => {
                args.handler = Some(at + 2);
            },
            _ => {
                return Err(ParseError::Unexpected(at + 2));
            },
        }
        proof {
            assert(args == before.with(word, value, at + 2));
            assert(args == args_upto(tokens@, items + 1));
        }
        if at + 3 == len {
            proof {
                assert((len + 1) / 4 == items + 1);
            }
            return Ok(args);
        }
        if !is_comma(tokens[at + 3]) {
            return Err(ParseError::Unexpected(at + 3));
        }
        at = at + 4;
        proof {
            items = items + 1;
        }
    }
}

/// Whether `word` names an argument that `args` does not hold yet.
fn is_free_key(args: &WidgetAttrArgs, word: Word) -> (free: bool)
    ensures
        free == (is_key(word) && !args.has(word)),
{
    match word {
        Word::Col => args.col.is_none(),
        Word::Row => args.row.is_none(),
        Word::Cspan => args.cspan.is_none(),
        Word::Rspan => args.rspan.is_none(),
        Word::Handler => args.handler.is_none(),
        _ => false,
    }
}

/// Whether `token` is the sign `=`.
fn is_equals(token: Token) -> (b: bool)
    ensures
        b == (token == Token::Equals),
{
    match token {
        Token::Equals => true,
        _ => false,
    }
}

/// Whether `token` is a comma.
fn is_comma(token: Token) -> (b: bool)
    ensures
        b == (token == Token::Comma),
{
    match token {
        Token::Comma => true,
        _ => false,
    }
}

/// The arguments given for a widget: the layout of its children, known by
/// the place of the token that names it, and whether the widget is a frame.
#[derive(Clone, Copy, Debug, PartialEq, Eq, Structural)]
pub struct WidgetArgs {
    pub layout: Option<usize>,
    pub is_frame: bool,
}

/// Whether the token at place `at` may stand there in the arguments of a
/// widget that begin with `frame`: `frame, layout = name`, and a comma that
/// nothing can follow.
pub open spec fn fits_frame_first(tokens: Seq<Token>, at: int) -> bool {
    if at == 0 {
        tokens[at] == Token::Ident(Word::Frame)
    } else if at == 1 || at == 5 {
        tokens[at] == Token::Comma
    } else if at == 2 {
        tokens[at] == Token::Ident(Word::Layout)
    } else if at == 3 {
        tokens[at] == Token::Equals
    } else if at == 4 {
        tokens[at] is Ident
    } else {
        false
    }
}

/// Whether the token at place `at` may stand there in the arguments of a
/// widget that begin with `layout`: `layout = name, frame`, and a comma that
/// nothing can follow.
pub open spec fn fits_layout_first(tokens: Seq<Token>, at: int) -> bool {
    if at == 0 {
        tokens[at] == Token::Ident(Word::Layout)
    } else if at == 1 {
        tokens[at] == Token::Equals
    } else if at == 2 {
        tokens[at] is Ident
    } else if at == 3 || at == 5 {
        tokens[at] == Token::Comma
    } else if at == 4 {
        tokens[at] == Token::Ident(Word::Frame)
    } else {
        false
    }
}

/// Whether the first `count` tokens may begin the arguments of a widget.
pub open spec fn begins_widget_args(tokens: Seq<Token>, count: int) -> bool {
    ||| forall|at: int| 0 <= at < count ==> fits_frame_first(tokens, at)
    ||| forall|at: int| 0 <= at < count ==> fits_layout_first(tokens, at)
}

/// The arguments that `tokens` give, where they are the arguments of a
/// widget: `frame`, `layout = name`, or both in either order.
pub open spec fn widget_args_of(tokens: Seq<Token>) -> Option<WidgetArgs> {
    if tokens.len() == 0 || !begins_widget_args(tokens, tokens.len() as int) {
        None
    } else if tokens[0] == Token::Ident(Word::Frame) {
        if tokens.len() == 1 {
            Some(WidgetArgs { layout: None, is_frame: true })
        } else if tokens.len() == 5 {
            Some(WidgetArgs { layout: Some(4), is_frame: true })
        } else {
            None
        }
    } else {
        if tokens.len() == 3 {
            Some(WidgetArgs { layout: Some(2), is_frame: false })
        } else if tokens.len() == 5 {
            Some(WidgetArgs { layout: Some(2), is_frame: true })
        } else {
            None
        }
    }
}

/// What comes of reading the arguments of a widget from a list: the
/// arguments, or the first place at which the tokens cannot go on.
pub open spec fn parsed_widget_list(tokens: Seq<Token>) -> Result<WidgetArgs, ParseError> {
    match widget_args_of(tokens) {
        Some(args) => Ok(args),
        None => Err(ParseError::Unexpected(widget_args_end(tokens, 0) as usize)),
    }
}

/// The first place from `from` on at which the tokens cannot go on as the
/// arguments of a widget: behind the last token where all of them can.
pub open spec fn widget_args_end(tokens: Seq<Token>, from: int) -> int
    decreases tokens.len() - from,
{
    if 0 <= from < tokens.len() && begins_widget_args(tokens, from + 1) {
        widget_args_end(tokens, from + 1)
    } else {
        from
    }
}

impl WidgetArgs {
    /// What comes of reading what follows the name of the attribute: no
    /// arguments where nothing follows, and the arguments of the list where
    /// a list in parentheses follows.
    pub open spec fn parsed(input: AttrInput) -> Result<WidgetArgs, ParseError> {
        match input {
            AttrInput::Empty => Ok(WidgetArgs { layout: None, is_frame: false }),
            AttrInput::Other => Err(ParseError::ExpectedParentheses),
            AttrInput::Group(tokens) => parsed_widget_list(tokens@),
        }
    }

    /// Reads the arguments of a widget from what follows the name of its
    /// attribute.
    pub fn parse(input: &AttrInput) -> (result: Result<WidgetArgs, ParseError>)
        ensures
            result == WidgetArgs::parsed(*input),
    {
        match input {
            AttrInput::Empty => Ok(WidgetArgs { layout: None, is_frame: false }),
            AttrInput::Other => Err(ParseError::ExpectedParentheses),
            AttrInput::Group(tokens) => parse_widget_list(tokens),
        }
    }
}

/// Whether `token` is an identifier that spells `word`.
fn spells(token: Token, word: Word) -> (b: bool)
    ensures
        b == (token == Token::Ident(word)),
{
    match token {
        Token::Ident(w) => w == word,
        _ => false,
    }
}

/// Whether `token` is an identifier.
fn is_ident(token: Token) -> (b: bool)
    ensures
        b == (token is Ident),
{
    match token {
        Token::Ident(_) => true,
        _ => false,
    }
}

/// Reads the arguments of a widget from a list.
fn parse_widget_list(tokens: &Vec<Token>) -> (result: Result<WidgetArgs, ParseError>)
    ensures
        result == parsed_widget_list(tokens@),
{
    let len: usize = tokens.len();
    let mut layout: Option<usize> = None;
    let mut is_frame = false;
    let mut at: usize = 0;
    let ghost frame_first = len > 0 && tokens@[0] == Token::Ident(Word::Frame);
    loop
        invariant
            len == tokens@.len(),
            at <= len,
            frame_first == (len > 0 && tokens@[0] == Token::Ident(Word::Frame)),
            widget_args_end(tokens@, 0) == widget_args_end(tokens@, at as int),
            at > 0 ==> frame_first == forall|p: int|
                0 <= p < at ==> fits_frame_first(tokens@, p),
            at > 0 ==> !frame_first == forall|p: int|
                0 <= p < at ==> fits_layout_first(tokens@, p),
            ({
                ||| at == 0 && layout is None && !is_frame
                ||| at == 2 && layout is None && is_frame && frame_first
                ||| at == 4 && layout == Some(2usize) && !is_frame && !frame_first
                ||| at == 6 && layout == Some(4usize) && is_frame && frame_first
                ||| at == 6 && layout == Some(2usize) && is_frame && !frame_first
            }),
        decreases len - at,
    {
        if at == len {
            proof {
                lemma_widget_args_stop(tokens@, at as int, frame_first);
            }
            return Err(ParseError::Unexpected(at));
        }
        if layout.is_none() && spells(tokens[at], Word::Layout) {
            if at + 1 == len || !is_equals(tokens[at + 1]) {
                proof {
                    lemma_widget_args_go(tokens@, at as int, frame_first);
                    lemma_widget_args_stop(tokens@, at as int + 1, frame_first);
                }
                return Err(ParseError::Unexpected(at + 1));
            }
            if at + 2 == len || !is_ident(tokens[at + 2]) {
                proof {
                    lemma_widget_args_go(tokens@, at as int, frame_first);
                    lemma_widget_args_go(tokens@, at as int + 1, frame_first);
                    lemma_widget_args_stop(tokens@, at as int + 2, frame_first);
                }
                return Err(ParseError::Unexpected(at + 2));
            }
            proof {
                lemma_widget_args_go(tokens@, at as int, frame_first);
                lemma_widget_args_go(tokens@, at as int + 1, frame_first);
                lemma_widget_args_go(tokens@, at as int + 2, frame_first);
            }
            layout = Some(at + 2);
            at = at + 3;
        } else if !is_frame && spells(tokens[at], Word::Frame) {
            proof {
                lemma_widget_args_go(tokens@, at as int, frame_first);
            }
            is_frame = true;
            at = at + 1;
        } else {
            proof {
                lemma_widget_args_stop(tokens@, at as int, frame_first);
            }
            return Err(ParseError::Unexpected(at));
        }
        if at == len {
            return Ok(WidgetArgs { layout, is_frame });
        }
        if !is_comma(tokens[at]) {
            proof {
                lemma_widget_args_stop(tokens@, at as int, frame_first);
            }
            return Err(ParseError::Unexpected(at));
        }
        proof {
            lemma_widget_args_go(tokens@, at as int, frame_first);
        }
        at = at + 1;
    }
}

/// Where the tokens can go on by one more, the place at which they cannot
/// lies further on.
proof fn lemma_widget_args_go(tokens: Seq<Token>, at: int, frame_first: bool)
    requires
        0 <= at < tokens.len(),
        frame_first == (tokens[0] == Token::Ident(Word::Frame)),
        frame_first ==> forall|p: int| 0 <= p <= at ==> fits_frame_first(tokens, p),
        !frame_first ==> forall|p: int| 0 <= p <= at ==> fits_layout_first(tokens, p),
    ensures
        widget_args_end(tokens, at) == widget_args_end(tokens, at + 1),
        begins_widget_args(tokens, at + 1),
        frame_first == forall|p: int| 0 <= p < at + 1 ==> fits_frame_first(tokens, p),
        !frame_first == forall|p: int| 0 <= p < at + 1 ==> fits_layout_first(tokens, p),
{
    if frame_first {
        assert(!fits_layout_first(tokens, 0));
    } else {
        assert(!fits_frame_first(tokens, 0));
    }
}

/// Where the tokens cannot go on by one more, or end, that is the place at
/// which they cannot go on; and they are no arguments unless they end there
/// behind a value.
proof fn lemma_widget_args_stop(tokens: Seq<Token>, at: int, frame_first: bool)
    requires
        0 <= at <= tokens.len(),
        frame_first == (tokens.len() > 0 && tokens[0] == Token::Ident(Word::Frame)),
        at > 0 ==> frame_first == forall|p: int| 0 <= p < at ==> fits_frame_first(tokens, p),
        at > 0 ==> !frame_first == forall|p: int| 0 <= p < at ==> fits_layout_first(tokens, p),
        at < tokens.len() ==> if at == 0 {
            !fits_frame_first(tokens, 0) && !fits_layout_first(tokens, 0)
        } else if frame_first {
            !fits_frame_first(tokens, at)
        } else {
            !fits_layout_first(tokens, at)
        },
        at == tokens.len() ==> if frame_first {
            at != 1 && at != 5
        } else {
            at != 3 && at != 5
        },
    ensures
        widget_args_end(tokens, at) == at,
        widget_args_of(tokens) is None,
{
    if at < tokens.len() {
        if frame_first {
            assert(!fits_layout_first(tokens, 0));
        } else if at > 0 {
            assert(!fits_frame_first(tokens, 0));
        }
        assert(!begins_widget_args(tokens, at + 1));
        if begins_widget_args(tokens, tokens.len() as int) {
            assert(fits_frame_first(tokens, at) || fits_layout_first(tokens, at));
            assert(fits_frame_first(tokens, 0) || fits_layout_first(tokens, 0));
        }
    } else if begins_widget_args(tokens, tokens.len() as int) && tokens.len() > 0 {
        assert(fits_frame_first(tokens, 0) || fits_layout_first(tokens, 0));
    }
}

} // verus!

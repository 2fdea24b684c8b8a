//! The tokenizer. It is fed the source line by line and hands out tokens;
//! block comments nest and may run over several lines.

use vstd::prelude::*;
use vstd::string::*;
use std::collections::VecDeque;
use crate::error::{Error, ErrorView};
use crate::pos::{CharPos, Pos};
use crate::token::{tokens_view, Token, TokenName, TokenView};

verus! {

/// The kind of token that the character starts; `Some(None)` for white
/// space, `None` for a character that no token holds.
pub open spec fn classify(c: char) -> Option<Option<TokenName>> {
    if ('A' <= c && c <= 'Z') || ('a' <= c && c <= 'z') || c == '_' {
        Some(Some(TokenName::Identifier { dollar: false }))
    } else if c == '$' {
        Some(Some(TokenName::Identifier { dollar: true }))
    } else if '0' <= c && c <= '9' {
        Some(Some(TokenName::Number { scientific: false }))
    } else if c == '"' {
        Some(Some(TokenName::String))
    } else if c == ' ' || c == '\t' || c == '\n' || c == '\x0C' || c == '\r' {
        Some(None)
    } else if c == '+' {
        Some(Some(TokenName::Plus))
    } else if c == '-' {
        Some(Some(TokenName::Minus))
    } else if c == '*' {
        Some(Some(TokenName::Asterisk))
    } else if c == '^' {
        Some(Some(TokenName::Circumflex))
    } else if c == '/' {
        Some(Some(TokenName::Slash))
    } else if c == '=' {
        Some(Some(TokenName::Equal))
    } else if c == '!' {
        Some(Some(TokenName::Exclamation))
    } else if c == '<' {
        Some(Some(TokenName::Less))
    } else if c == '>' {
        Some(Some(TokenName::Greater))
    } else if c == '&' {
        Some(Some(TokenName::Ampersand))
    } else if c == '|' {
        Some(Some(TokenName::Bar))
    } else if c == ':' {
        Some(Some(TokenName::Colon))
    } else if c == ';' {
        Some(Some(TokenName::Semicolon))
    } else if c == ',' {
        Some(Some(TokenName::Comma))
    } else if c == '.' {
        Some(Some(TokenName::Dot))
    } else if c == '(' {
        Some(Some(TokenName::OpeningParen))
    } else if c == ')' {
        Some(Some(TokenName::ClosingParen))
    } else if c == '{' {
        Some(Some(TokenName::OpeningBrace))
    } else if c == '}' {
        Some(Some(TokenName::ClosingBrace))
    } else if c == '[' {
        Some(Some(TokenName::OpeningBracket))
    } else if c == ']' {
        Some(Some(TokenName::ClosingBracket))
    } else {
        None
    }
}

/// The kind of the token that a pending token becomes when a character of
/// kind `next` follows it at once; `None` where the character does not
/// continue the token.
pub open spec fn merged(pending: TokenName, next: TokenName) -> Option<TokenName> {
    match (pending, next) {
        (TokenName::Identifier { dollar }, TokenName::Identifier { .. }) => Some(TokenName::Identifier { dollar }),
        (TokenName::Identifier { dollar }, TokenName::Number { .. }) => Some(TokenName::Identifier { dollar }),
        (TokenName::Number { scientific }, TokenName::Number { .. }) => Some(TokenName::Number { scientific }),
        (TokenName::Number { scientific }, TokenName::Dot) => Some(TokenName::Number { scientific }),
        (TokenName::Dot, TokenName::Number { .. }) => Some(TokenName::Number { scientific: false }),
        (TokenName::Exclamation, TokenName::Equal) => Some(TokenName::ExclamationEqual),
        (TokenName::Equal, TokenName::Equal) => Some(TokenName::DoubleEqual),
        (TokenName::Ampersand, TokenName::Ampersand) => Some(TokenName::DoubleAmpersand),
        (TokenName::Bar, TokenName::Bar) => Some(TokenName::DoubleBar),
        (TokenName::Less, TokenName::Less) => Some(TokenName::DoubleLess),
        (TokenName::Greater, TokenName::Greater) => Some(TokenName::DoubleGreater),
        _ => None,
    }
}

/// The state of the tokenizer within one line.
pub struct Scan {
    /// The tokens found on the line so far.
    pub tokens: Seq<TokenView>,
    /// Where each block comment that is still open started, the innermost
    /// last.
    pub comment: Seq<CharPos>,
    /// The kind of the token that is being read, if one is.
    pub pending: Option<TokenName>,
    /// The column at which that token starts.
    pub start: int,
    /// The characters being read stand inside a string literal.
    pub string: bool,
}

/// What one character does to the tokenizer.
pub enum Step {
    /// Go on with the next character, or with the one after it where the
    /// flag is set.
    Next(Scan, bool),
    /// The rest of the line is a comment.
    Stop(Scan),
    Fail(Scan, ErrorView),
}

/// The state at the start of a line on which these block comments are open.
pub open spec fn start_of_line(comment: Seq<CharPos>) -> Scan {
    Scan { tokens: seq![], comment, pending: None, start: 0, string: false }
}

/// The token that is pending, as it is when it ends before `column`.
pub open spec fn finished(text: Seq<char>, line: usize, state: Scan, column: int) -> TokenView
    recommends
        state.pending is Some,
{
    TokenView {
        name: state.pending->Some_0,
        lexeme: text.subrange(state.start, column),
        pos: Pos {
            start: CharPos { line, column: state.start as usize },
            end: CharPos { line, column: column as usize },
        },
    }
}

/// What the character at `column` does to the tokenizer.
///
/// Inside a block comment only the marks that open and close a comment
/// count, and `//` ends the line. Inside a string literal a quote ends the
/// literal and a backslash protects the next character. Elsewhere a
/// character either continues the pending token, or starts a comment, or
/// ends the pending token and starts the next one. After the exponent mark
/// of a number a sign or a digit must follow.
pub open spec fn scan_step(text: Seq<char>, line: usize, state: Scan, column: int) -> Step
    recommends
        0 <= column < text.len(),
{
    let c = text[column];
    let peek = if column + 1 < text.len() {
        Some(text[column + 1])
    } else {
        None
    };
    let here = CharPos { line, column: column as usize };
    if state.comment.len() > 0 {
        if c == '*' && peek == Some('/') {
            Step::Next(Scan { comment: state.comment.drop_last(), ..state }, true)
        } else if c == '/' && peek == Some('*') {
            Step::Next(Scan { comment: state.comment.push(here), ..state }, true)
        } else if c == '/' && peek == Some('/') {
            Step::Stop(state)
        } else {
            Step::Next(state, false)
        }
    } else if state.string {
        if c == '"' {
            Step::Next(Scan { string: false, ..state }, false)
        } else {
            Step::Next(state, c == '\\')
        }
    } else {
        match classify(c) {
            None => Step::Fail(state, ErrorView::UnexpectedCharacter(c, here)),
            Some(next) => {
                let state = Scan { string: c == '"', ..state };
                if state.pending is Some && next is Some && merged(state.pending->Some_0, next->Some_0) is Some {
                    Step::Next(Scan { pending: merged(state.pending->Some_0, next->Some_0), ..state }, false)
                } else if state.pending is Some && state.pending->Some_0 is Number && (c == 'e' || c == 'E') {
                    match peek {
                        None => Step::Fail(state, ErrorView::UnexpectedEndOfLineAfterE(c, here)),
                        Some(after) => if after == '+' || after == '-' || ('0' <= after && after <= '9') {
                            Step::Next(Scan { pending: Some(TokenName::Number { scientific: true }), ..state }, true)
                        } else {
                            Step::Fail(state, ErrorView::UnexpectedCharacterAfterE(after, c, here))
                        },
                    }
                } else if state.pending == Some(TokenName::Slash) && next == Some(TokenName::Slash) {
                    Step::Stop(state)
                } else if state.pending == Some(TokenName::Slash) && next == Some(TokenName::Asterisk) {
                    Step::Next(
                        Scan {
                            comment: state.comment.push(CharPos { line, column: state.start as usize }),
                            pending: None,
                            ..state
                        },
                        false,
                    )
                } else {
                    Step::Next(
                        Scan {
                            tokens: if state.pending is Some {
                                state.tokens.push(finished(text, line, state, column))
                            } else {
                                state.tokens
                            },
                            pending: next,
                            start: column,
                            ..state
                        },
                        false,
                    )
                }
            },
        }
    }
}

/// What the tokenizer has made of a line: its state where it stopped, and
/// the error that stopped it, if one did.
pub struct Scanned {
    pub state: Scan,
    pub error: Option<ErrorView>,
}

/// The line read from `column` on, starting in `state`.
pub open spec fn scan(text: Seq<char>, line: usize, state: Scan, column: int) -> Scanned
    decreases text.len() - column,
{
    if column < 0 || column >= text.len() {
        Scanned { state, error: None }
    } else {
        match scan_step(text, line, state, column) {
            Step::Next(next, skip) => {
                let onward: int = if skip && column + 2 <= text.len() {
                    column + 2
                } else {
                    column + 1
                };
                scan(text, line, next, onward)
            },
            Step::Stop(last) => Scanned { state: last, error: None },
            Step::Fail(last, error) => Scanned { state: last, error: Some(error) },
        }
    }
}

/// The token stands on the line `line` of which `text` is the text: its
/// range lies on the line and is not empty, and its lexeme is the text in
/// that range.
pub open spec fn placed(text: Seq<char>, line: usize, token: TokenView) -> bool {
    &&& token.pos.start.line == line
    &&& token.pos.end.line == line
    &&& token.pos.start.column < token.pos.end.column <= text.len()
    &&& token.lexeme == text.subrange(token.pos.start.column as int, token.pos.end.column as int)
}

/// The tokens stand on the line in order, none reaching into the next, and
/// all of them end at or before `bound`.
pub open spec fn in_order(text: Seq<char>, line: usize, tokens: Seq<TokenView>, bound: int) -> bool {
    &&& forall|i: int| 0 <= i < tokens.len() ==> placed(text, line, #[trigger] tokens[i])
    &&& forall|i: int| 0 <= i < tokens.len() ==> (#[trigger] tokens[i]).pos.end.column <= bound
    &&& forall|i: int, j: int|
        0 <= i < j < tokens.len() ==> (#[trigger] tokens[i]).pos.end.column <= (#[trigger] tokens[j]).pos.start.column
}

/// The state of the tokenizer before the character at `column` is sound:
/// the pending token began before `column`, and the tokens found stand in
/// order before the pending token.
pub open spec fn sound_at(text: Seq<char>, line: usize, state: Scan, column: int) -> bool {
    &&& state.pending is Some ==> 0 <= state.start < column && state.start < text.len()
    &&& in_order(
        text,
        line,
        state.tokens,
        if state.pending is Some {
            state.start
        } else {
            column
        },
    )
}

/// The tokens of a line stand on the line in order: every token that the
/// tokenizer finds has a range on the line that is not empty, its lexeme is
/// the text in that range, and no token begins before the one before it has
/// ended. This holds whether the line ends with an error or not.
pub proof fn lemma_tokens_stand_in_order(text: Seq<char>, line: usize, state: Scan, column: int)
    requires
        text.len() <= usize::MAX,
        0 <= column,
        sound_at(text, line, state, column),
    ensures
        in_order(text, line, scan(text, line, state, column).state.tokens, text.len() as int),
    decreases text.len() - column,
{
    if column < text.len() {
        match scan_step(text, line, state, column) {
            Step::Next(next, skip) => {
                let onward: int = if skip && column + 2 <= text.len() {
                    column + 2
                } else {
                    column + 1
                };
                assert(sound_at(text, line, next, onward)) by {
                    if next.tokens != state.tokens {
                        let token = finished(text, line, state, column);
                        assert(next.tokens == state.tokens.push(token));
                        assert(placed(text, line, token));
                        assert forall|i: int| 0 <= i < next.tokens.len() implies placed(
                            text,
                            line,
                            #[trigger] next.tokens[i],
                        ) && next.tokens[i].pos.end.column <= column by {
                            if i < state.tokens.len() {
                                assert(next.tokens[i] == state.tokens[i]);
                            }
                        }
                        assert forall|i: int, j: int| 0 <= i < j < next.tokens.len() implies (
                        #[trigger] next.tokens[i]).pos.end.column <= (#[trigger] next.tokens[j]).pos.start.column by {
                            assert(next.tokens[i] == state.tokens[i]);
                            if j < state.tokens.len() {
                                assert(next.tokens[j] == state.tokens[j]);
                            }
                        }
                    }
                }
                lemma_tokens_stand_in_order(text, line, next, onward);
            },
            Step::Stop(last) => {},
            Step::Fail(last, error) => {},
        }
    }
}

/// The tokens that `read_line` adds for a line stand on that line in order.
pub proof fn lemma_line_tokens_stand_in_order(text: Seq<char>, line: usize, comment: Seq<CharPos>)
    requires
        text.len() <= usize::MAX,
    ensures
        in_order(text, line, scan(text, line, start_of_line(comment), 0).state.tokens, text.len() as int),
{
    lemma_tokens_stand_in_order(text, line, start_of_line(comment), 0);
}

/// The characters of the text.
pub fn characters(text: &str) -> (result: Vec<char>)
    ensures
        result@ == text@,
{
    let mut result: Vec<char> = Vec::new();
    for c in it: text.chars()
        invariant
            it.seq() == text@,
            result@ == text@.take(it.index() as int),
    {
        result.push(c);
        assert(text@.take(it.index() + 1) =~= text@.take(it.index() as int).push(c));
    }
    assert(text@.take(text@.len() as int) =~= text@);
    result
}

/// The kind of token that the character starts.
fn kind_of(c: char) -> (result: Option<Option<TokenName>>)
    ensures
        result == classify(c),
{
    if ('A' <= c && c <= 'Z') || ('a' <= c && c <= 'z') || c == '_' {
        Some(Some(TokenName::Identifier { dollar: false }))
    } else if c == '$' {
        Some(Some(TokenName::Identifier { dollar: true }))
    } else if '0' <= c && c <= '9' {
        Some(Some(TokenName::Number { scientific: false }))
    } else if c == '"' {
        Some(Some(TokenName::String))
    } else if c == ' ' || c == '\t' || c == '\n' || c == '\x0C' || c == '\r' {
        Some(None)
    } else if c == '+' {
        Some(Some(TokenName::Plus))
    } else if c == '-' {
        Some(Some(TokenName::Minus))
    } else if c == '*' {
        Some(Some(TokenName::Asterisk))
    } else if c == '^' {
        Some(Some(TokenName::Circumflex))
    } else if c == '/' {
        Some(Some(TokenName::Slash))
    } else if c == '=' {
        Some(Some(TokenName::Equal))
    } else if c == '!' {
        Some(Some(TokenName::Exclamation))
    } else if c == '<' {
        Some(Some(TokenName::Less))
    } else if c == '>' {
        Some(Some(TokenName::Greater))
    } else if c == '&' {
        Some(Some(TokenName::Ampersand))
    } else if c == '|' {
        Some(Some(TokenName::Bar))
    } else if c == ':' {
        Some(Some(TokenName::Colon))
    } else if c == ';' {
        Some(Some(TokenName::Semicolon))
    } else if c == ',' {
        Some(Some(TokenName::Comma))
    } else if c == '.' {
        Some(Some(TokenName::Dot))
    } else if c == '(' {
        Some(Some(TokenName::OpeningParen))
    } else if c == ')' {
        Some(Some(TokenName::ClosingParen))
    } else if c == '{' {
        Some(Some(TokenName::OpeningBrace))
    } else if c == '}' {
        Some(Some(TokenName::ClosingBrace))
    } else if c == '[' {
        Some(Some(TokenName::OpeningBracket))
    } else if c == ']' {
        Some(Some(TokenName::ClosingBracket))
    } else {
        None
    }
}

/// The kind of the token that a pending token becomes when a character of
/// kind `next` follows it at once.
fn merge(pending: TokenName, next: TokenName) -> (result: Option<TokenName>)
    ensures
        result == merged(pending, next),
{
    match (pending, next) {
        (TokenName::Identifier { dollar }, TokenName::Identifier { .. }) => Some(TokenName::Identifier { dollar }),
        (TokenName::Identifier { dollar }, TokenName::Number { .. }) => Some(TokenName::Identifier { dollar }),
        (TokenName::Number { scientific }, TokenName::Number { .. }) => Some(TokenName::Number { scientific }),
        (TokenName::Number { scientific }, TokenName::Dot) => Some(TokenName::Number { scientific }),
        (TokenName::Dot, TokenName::Number { .. }) => Some(TokenName::Number { scientific: false }),
        (TokenName::Exclamation, TokenName::Equal) => Some(TokenName::ExclamationEqual),
        (TokenName::Equal, TokenName::Equal) => Some(TokenName::DoubleEqual),
        (TokenName::Ampersand, TokenName::Ampersand) => Some(TokenName::DoubleAmpersand),
        (TokenName::Bar, TokenName::Bar) => Some(TokenName::DoubleBar),
        (TokenName::Less, TokenName::Less) => Some(TokenName::DoubleLess),
        (TokenName::Greater, TokenName::Greater) => Some(TokenName::DoubleGreater),
        _ => None,
    }
}

/// The tokenizer: the tokens read and not yet handed out, the number of
/// lines read, and where each open block comment started.
pub struct Lexer {
    prompt: bool,
    queue: VecDeque<Token>,
    line: usize,
    comment: Vec<CharPos>,
}

impl Lexer {
    /// The tokens read and not yet handed out.
    pub closed spec fn pending_tokens(&self) -> Seq<TokenView> {
        tokens_view(self.queue@)
    }

    /// The number of lines read.
    pub closed spec fn lines_read(&self) -> nat {
        self.line as nat
    }

    /// Where each block comment that is still open started.
    pub closed spec fn open_comments(&self) -> Seq<CharPos> {
        self.comment@
    }

    /// Whether a prompt is to be shown before a line is read.
    pub closed spec fn prompts(&self) -> bool {
        self.prompt
    }

    pub fn new(prompt: bool) -> (result: Lexer)
        ensures
            result.prompts() == prompt,
            result.pending_tokens() == Seq::<TokenView>::empty(),
            result.lines_read() == 0,
            result.open_comments() == Seq::<CharPos>::empty(),
    {
        let result = Lexer { prompt, queue: VecDeque::new(), line: 0, comment: Vec::new() };
        assert(result.pending_tokens() =~= Seq::<TokenView>::empty());
        result
    }

    pub fn prompt(&self) -> (result: bool)
        ensures
            result == self.prompts(),
    {
        self.prompt
    }

    fn char_pos(&self, column: usize) -> (result: CharPos)
        ensures
            result == (CharPos { line: self.line, column }),
    {
        CharPos::new(self.line, column)
    }

    /// Reads one line of the source: its tokens join the tokens that wait
    /// to be handed out. A token that the end of the line cuts off is
    /// dropped, so a line is to end with its line break.
    pub fn read_line(&mut self, text: &str) -> (result: Result<(), Error>)
        requires
            old(self).lines_read() < usize::MAX,
        ensures
            ({
                let scanned = scan(
                    text@,
                    (old(self).lines_read() + 1) as usize,
                    start_of_line(old(self).open_comments()),
                    0,
                );
                &&& final(self).prompts() == old(self).prompts()
                &&& final(self).lines_read() == old(self).lines_read() + 1
                &&& final(self).pending_tokens() == old(self).pending_tokens() + scanned.state.tokens
                &&& final(self).open_comments() == scanned.state.comment
                &&& match scanned.error {
                    None => result is Ok,
                    Some(error) => result is Err && result->Err_0@ == error,
                }
            }),
    {
        self.line += 1;
        let chars = characters(text);
        let len = chars.len();
        let mut pending: Option<TokenName> = None;
        let mut start: usize = 0;
        let mut string = false;
        let mut column: usize = 0;
        let ghost line = self.line;
        let ghost before = old(self).pending_tokens();
        let ghost mut state = start_of_line(old(self).open_comments());
        assert(before + state.tokens =~= before);
        while column < len
            invariant
                chars@ == text@,
                len == chars.len(),
                column <= len,
                start <= column,
                line == self.line,
                self.line == old(self).line + 1,
                self.prompt == old(self).prompt,
                before == old(self).pending_tokens(),
                state.pending == pending,
                state.start == start,
                state.string == string,
                state.comment == self.comment@,
                tokens_view(self.queue@) == before + state.tokens,
                scan(text@, line, start_of_line(old(self).open_comments()), 0) == scan(
                    text@,
                    line,
                    state,
                    column as int,
                ),
            decreases len - column,
        {
            let c = chars[column];
            let peek = if column + 1 < len {
                Some(chars[column + 1])
            } else {
                None
            };
            let skip_two = if column + 1 < len {
                column + 2
            } else {
                column + 1
            };
            if self.comment.len() > 0 {
                if c == '*' && peek == Some('/') {
                    self.comment.pop();
                    proof {
                        state = Scan { comment: state.comment.drop_last(), ..state };
                    }
                    column = skip_two;
                } else if c == '/' && peek == Some('*') {
                    let here = self.char_pos(column);
                    self.comment.push(here);
                    proof {
                        state = Scan { comment: state.comment.push(here), ..state };
                    }
                    column = skip_two;
                } else if c == '/' && peek == Some('/') {
                    return Ok(());
                } else {
                    column += 1;
                }
            } else if string {
                if c == '"' {
                    string = false;
                    proof {
                        state = Scan { string: false, ..state };
                    }
                    column += 1;
                } else if c == '\\' {
                    column = skip_two;
                } else {
                    column += 1;
                }
            } else {
                let next = match kind_of(c) {
                    Some(next) => next,
                    None => {
                        return Err(Error::UnexpectedCharacter(c, self.char_pos(column)));
                    },
                };
                if c == '"' {
                    string = true;
                }
                proof {
                    state = Scan { string: c == '"', ..state };
                }
                let joined = match (pending, next) {
                    (Some(pending), Some(next)) => merge(pending, next),
                    _ => None,
                };
                let number = match pending {
                    Some(TokenName::Number { .. }) => true,
                    _ => false,
                };
                let slash = match pending {
                    Some(TokenName::Slash) => true,
                    _ => false,
                };
                if joined.is_some() {
                    pending = joined;
                    proof {
                        state = Scan { pending: joined, ..state };
                    }
                    column += 1;
                } else if number && (c == 'e' || c == 'E') {
                    match peek {
                        None => {
                            return Err(Error::UnexpectedEndOfLineAfterE(c, self.char_pos(column)));
                        },
                        Some(after) => {
                            if after == '+' || after == '-' || ('0' <= after && after <= '9') {
                                pending = Some(TokenName::Number { scientific: true });
                                proof {
                                    state = Scan { pending: Some(TokenName::Number { scientific: true }), ..state };
                                }
                                column = skip_two;
                            } else {
                                return Err(Error::UnexpectedCharacterAfterE(after, c, self.char_pos(column)));
                            }
                        },
                    }
                } else if slash && next == Some(TokenName::Slash) {
                    return Ok(());
                } else if slash && next == Some(TokenName::Asterisk) {
                    let opened = self.char_pos(start);
                    self.comment.push(opened);
                    pending = None;
                    proof {
                        state = Scan { comment: state.comment.push(opened), pending: None, ..state };
                    }
                    column += 1;
                } else {
                    match pending {
                        Some(name) => {
                            let token = Token {
                                name,
                                lexeme: text.substring_char(start, column).to_owned(),
                                pos: Pos::new(self.char_pos(start), self.char_pos(column)),
                            };
                            let ghost waiting = self.queue@;
                            self.queue.push_back(token);
                            proof {
                                assert(token@ == finished(text@, line, state, column as int));
                                assert(self.queue@ == waiting.push(token));
                                assert(tokens_view(waiting.push(token)) =~= tokens_view(waiting).push(token@));
                                assert((before + state.tokens).push(token@) =~= before + state.tokens.push(token@));
                                state = Scan { tokens: state.tokens.push(token@), ..state };
                            }
                        },
                        None => {},
                    }
                    pending = next;
                    start = column;
                    proof {
                        state = Scan { pending: next, start: column as int, ..state };
                    }
                    column += 1;
                }
            }
        }
        Ok(())
    }

    /// The next token that was read; `None` when another line is needed.
    pub fn next(&mut self) -> (result: Option<Token>)
        ensures
            final(self).prompts() == old(self).prompts(),
            final(self).lines_read() == old(self).lines_read(),
            final(self).open_comments() == old(self).open_comments(),
            old(self).pending_tokens().len() == 0 ==> result is None && final(self).pending_tokens() == old(
                self,
            ).pending_tokens(),
            old(self).pending_tokens().len() > 0 ==> result is Some && result->Some_0@ == old(
                self,
            ).pending_tokens()[0] && final(self).pending_tokens() == old(self).pending_tokens().drop_first(),
    {
        let result = self.queue.pop_front();
        proof {
            if old(self).queue@.len() > 0 {
                assert(self.pending_tokens() =~= old(self).pending_tokens().drop_first());
            }
        }
        result
    }

    /// Tells the tokenizer that the input has ended: a block comment that is
    /// still open is an error, and is closed by it.
    pub fn end_of_input(&mut self) -> (result: Result<(), Error>)
        ensures
            final(self).prompts() == old(self).prompts(),
            final(self).lines_read() == old(self).lines_read(),
            final(self).pending_tokens() == old(self).pending_tokens(),
            old(self).open_comments().len() == 0 ==> result is Ok && final(self).open_comments() == old(
                self,
            ).open_comments(),
            old(self).open_comments().len() > 0 ==> (result matches Err(error) && error@
                == ErrorView::UnterminatedComment(old(self).open_comments().last())) && final(self).open_comments()
                == old(self).open_comments().drop_last(),
    {
        match self.comment.pop() {
            Some(start) => Err(Error::UnterminatedComment(start)),
            None => Ok(()),
        }
    }
}

} // verus!

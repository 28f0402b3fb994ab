//! The tokenizer: source text in, a sequence of classified tokens out.
//!
//! The scan walks the text one character at a time, collecting word
//! characters until a flush boundary (whitespace, a symbol, an operator
//! character, a quote, a comment opener) classifies the collected word.
//! String literals collect every character verbatim between double quotes;
//! an unterminated literal is the one fatal condition.  Line (`//`) and
//! block (`/* */`) comments are discarded.  A minus sign directly before a
//! digit starts a negative numeric literal; a one-character operator joins
//! with the next character when the pair is itself an operator.  Every
//! token records the 1-based line and column at which it was completed.
//!
//! The whole scan is modelled by the recursive specification function
//! `lex_from`, and `Lexer::lex` returns exactly what the model says.
use vstd::prelude::*;

use crate::strings::chars_to_string;
use crate::strings::str_chars;
use crate::strings::str_eq;
use crate::value::spec_parse_word;
use crate::value::Value;
use crate::value::ValueV;
use crate::value::value_eq;

verus! {

broadcast use vstd::std_specs::vec::group_vec_axioms;

/// The one error the tokenizer can report.
#[derive(Debug, Clone, Copy, PartialEq, Eq, Structural)]
pub enum LexerE {
    UnterminatedLiteral,
}

/// A classified lexical unit.
#[derive(Debug, PartialEq)]
pub enum LexerTokenType {
    Keyword(String),
    Value(Value),
    Symbol(char),
    Operator(String),
    Identifier(String),
    NewLine,
    Eof,
}

/// A token together with the source position where it was completed.
#[derive(Debug, PartialEq)]
pub struct LexerToken {
    pub token: LexerTokenType,
    pub line: u16,
    pub column: u16,
}

/// Mathematical model of a token.
pub enum TokV {
    Keyword(Seq<char>),
    Value(ValueV),
    Symbol(char),
    Operator(Seq<char>),
    Identifier(Seq<char>),
    NewLine,
    Eof,
}

/// Model of a positioned token.
#[verifier::ext_equal]
pub struct LexTokV {
    pub token: TokV,
    pub line: u16,
    pub column: u16,
}

impl View for LexerTokenType {
    type V = TokV;

    open spec fn view(&self) -> TokV {
        match self {
            LexerTokenType::Keyword(s) => TokV::Keyword(s@),
            LexerTokenType::Value(v) => TokV::Value(v@),
            LexerTokenType::Symbol(c) => TokV::Symbol(*c),
            LexerTokenType::Operator(s) => TokV::Operator(s@),
            LexerTokenType::Identifier(s) => TokV::Identifier(s@),
            LexerTokenType::NewLine => TokV::NewLine,
            LexerTokenType::Eof => TokV::Eof,
        }
    }
}

impl View for LexerToken {
    type V = LexTokV;

    open spec fn view(&self) -> LexTokV {
        LexTokV { token: self.token@, line: self.line, column: self.column }
    }
}

/// The model of a token sequence is the pointwise model.
pub open spec fn tok_views(s: Seq<LexerToken>) -> Seq<LexTokV>
    decreases s.len(),
{
    if s.len() == 0 {
        Seq::empty()
    } else {
        seq![s[0]@] + tok_views(s.subrange(1, s.len() as int))
    }
}

pub proof fn lemma_tok_views(s: Seq<LexerToken>)
    ensures
        tok_views(s).len() == s.len(),
        forall|i: int| 0 <= i < s.len() ==> tok_views(s)[i] == s[i]@,
    decreases s.len(),
{
    if s.len() > 0 {
        lemma_tok_views(s.subrange(1, s.len() as int));
    }
}

pub proof fn lemma_tok_views_push(s: Seq<LexerToken>, t: LexerToken)
    ensures
        tok_views(s.push(t)) == tok_views(s).push(t@),
    decreases s.len(),
{
    lemma_tok_views(s.push(t));
    lemma_tok_views(s);
    assert(tok_views(s.push(t)) =~= tok_views(s).push(t@));
}

impl Clone for LexerTokenType {
    fn clone(&self) -> (res: Self)
        ensures
            res@ == self@,
    {
        match self {
            LexerTokenType::Keyword(s) => LexerTokenType::Keyword(s.clone()),
            LexerTokenType::Value(v) => LexerTokenType::Value(v.clone()),
            LexerTokenType::Symbol(c) => LexerTokenType::Symbol(*c),
            LexerTokenType::Operator(s) => LexerTokenType::Operator(s.clone()),
            LexerTokenType::Identifier(s) => LexerTokenType::Identifier(s.clone()),
            LexerTokenType::NewLine => LexerTokenType::NewLine,
            LexerTokenType::Eof => LexerTokenType::Eof,
        }
    }
}

impl Clone for LexerToken {
    fn clone(&self) -> (res: Self)
        ensures
            res@ == self@,
    {
        LexerToken { token: self.token.clone(), line: self.line, column: self.column }
    }
}

/// The model's constructor always mirrors the token's.
pub proof fn lemma_tok_variants(t: LexerTokenType)
    ensures
        t is Keyword <==> t@ is Keyword,
        t is Value <==> t@ is Value,
        t is Symbol <==> t@ is Symbol,
        t is Operator <==> t@ is Operator,
        t is Identifier <==> t@ is Identifier,
        t is NewLine <==> t@ is NewLine,
        t is Eof <==> t@ is Eof,
{
}

/// Structural equality of two token kinds.
pub fn token_type_eq(a: &LexerTokenType, b: &LexerTokenType) -> (r: bool)
    ensures
        r == (a@ == b@),
{
    proof {
        lemma_tok_variants(*a);
        lemma_tok_variants(*b);
    }
    match a {
        LexerTokenType::Keyword(x) => match b {
            LexerTokenType::Keyword(y) => str_eq(x.as_str(), y.as_str()),
            _ => false,
        },
        LexerTokenType::Value(x) => match b {
            LexerTokenType::Value(y) => value_eq(x, y),
            _ => false,
        },
        LexerTokenType::Symbol(x) => match b {
            LexerTokenType::Symbol(y) => *x == *y,
            _ => false,
        },
        LexerTokenType::Operator(x) => match b {
            LexerTokenType::Operator(y) => str_eq(x.as_str(), y.as_str()),
            _ => false,
        },
        LexerTokenType::Identifier(x) => match b {
            LexerTokenType::Identifier(y) => str_eq(x.as_str(), y.as_str()),
            _ => false,
        },
        LexerTokenType::NewLine => match b {
            LexerTokenType::NewLine => true,
            _ => false,
        },
        LexerTokenType::Eof => match b {
            LexerTokenType::Eof => true,
            _ => false,
        },
    }
}

// ---------------------------------------------------------------------------
// Character classes
// ---------------------------------------------------------------------------
/// What `char::is_whitespace` returns for a character.
pub uninterp spec fn char_is_whitespace(c: char) -> bool;

/// Relies on `char::is_whitespace`: the answer depends on the character
/// alone (the Unicode `White_Space` property).
#[verifier::external_body]
fn is_whitespace_char(c: char) -> (r: bool)
    ensures
        r == char_is_whitespace(c),
{
    c.is_whitespace()
}

/// What `char::is_numeric` returns for a character.
pub uninterp spec fn char_is_numeric(c: char) -> bool;

/// Relies on `char::is_numeric`: the answer depends on the character alone
/// (the Unicode `Nd`, `Nl`, `No` categories).
#[verifier::external_body]
fn is_numeric_char(c: char) -> (r: bool)
    ensures
        r == char_is_numeric(c),
{
    c.is_numeric()
}

/// The structural single characters `{ } , : ; [ ]`.
pub open spec fn is_symbol_char(c: char) -> bool {
    c == '{' || c == '}' || c == ',' || c == ':' || c == ';' || c == '[' || c == ']'
}

fn is_symbol_char_exec(c: char) -> (r: bool)
    ensures
        r == is_symbol_char(c),
{
    c == '{' || c == '}' || c == ',' || c == ':' || c == ';' || c == '[' || c == ']'
}

/// The characters that are one-character operator tokens.
pub open spec fn is_operator_char(c: char) -> bool {
    c == '+' || c == '-' || c == '/' || c == '*' || c == '%' || c == '<' || c == '>' || c == '('
        || c == ')' || c == '=' || c == '!' || c == '|'
}

fn is_operator_char_exec(c: char) -> (r: bool)
    ensures
        r == is_operator_char(c),
{
    c == '+' || c == '-' || c == '/' || c == '*' || c == '%' || c == '<' || c == '>' || c == '('
        || c == ')' || c == '=' || c == '!' || c == '|'
}

/// The two-character operators recognised by one character of lookahead.
pub open spec fn is_two_char_op(c1: char, c2: char) -> bool {
    (c1 == '=' && c2 == '=') || (c1 == '!' && c2 == '=') || (c1 == '|' && c2 == '|') || (c1 == '&'
        && c2 == '&') || (c1 == '<' && c2 == '<') || (c1 == '>' && c2 == '>')
}

fn is_two_char_op_exec(c1: char, c2: char) -> (r: bool)
    ensures
        r == is_two_char_op(c1, c2),
{
    (c1 == '=' && c2 == '=') || (c1 == '!' && c2 == '=') || (c1 == '|' && c2 == '|') || (c1 == '&'
        && c2 == '&') || (c1 == '<' && c2 == '<') || (c1 == '>' && c2 == '>')
}

/// The full closed set of operator texts a completed word can match.
pub open spec fn is_operator_text(w: Seq<char>) -> bool {
    w == "+"@ || w == "-"@ || w == "/"@ || w == "*"@ || w == "%"@ || w == "<"@ || w == ">"@ || w
        == "("@ || w == ")"@ || w == "="@ || w == "!"@ || w == "|"@ || w == "=="@ || w == "!="@ || w
        == "||"@ || w == "&&"@ || w == "<<"@ || w == ">>"@
}

fn is_operator_text_exec(s: &str) -> (r: bool)
    ensures
        r == is_operator_text(s@),
{
    str_eq(s, "+") || str_eq(s, "-") || str_eq(s, "/") || str_eq(s, "*") || str_eq(s, "%") || str_eq(
        s,
        "<",
    ) || str_eq(s, ">") || str_eq(s, "(") || str_eq(s, ")") || str_eq(s, "=") || str_eq(s, "!")
        || str_eq(s, "|") || str_eq(s, "==") || str_eq(s, "!=") || str_eq(s, "||") || str_eq(
        s,
        "&&",
    ) || str_eq(s, "<<") || str_eq(s, ">>")
}

/// The closed set of keywords.
pub open spec fn is_keyword_text(w: Seq<char>) -> bool {
    w == "let"@ || w == "return"@ || w == "fn"@ || w == "if"@ || w == "else"@ || w == "while"@ || w
        == "import"@ || w == "break"@ || w == "continue"@
}

fn is_keyword_text_exec(s: &str) -> (r: bool)
    ensures
        r == is_keyword_text(s@),
{
    str_eq(s, "let") || str_eq(s, "return") || str_eq(s, "fn") || str_eq(s, "if") || str_eq(
        s,
        "else",
    ) || str_eq(s, "while") || str_eq(s, "import") || str_eq(s, "break") || str_eq(s, "continue")
}

// ---------------------------------------------------------------------------
// The scan model
// ---------------------------------------------------------------------------
/// Which kind of comment the scan is inside, if any.
#[derive(PartialEq, Eq, Structural, Clone, Copy, Debug)]
pub enum CommentType {
    NoComment,
    Line,
    MultiLine,
}

/// The scan state: literal-collection mode, the pending word, the tokens
/// already produced, the position counters and the comment mode.
#[verifier::ext_equal]
pub struct LexStV {
    pub literal: bool,
    pub word: Seq<char>,
    pub toks: Seq<LexTokV>,
    pub line: u16,
    pub column: u16,
    pub comment: CommentType,
}

/// The state a scan starts in.
pub open spec fn lex_init() -> LexStV {
    LexStV {
        literal: false,
        word: Seq::empty(),
        toks: Seq::empty(),
        line: 1,
        column: 1,
        comment: CommentType::NoComment,
    }
}

/// How a completed word is classified, in order: value literal, operator
/// text, keyword, identifier.
pub open spec fn spec_classify(w: Seq<char>) -> TokV {
    if spec_parse_word(w) is Ok {
        TokV::Value(spec_parse_word(w)->Ok_0)
    } else if is_operator_text(w) {
        TokV::Operator(w)
    } else if is_keyword_text(w) {
        TokV::Keyword(w)
    } else {
        TokV::Identifier(w)
    }
}

/// Flushing the pending word: inside a literal the collected characters
/// become a text value (even when empty); otherwise a non-empty word is
/// classified and emitted at the current position.
pub open spec fn spec_flush(st: LexStV) -> LexStV {
    if st.literal {
        LexStV {
            word: Seq::empty(),
            toks: st.toks.push(
                LexTokV {
                    token: TokV::Value(ValueV::Literal(st.word)),
                    line: st.line,
                    column: st.column,
                },
            ),
            ..st
        }
    } else if st.word.len() == 0 {
        st
    } else {
        LexStV {
            word: Seq::empty(),
            toks: st.toks.push(
                LexTokV { token: spec_classify(st.word), line: st.line, column: st.column },
            ),
            ..st
        }
    }
}

/// What the scan produces when the input ends: an unterminated literal is
/// fatal, otherwise the pending word is flushed and the end-of-input token
/// appended.
pub open spec fn lex_end(st: LexStV) -> Result<Seq<LexTokV>, LexerE> {
    if st.literal {
        Err(LexerE::UnterminatedLiteral)
    } else {
        let st1 = spec_flush(st);
        Ok(st1.toks.push(LexTokV { token: TokV::Eof, line: st1.line, column: st1.column }))
    }
}

/// Position counters: every consumed character advances the column; a
/// newline moves to the start of the next line.  Counters wrap at the
/// 16-bit limit.
pub open spec fn count_pos(st: LexStV, c: char) -> LexStV {
    let col = vstd::wrapping::u16_specs::wrapping_add(st.column, 1);
    if c == '\n' {
        LexStV { line: vstd::wrapping::u16_specs::wrapping_add(st.line, 1), column: 1, ..st }
    } else {
        LexStV { column: col, ..st }
    }
}

/// One step of the scan at position `i`, followed by the rest.  This is the
/// complete tokenizing model: `Lexer::lex` returns exactly
/// `lex_from(text, 0, lex_init())`.
pub open spec fn lex_from(chars: Seq<char>, i: int, st0: LexStV) -> Result<Seq<LexTokV>, LexerE>
    decreases chars.len() - i,
{
    if i < 0 || i >= chars.len() {
        lex_end(st0)
    } else {
        let c = chars[i];
        let st = count_pos(st0, c);
        if st.comment == CommentType::Line {
            if c == '\n' {
                lex_from(chars, i + 1, LexStV { comment: CommentType::NoComment, ..st })
            } else {
                lex_from(chars, i + 1, st)
            }
        } else if st.comment == CommentType::MultiLine {
            if c != '*' {
                lex_from(chars, i + 1, st)
            } else if i + 1 >= chars.len() {
                lex_end(st)
            } else if chars[i + 1] == '/' {
                lex_from(chars, i + 2, LexStV { comment: CommentType::NoComment, ..st })
            } else {
                lex_from(chars, i + 1, st)
            }
        } else if st.literal {
            if c == '"' {
                lex_from(chars, i + 1, LexStV { literal: false, ..spec_flush(st) })
            } else {
                lex_from(chars, i + 1, LexStV { word: st.word.push(c), ..st })
            }
        } else if c == '/' && i + 1 >= chars.len() {
            lex_end(st)
        } else if c == '/' && chars[i + 1] == '/' {
            lex_from(chars, i + 2, LexStV { comment: CommentType::Line, ..spec_flush(st) })
        } else if c == '/' && chars[i + 1] == '*' {
            lex_from(chars, i + 2, LexStV { comment: CommentType::MultiLine, ..spec_flush(st) })
        } else if c == '"' {
            lex_from(chars, i + 1, LexStV { literal: true, ..spec_flush(st) })
        } else if char_is_whitespace(c) {
            lex_from(chars, i + 1, spec_flush(st))
        } else if is_symbol_char(c) {
            let st1 = spec_flush(st);
            lex_from(
                chars,
                i + 1,
                LexStV {
                    toks: st1.toks.push(
                        LexTokV { token: TokV::Symbol(c), line: st1.line, column: st1.column },
                    ),
                    ..st1
                },
            )
        } else if is_operator_char(c) {
            let st1 = LexStV { word: seq![c], ..spec_flush(st) };
            if i + 1 >= chars.len() {
                lex_end(spec_flush(st1))
            } else if c == '-' && char_is_numeric(chars[i + 1]) {
                lex_from(chars, i + 1, st1)
            } else if is_two_char_op(c, chars[i + 1]) {
                lex_from(chars, i + 2, spec_flush(LexStV { word: seq![c, chars[i + 1]], ..st1 }))
            } else {
                lex_from(chars, i + 1, spec_flush(st1))
            }
        } else {
            lex_from(chars, i + 1, LexStV { word: st.word.push(c), ..st })
        }
    }
}

/// The model of tokenizing a whole text.
pub open spec fn spec_lex(chars: Seq<char>) -> Result<Seq<LexTokV>, LexerE> {
    lex_from(chars, 0, lex_init())
}

// ---------------------------------------------------------------------------
// The tokenizer
// ---------------------------------------------------------------------------
/// The tokenizer's working state.
#[derive(Debug)]
pub struct Lexer {
    is_literal: bool,
    current_word: Vec<char>,
    lexer_tokens: Vec<LexerToken>,
    line: u16,
    column: u16,
}

/// The model of the tokenizer's state, given the current comment mode.
spec fn lexer_st(lx: Lexer, comment: CommentType) -> LexStV {
    LexStV {
        literal: lx.is_literal,
        word: lx.current_word@,
        toks: tok_views(lx.lexer_tokens@),
        line: lx.line,
        column: lx.column,
        comment: comment,
    }
}

impl Lexer {
    fn new() -> (lx: Lexer)
        ensures
            lexer_st(lx, CommentType::NoComment) == lex_init(),
    {
        let lx = Lexer {
            is_literal: false,
            current_word: Vec::new(),
            lexer_tokens: Vec::new(),
            line: 1,
            column: 1,
        };
        proof {
            assert(lexer_st(lx, CommentType::NoComment) =~= lex_init());
        }
        lx
    }

    fn push_token(&mut self, tk: LexerTokenType)
        ensures
            final(self).is_literal == old(self).is_literal,
            final(self).current_word == old(self).current_word,
            final(self).line == old(self).line,
            final(self).column == old(self).column,
            tok_views(final(self).lexer_tokens@) == tok_views(old(self).lexer_tokens@).push(
                LexTokV { token: tk@, line: old(self).line, column: old(self).column },
            ),
    {
        let t = LexerToken { token: tk, line: self.line, column: self.column };
        proof {
            lemma_tok_views_push(self.lexer_tokens@, t);
        }
        self.lexer_tokens.push(t);
    }

    /// Flushes the pending word, exactly as `spec_flush` says.
    fn flush(&mut self)
        ensures
            forall|comment: CommentType|
                lexer_st(*final(self), comment) == spec_flush(lexer_st(*old(self), comment)),
    {
        if self.is_literal {
            let s = chars_to_string(&self.current_word);
            self.current_word = Vec::new();
            let ghost pre = *self;
            self.push_token(LexerTokenType::Value(Value::Literal(s)));
            proof {
                assert forall|comment: CommentType|
                    lexer_st(*self, comment) =~= spec_flush(lexer_st(*old(self), comment)) by {}
            }
            return ;
        }
        if self.current_word.len() == 0 {
            proof {
                assert forall|comment: CommentType|
                    lexer_st(*self, comment) =~= spec_flush(lexer_st(*old(self), comment)) by {}
            }
            return ;
        }
        let word = chars_to_string(&self.current_word);
        self.current_word = Vec::new();

        let classified: LexerTokenType = match Value::parse(&word) {
            Ok(v) => LexerTokenType::Value(v),
            Err(_) => {
                if is_operator_text_exec(word.as_str()) {
                    LexerTokenType::Operator(word)
                } else if is_keyword_text_exec(word.as_str()) {
                    LexerTokenType::Keyword(word)
                } else {
                    LexerTokenType::Identifier(word)
                }
            },
        };
        proof {
            assert(classified@ == spec_classify(old(self).current_word@));
        }
        self.push_token(classified);
        proof {
            assert forall|comment: CommentType|
                lexer_st(*self, comment) =~= spec_flush(lexer_st(*old(self), comment)) by {}
        }
    }

    /// Tokenizes a whole text.  The result is exactly what the scan model
    /// produces: the token sequence ends with `Eof`, or the one fatal
    /// condition, an unterminated string literal, is reported.
    #[verifier::loop_isolation(false)]
    pub fn lex(code: String) -> (r: Result<Vec<LexerToken>, LexerE>)
        ensures
            match r {
                Ok(toks) => spec_lex(code@) == Ok::<Seq<LexTokV>, LexerE>(tok_views(toks@)),
                Err(e) => spec_lex(code@) == Err::<Seq<LexTokV>, LexerE>(e),
            },
    {
        let chars = str_chars(code.as_str());
        let mut lexer = Lexer::new();
        let mut is_commented = CommentType::NoComment;
        let mut i: usize = 0;

        while i < chars.len()
            invariant
                i <= chars@.len(),
                lex_from(chars@, i as int, lexer_st(lexer, is_commented)) == spec_lex(code@),
            decreases chars@.len() - i,
        {
            let ghost st_pre = lexer_st(lexer, is_commented);
            let c = chars[i];

            // Position counters
            self_count(&mut lexer, c);
            proof {
                assert(lexer_st(lexer, is_commented) =~= count_pos(st_pre, c));
            }
            let ghost st = lexer_st(lexer, is_commented);

            // Comment interiors
            if is_commented == CommentType::Line {
                if c == '\n' {
                    is_commented = CommentType::NoComment;
                    proof {
                        assert(lexer_st(lexer, is_commented) =~= LexStV {
                            comment: CommentType::NoComment,
                            ..st
                        });
                    }
                }
                i = i + 1;
                continue ;
            }
            if is_commented == CommentType::MultiLine {
                if c == '*' {
                    if i + 1 >= chars.len() {
                        return end_of_scan(lexer);
                    }
                    if chars[i + 1] == '/' {
                        is_commented = CommentType::NoComment;
                        proof {
                            assert(lexer_st(lexer, is_commented) =~= LexStV {
                                comment: CommentType::NoComment,
                                ..st
                            });
                        }
                        i = i + 2;
                        continue ;
                    }
                }
                i = i + 1;
                continue ;
            }
            // String literals collect everything up to the closing quote.
            if lexer.is_literal {
                if c == '"' {
                    lexer.flush();
                    lexer.is_literal = false;
                    proof {
                        assert(lexer_st(lexer, is_commented) =~= LexStV {
                            literal: false,
                            ..spec_flush(st)
                        });
                    }
                } else {
                    lexer.current_word.push(c);
                    proof {
                        assert(lexer_st(lexer, is_commented) =~= LexStV {
                            word: st.word.push(c),
                            ..st
                        });
                    }
                }
                i = i + 1;
                continue ;
            }
            // Comment openers
            if c == '/' {
                if i + 1 >= chars.len() {
                    return end_of_scan(lexer);
                }
                let next_c = chars[i + 1];
                if next_c == '/' {
                    lexer.flush();
                    is_commented = CommentType::Line;
                    proof {
                        assert(lexer_st(lexer, is_commented) =~= LexStV {
                            comment: CommentType::Line,
                            ..spec_flush(st)
                        });
                    }
                    i = i + 2;
                    continue ;
                }
                if next_c == '*' {
                    lexer.flush();
                    is_commented = CommentType::MultiLine;
                    proof {
                        assert(lexer_st(lexer, is_commented) =~= LexStV {
                            comment: CommentType::MultiLine,
                            ..spec_flush(st)
                        });
                    }
                    i = i + 2;
                    continue ;
                }
            }
            // An opening quote
            if c == '"' {
                lexer.flush();
                let ghost stf = lexer_st(lexer, is_commented);
                lexer.is_literal = true;
                proof {
                    assert(stf == spec_flush(st));
                    assert(lexer_st(lexer, is_commented) =~= LexStV {
                        literal: true,
                        ..spec_flush(st)
                    });
                }
                i = i + 1;
                continue ;
            }
            // Whitespace is a flush boundary.
            if is_whitespace_char(c) {
                lexer.flush();
                i = i + 1;
                continue ;
            }
            // Symbols
            if is_symbol_char_exec(c) {
                lexer.flush();
                let ghost st1 = lexer_st(lexer, is_commented);
                lexer.push_token(LexerTokenType::Symbol(c));
                proof {
                    assert(lexer_st(lexer, is_commented) =~= LexStV {
                        toks: st1.toks.push(
                            LexTokV { token: TokV::Symbol(c), line: st1.line, column: st1.column },
                        ),
                        ..st1
                    });
                }
                i = i + 1;
                continue ;
            }
            // Operator characters, with one character of lookahead
            if is_operator_char_exec(c) {
                lexer.flush();
                let ghost stf = lexer_st(lexer, is_commented);
                lexer.current_word.push(c);
                let ghost st1 = lexer_st(lexer, is_commented);
                proof {
                    assert(stf == spec_flush(st));
                    assert(st1 =~= LexStV { word: seq![c], ..spec_flush(st) });
                }
                if i + 1 >= chars.len() {
                    lexer.flush();
                    return end_of_scan(lexer);
                }
                let peeked_c = chars[i + 1];
                // A minus sign right before a digit starts a numeric literal.
                if c == '-' && is_numeric_char(peeked_c) {
                    i = i + 1;
                    continue ;
                }
                if is_two_char_op_exec(c, peeked_c) {
                    lexer.current_word.push(peeked_c);
                    proof {
                        assert(lexer_st(lexer, is_commented) =~= LexStV {
                            word: seq![c, peeked_c],
                            ..st1
                        });
                    }
                    lexer.flush();
                    i = i + 2;
                    continue ;
                }
                lexer.flush();
                i = i + 1;
                continue ;
            }
            // A word character
            lexer.current_word.push(c);
            proof {
                assert(lexer_st(lexer, is_commented) =~= LexStV { word: st.word.push(c), ..st });
            }
            i = i + 1;
        }
        end_of_scan(lexer)
    }
}

/// Advances the position counters for one consumed character.
fn self_count(lexer: &mut Lexer, c: char)
    ensures
        final(lexer).is_literal == old(lexer).is_literal,
        final(lexer).current_word == old(lexer).current_word,
        final(lexer).lexer_tokens == old(lexer).lexer_tokens,
        c == '\n' ==> final(lexer).line == vstd::wrapping::u16_specs::wrapping_add(
            old(lexer).line,
            1,
        ) && final(lexer).column == 1,
        c != '\n' ==> final(lexer).line == old(lexer).line && final(lexer).column
            == vstd::wrapping::u16_specs::wrapping_add(old(lexer).column, 1),
{
    lexer.column = lexer.column.wrapping_add(1);
    if c == '\n' {
        lexer.line = lexer.line.wrapping_add(1);
        lexer.column = 1;
    }
}

/// Finishes the scan: an open literal is fatal, otherwise the pending word
/// is flushed and the end-of-input token appended.
fn end_of_scan(lexer: Lexer) -> (r: Result<Vec<LexerToken>, LexerE>)
    ensures
        match r {
            Ok(toks) => forall|comment: CommentType|
                lex_end(lexer_st(lexer, comment)) == Ok::<Seq<LexTokV>, LexerE>(tok_views(toks@)),
            Err(e) => forall|comment: CommentType|
                lex_end(lexer_st(lexer, comment)) == Err::<Seq<LexTokV>, LexerE>(e),
        },
{
    let ghost orig = lexer;
    let mut lexer = lexer;
    if lexer.is_literal {
        return Err(LexerE::UnterminatedLiteral);
    }
    lexer.flush();
    let ghost stf = lexer_st(lexer, CommentType::NoComment);
    lexer.push_token(LexerTokenType::Eof);
    proof {
        assert forall|comment: CommentType|
            lex_end(lexer_st(orig, comment)) == Ok::<Seq<LexTokV>, LexerE>(
                tok_views(lexer.lexer_tokens@),
            ) by {
            assert(lexer_st(orig, comment) =~= LexStV { comment, ..lexer_st(
                orig,
                CommentType::NoComment,
            ) });
            assert(spec_flush(lexer_st(orig, comment)) =~= LexStV { comment, ..stf });
            assert(tok_views(lexer.lexer_tokens@) == stf.toks.push(
                LexTokV { token: TokV::Eof, line: stf.line, column: stf.column },
            ));
        }
    }
    Ok(lexer.lexer_tokens)
}

} // verus!

use crate::span::Span;
use vstd::prelude::*;

verus! {

/// The kind of a lexical token.
#[derive(Debug, Clone, Copy, PartialEq, Eq, Structural)]
pub enum TokenKind {
    Ident,
    String,
    KwType,
    KwLet,
    KwDef,
    KwTest,
    KwRelations,
    KwAssert,
    KwAssertNot,
    Dot,
    Colon,
    ColonColon,
    Semicolon,
    LBrace,
    RBrace,
    LParen,
    RParen,
    Pipe,
    Amp,
    Minus,
    Eq,
    Whitespace,
    LineComment,
    Eof,
    Unknown,
    ErrUnterminatedString,
    ErrBadSlash,
}

/// The kinds that the lexer emits for malformed input.
pub open spec fn is_error_kind(k: TokenKind) -> bool {
    k == TokenKind::Unknown || k == TokenKind::ErrUnterminatedString || k == TokenKind::ErrBadSlash
}

/// Whitespace and comments.
pub open spec fn is_trivia_kind(k: TokenKind) -> bool {
    k == TokenKind::Whitespace || k == TokenKind::LineComment
}

/// The description of a token kind that diagnostics use.
pub open spec fn kind_text(k: TokenKind) -> Seq<char> {
    match k {
        TokenKind::Ident => "identifier"@,
        TokenKind::String => "string"@,
        TokenKind::KwType => "'type'"@,
        TokenKind::KwLet => "'let'"@,
        TokenKind::KwDef => "'def'"@,
        TokenKind::KwTest => "'test'"@,
        TokenKind::KwRelations => "'relations'"@,
        TokenKind::KwAssert => "'assert'"@,
        TokenKind::KwAssertNot => "'assert_not'"@,
        TokenKind::Dot => "'.'"@,
        TokenKind::Colon => "':'"@,
        TokenKind::ColonColon => "'::'"@,
        TokenKind::Semicolon => "';'"@,
        TokenKind::LBrace => "'{'"@,
        TokenKind::RBrace => "'}'"@,
        TokenKind::LParen => "'('"@,
        TokenKind::RParen => "')'"@,
        TokenKind::Pipe => "'|'"@,
        TokenKind::Amp => "'&'"@,
        TokenKind::Minus => "'-'"@,
        TokenKind::Eq => "'='"@,
        TokenKind::Whitespace => "whitespace"@,
        TokenKind::LineComment => "comment"@,
        TokenKind::Eof => "end of file"@,
        TokenKind::Unknown => "unknown character"@,
        TokenKind::ErrUnterminatedString => "unterminated string"@,
        TokenKind::ErrBadSlash => "unexpected '/'"@,
    }
}

impl TokenKind {
    pub fn is_error(self) -> (r: bool)
        ensures
            r == is_error_kind(self),
    {
        match self {
            TokenKind::Unknown | TokenKind::ErrUnterminatedString | TokenKind::ErrBadSlash => true,
            _ => false,
        }
    }

    /// A human-readable description of the kind, as used in diagnostics.
    pub fn describe(self) -> (r: &'static str)
        ensures
            r@ == kind_text(self),
    {
        match self {
            TokenKind::Ident => "identifier",
            TokenKind::String => "string",
            TokenKind::KwType => "'type'",
            TokenKind::KwLet => "'let'",
            TokenKind::KwDef => "'def'",
            TokenKind::KwTest => "'test'",
            TokenKind::KwRelations => "'relations'",
            TokenKind::KwAssert => "'assert'",
            TokenKind::KwAssertNot => "'assert_not'",
            TokenKind::Dot => "'.'",
            TokenKind::Colon => "':'",
            TokenKind::ColonColon => "'::'",
            TokenKind::Semicolon => "';'",
            TokenKind::LBrace => "'{'",
            TokenKind::RBrace => "'}'",
            TokenKind::LParen => "'('",
            TokenKind::RParen => "')'",
            TokenKind::Pipe => "'|'",
            TokenKind::Amp => "'&'",
            TokenKind::Minus => "'-'",
            TokenKind::Eq => "'='",
            TokenKind::Whitespace => "whitespace",
            TokenKind::LineComment => "comment",
            TokenKind::Eof => "end of file",
            TokenKind::Unknown => "unknown character",
            TokenKind::ErrUnterminatedString => "unterminated string",
            TokenKind::ErrBadSlash => "unexpected '/'",
        }
    }
}

/// A token: its kind and the bytes of the source it covers.
#[derive(Debug, Clone, Copy)]
pub struct Token {
    pub(crate) span: Span,
    pub(crate) kind: TokenKind,
}

impl Token {
    pub open(crate) spec fn span_spec(self) -> Span {
        self.span
    }

    pub open(crate) spec fn kind_spec(self) -> TokenKind {
        self.kind
    }

    pub fn new(kind: TokenKind, span: Span) -> (t: Token)
        ensures
            t.kind_spec() == kind,
            t.span_spec() == span,
    {
        Token { span, kind }
    }

    /// The end-of-file token, an empty span at `at`.
    pub fn eof(at: u32) -> (t: Token)
        ensures
            t.kind_spec() == TokenKind::Eof,
            t.span_spec().start_spec() == at,
            t.span_spec().size_spec() == 0,
    {
        Token::new(TokenKind::Eof, Span::empty(at))
    }

    pub fn span(&self) -> (r: Span)
        ensures
            r == self.span_spec(),
    {
        self.span
    }

    pub fn kind(&self) -> (r: TokenKind)
        ensures
            r == self.kind_spec(),
    {
        self.kind
    }
}

/// The class of a source byte, which decides how a token that starts with it is scanned.
#[derive(Debug, Clone, Copy, PartialEq, Eq, Structural)]
pub enum ByteClass {
    Ident,
    Digit,
    Whitespace,
    Slash,
    Quote,
    Dot,
    Colon,
    Semicolon,
    LBrace,
    RBrace,
    LParen,
    RParen,
    Pipe,
    Amp,
    Minus,
    Eq,
    Other,
}

/// ASCII letters and `_` start identifiers; ASCII digits are digits; a few ASCII
/// punctuation marks and whitespace bytes have their own class; every other byte,
/// including every byte `>= 0x80`, is `Other`.
pub open spec fn class_of(b: u8) -> ByteClass {
    if (0x61 <= b && b <= 0x7a) || (0x41 <= b && b <= 0x5a) || b == 0x5f {
        ByteClass::Ident
    } else if 0x30 <= b && b <= 0x39 {
        ByteClass::Digit
    } else if b == 0x20 || b == 0x09 || b == 0x0a || b == 0x0d {
        ByteClass::Whitespace
    } else if b == 0x2f {
        ByteClass::Slash
    } else if b == 0x22 {
        ByteClass::Quote
    } else if b == 0x2e {
        ByteClass::Dot
    } else if b == 0x3a {
        ByteClass::Colon
    } else if b == 0x3b {
        ByteClass::Semicolon
    } else if b == 0x7b {
        ByteClass::LBrace
    } else if b == 0x7d {
        ByteClass::RBrace
    } else if b == 0x28 {
        ByteClass::LParen
    } else if b == 0x29 {
        ByteClass::RParen
    } else if b == 0x7c {
        ByteClass::Pipe
    } else if b == 0x26 {
        ByteClass::Amp
    } else if b == 0x2d {
        ByteClass::Minus
    } else if b == 0x3d {
        ByteClass::Eq
    } else {
        ByteClass::Other
    }
}

pub fn classify(b: u8) -> (r: ByteClass)
    ensures
        r == class_of(b),
{
    if (0x61 <= b && b <= 0x7a) || (0x41 <= b && b <= 0x5a) || b == 0x5f {
        ByteClass::Ident
    } else if 0x30 <= b && b <= 0x39 {
        ByteClass::Digit
    } else if b == 0x20 || b == 0x09 || b == 0x0a || b == 0x0d {
        ByteClass::Whitespace
    } else if b == 0x2f {
        ByteClass::Slash
    } else if b == 0x22 {
        ByteClass::Quote
    } else if b == 0x2e {
        ByteClass::Dot
    } else if b == 0x3a {
        ByteClass::Colon
    } else if b == 0x3b {
        ByteClass::Semicolon
    } else if b == 0x7b {
        ByteClass::LBrace
    } else if b == 0x7d {
        ByteClass::RBrace
    } else if b == 0x28 {
        ByteClass::LParen
    } else if b == 0x29 {
        ByteClass::RParen
    } else if b == 0x7c {
        ByteClass::Pipe
    } else if b == 0x26 {
        ByteClass::Amp
    } else if b == 0x2d {
        ByteClass::Minus
    } else if b == 0x3d {
        ByteClass::Eq
    } else {
        ByteClass::Other
    }
}

pub open spec fn is_word_class(c: ByteClass) -> bool {
    c == ByteClass::Ident || c == ByteClass::Digit
}

/// The kind of an identifier-shaped word: one of the seven keywords, or `Ident`.
pub open spec fn keyword_of(w: Seq<u8>) -> TokenKind {
    if w == seq![0x74u8, 0x79, 0x70, 0x65] {
        TokenKind::KwType
    } else if w == seq![0x6cu8, 0x65, 0x74] {
        TokenKind::KwLet
    } else if w == seq![0x64u8, 0x65, 0x66] {
        TokenKind::KwDef
    } else if w == seq![0x74u8, 0x65, 0x73, 0x74] {
        TokenKind::KwTest
    } else if w == seq![0x72u8, 0x65, 0x6c, 0x61, 0x74, 0x69, 0x6f, 0x6e, 0x73] {
        TokenKind::KwRelations
    } else if w == seq![0x61u8, 0x73, 0x73, 0x65, 0x72, 0x74] {
        TokenKind::KwAssert
    } else if w == seq![0x61u8, 0x73, 0x73, 0x65, 0x72, 0x74, 0x5f, 0x6e, 0x6f, 0x74] {
        TokenKind::KwAssertNot
    } else {
        TokenKind::Ident
    }
}

fn bytes_equal(a: &[u8], b: &[u8]) -> (r: bool)
    ensures
        r == (a@ == b@),
{
    if a.len() != b.len() {
        return false;
    }
    let mut i: usize = 0;
    while i < a.len()
        invariant
            a.len() == b.len(),
            i <= a.len(),
            forall|k: int| 0 <= k < i ==> a@[k] == b@[k],
        decreases a.len() - i,
    {
        if a[i] != b[i] {
            return false;
        }
        i = i + 1;
    }
    assert(a@ =~= b@);
    true
}

/// Classifies an identifier-shaped word as a keyword or an identifier.
pub fn classify_keyword(word: &[u8]) -> (r: TokenKind)
    ensures
        r == keyword_of(word@),
{
    let kw_type: [u8; 4] = [0x74u8, 0x79, 0x70, 0x65];
    let kw_let: [u8; 3] = [0x6cu8, 0x65, 0x74];
    let kw_def: [u8; 3] = [0x64u8, 0x65, 0x66];
    let kw_test: [u8; 4] = [0x74u8, 0x65, 0x73, 0x74];
    let kw_relations: [u8; 9] = [0x72u8, 0x65, 0x6c, 0x61, 0x74, 0x69, 0x6f, 0x6e, 0x73];
    let kw_assert: [u8; 6] = [0x61u8, 0x73, 0x73, 0x65, 0x72, 0x74];
    let kw_assert_not: [u8; 10] = [0x61u8, 0x73, 0x73, 0x65, 0x72, 0x74, 0x5f, 0x6e, 0x6f, 0x74];
    assert(kw_type@ =~= seq![0x74u8, 0x79, 0x70, 0x65]);
    assert(kw_let@ =~= seq![0x6cu8, 0x65, 0x74]);
    assert(kw_def@ =~= seq![0x64u8, 0x65, 0x66]);
    assert(kw_test@ =~= seq![0x74u8, 0x65, 0x73, 0x74]);
    assert(kw_relations@ =~= seq![0x72u8, 0x65, 0x6c, 0x61, 0x74, 0x69, 0x6f, 0x6e, 0x73]);
    assert(kw_assert@ =~= seq![0x61u8, 0x73, 0x73, 0x65, 0x72, 0x74]);
    assert(kw_assert_not@ =~= seq![0x61u8, 0x73, 0x73, 0x65, 0x72, 0x74, 0x5f, 0x6e, 0x6f, 0x74]);
    if bytes_equal(word, kw_type.as_slice()) {
        TokenKind::KwType
    } else if bytes_equal(word, kw_let.as_slice()) {
        TokenKind::KwLet
    } else if bytes_equal(word, kw_def.as_slice()) {
        TokenKind::KwDef
    } else if bytes_equal(word, kw_test.as_slice()) {
        TokenKind::KwTest
    } else if bytes_equal(word, kw_relations.as_slice()) {
        TokenKind::KwRelations
    } else if bytes_equal(word, kw_assert.as_slice()) {
        TokenKind::KwAssert
    } else if bytes_equal(word, kw_assert_not.as_slice()) {
        TokenKind::KwAssertNot
    } else {
        TokenKind::Ident
    }
}


/// The end of the run of whitespace bytes that starts at `i`.
pub open spec fn ws_end(src: Seq<u8>, i: int) -> int
    decreases src.len() - i,
{
    if i < src.len() && class_of(src[i]) == ByteClass::Whitespace {
        ws_end(src, i + 1)
    } else {
        i
    }
}

/// The end of the run of identifier and digit bytes that starts at `i`.
pub open spec fn word_end(src: Seq<u8>, i: int) -> int
    decreases src.len() - i,
{
    if i < src.len() && is_word_class(class_of(src[i])) {
        word_end(src, i + 1)
    } else {
        i
    }
}

/// The position of the first newline at or after `i`, or the end of the source.
pub open spec fn line_end(src: Seq<u8>, i: int) -> int
    decreases src.len() - i,
{
    if i < src.len() && src[i] != 0x0a {
        line_end(src, i + 1)
    } else {
        i
    }
}

/// One past the first `"` at or after `i`, or `None` if there is none.
pub open spec fn quote_end(src: Seq<u8>, i: int) -> Option<int>
    decreases src.len() - i,
{
    if i >= src.len() {
        None
    } else if src[i] == 0x22 {
        Some(i + 1)
    } else {
        quote_end(src, i + 1)
    }
}

/// The token that starts at `start`: its kind and its end offset.
///
/// At or past the end of the source this is an empty end-of-file token.
pub open spec fn lex_step(src: Seq<u8>, start: int) -> (TokenKind, int) {
    if start >= src.len() {
        (TokenKind::Eof, start)
    } else {
        let b = src[start];
        match class_of(b) {
            ByteClass::Whitespace => (TokenKind::Whitespace, ws_end(src, start + 1)),
            ByteClass::Ident => {
                let e = word_end(src, start + 1);
                (keyword_of(src.subrange(start, e)), e)
            },
            ByteClass::Slash => if start + 1 < src.len() && src[start + 1] == 0x2f {
                (TokenKind::LineComment, line_end(src, start + 2))
            } else {
                (TokenKind::ErrBadSlash, start + 1)
            },
            ByteClass::Quote => match quote_end(src, start + 1) {
                Some(e) => (TokenKind::String, e),
                None => (TokenKind::ErrUnterminatedString, src.len() as int),
            },
            ByteClass::Colon => if start + 1 < src.len() && src[start + 1] == 0x3a {
                (TokenKind::ColonColon, start + 2)
            } else {
                (TokenKind::Colon, start + 1)
            },
            ByteClass::Dot => (TokenKind::Dot, start + 1),
            ByteClass::Semicolon => (TokenKind::Semicolon, start + 1),
            ByteClass::LBrace => (TokenKind::LBrace, start + 1),
            ByteClass::RBrace => (TokenKind::RBrace, start + 1),
            ByteClass::LParen => (TokenKind::LParen, start + 1),
            ByteClass::RParen => (TokenKind::RParen, start + 1),
            ByteClass::Pipe => (TokenKind::Pipe, start + 1),
            ByteClass::Amp => (TokenKind::Amp, start + 1),
            ByteClass::Minus => (TokenKind::Minus, start + 1),
            ByteClass::Eq => (TokenKind::Eq, start + 1),
            ByteClass::Digit => (TokenKind::Unknown, start + 1),
            ByteClass::Other => (TokenKind::Unknown, start + 1),
        }
    }
}

proof fn lemma_ws_end(src: Seq<u8>, i: int)
    requires
        0 <= i <= src.len(),
    ensures
        i <= ws_end(src, i) <= src.len(),
    decreases src.len() - i,
{
    if i < src.len() && class_of(src[i]) == ByteClass::Whitespace {
        lemma_ws_end(src, i + 1);
    }
}

proof fn lemma_word_end(src: Seq<u8>, i: int)
    requires
        0 <= i <= src.len(),
    ensures
        i <= word_end(src, i) <= src.len(),
    decreases src.len() - i,
{
    if i < src.len() && is_word_class(class_of(src[i])) {
        lemma_word_end(src, i + 1);
    }
}

proof fn lemma_line_end(src: Seq<u8>, i: int)
    requires
        0 <= i <= src.len(),
    ensures
        i <= line_end(src, i) <= src.len(),
    decreases src.len() - i,
{
    if i < src.len() && src[i] != 0x0a {
        lemma_line_end(src, i + 1);
    }
}

proof fn lemma_quote_end(src: Seq<u8>, i: int)
    requires
        0 <= i <= src.len(),
    ensures
        quote_end(src, i) matches Some(e) ==> i < e <= src.len() && src[e - 1] == 0x22,
    decreases src.len() - i,
{
    if i < src.len() && src[i] != 0x22 {
        lemma_quote_end(src, i + 1);
    }
}

proof fn lemma_word_end_last(src: Seq<u8>, i: int)
    requires
        0 <= i <= src.len(),
    ensures
        word_end(src, i) > i ==> is_word_class(class_of(src[word_end(src, i) - 1])),
    decreases src.len() - i,
{
    if i < src.len() && is_word_class(class_of(src[i])) {
        lemma_word_end_last(src, i + 1);
    }
}

/// A token that is neither trivia nor an error starts at an ASCII byte (or at the
/// end of the source) and ends right after an ASCII byte (or at the end).
pub proof fn lemma_meaningful_token_ascii(src: Seq<u8>, s: int)
    requires
        0 <= s <= src.len(),
        !is_error_kind(lex_step(src, s).0),
        !is_trivia_kind(lex_step(src, s).0),
    ensures
        s == src.len() || src[s] < 0x80,
        lex_step(src, s).1 == src.len() || (s < lex_step(src, s).1 && src[lex_step(src, s).1 - 1] < 0x80),
{
    lemma_lex_step_bounds(src, s);
    if s < src.len() {
        lemma_word_end(src, s + 1);
        lemma_word_end_last(src, s + 1);
        lemma_quote_end(src, s + 1);
    }
}

/// Every token before the end of the source is non-empty and stays within it.
pub proof fn lemma_lex_step_bounds(src: Seq<u8>, start: int)
    requires
        0 <= start <= src.len(),
    ensures
        start < src.len() ==> start < lex_step(src, start).1 <= src.len(),
        start < src.len() ==> lex_step(src, start).0 != TokenKind::Eof,
        start == src.len() ==> lex_step(src, start) == (TokenKind::Eof, start),
{
    if start < src.len() {
        lemma_ws_end(src, start + 1);
        lemma_word_end(src, start + 1);
        if start + 2 <= src.len() {
            lemma_line_end(src, start + 2);
        }
        lemma_quote_end(src, start + 1);
    }
}

/// A lexer over a byte source. Each call to [`Lexer::next_token`] scans the token
/// that starts at the cursor and moves the cursor to its end.
pub struct Lexer<'src> {
    pub(crate) source: &'src [u8],
    pub(crate) cursor: u32,
}

/// The start of the first token at or after `i` that is neither whitespace nor a
/// comment.
pub open spec fn skip_trivia(src: Seq<u8>, i: int) -> int
    decreases src.len() - i,
{
    if 0 <= i < src.len() && is_trivia_kind(lex_step(src, i).0) && i < lex_step(src, i).1 <= src.len() {
        skip_trivia(src, lex_step(src, i).1)
    } else {
        i
    }
}

pub proof fn lemma_skip_trivia(src: Seq<u8>, i: int)
    requires
        0 <= i <= src.len(),
    ensures
        i <= skip_trivia(src, i) <= src.len(),
        !is_trivia_kind(lex_step(src, skip_trivia(src, i)).0),
    decreases src.len() - i,
{
    lemma_lex_step_bounds(src, i);
    if 0 <= i < src.len() && is_trivia_kind(lex_step(src, i).0) && i < lex_step(src, i).1 <= src.len() {
        lemma_skip_trivia(src, lex_step(src, i).1);
    }
}

/// A token as a triple: kind, start offset, end offset.
pub open spec fn triple(t: Token) -> (TokenKind, int, int) {
    (t.kind_spec(), t.span_spec().start_spec() as int, t.span_spec().end_spec())
}

/// The tokens that a lexer produces from offset `i` up to and including the
/// end-of-file token.
pub open spec fn tokens_from(src: Seq<u8>, i: int) -> Seq<(TokenKind, int, int)>
    decreases src.len() - i,
{
    if i >= src.len() {
        seq![(TokenKind::Eof, i, i)]
    } else if i < lex_step(src, i).1 <= src.len() {
        seq![(lex_step(src, i).0, i, lex_step(src, i).1)] + tokens_from(src, lex_step(src, i).1)
    } else {
        seq![]
    }
}

/// The tokens of `ts` that are neither whitespace nor comments, in order.
pub open spec fn drop_trivia(ts: Seq<(TokenKind, int, int)>) -> Seq<(TokenKind, int, int)>
    decreases ts.len(),
{
    if ts.len() == 0 {
        Seq::empty()
    } else if is_trivia_kind(ts[0].0) {
        drop_trivia(ts.drop_first())
    } else {
        seq![ts[0]] + drop_trivia(ts.drop_first())
    }
}

/// The tokens that repeated calls of [`Lexer::next_nontrivial`] give from offset `i`,
/// up to and including the end-of-file token.
pub open spec fn nontrivial_from(src: Seq<u8>, i: int) -> Seq<(TokenKind, int, int)>
    decreases src.len() - i,
{
    let s = skip_trivia(src, i);
    if s >= src.len() {
        seq![(TokenKind::Eof, s, s)]
    } else if i <= s < lex_step(src, s).1 <= src.len() {
        seq![(lex_step(src, s).0, s, lex_step(src, s).1)] + nontrivial_from(src, lex_step(src, s).1)
    } else {
        Seq::empty()
    }
}

/// The tokens past the trivia are the tokens of the source with every whitespace and
/// comment token taken out: lexing without trivia is lexing, then dropping trivia.
pub proof fn lemma_nontrivial_stream(src: Seq<u8>, i: int)
    requires
        0 <= i <= src.len(),
    ensures
        nontrivial_from(src, i) == drop_trivia(tokens_from(src, i)),
    decreases src.len() - i,
{
    lemma_lex_step_bounds(src, i);
    lemma_skip_trivia(src, i);
    let ts = tokens_from(src, i);
    if i >= src.len() {
        assert(ts.drop_first() =~= Seq::<(TokenKind, int, int)>::empty());
        assert(drop_trivia(ts.drop_first()) == Seq::<(TokenKind, int, int)>::empty());
        assert(!is_trivia_kind(ts[0].0));
        assert(drop_trivia(ts) =~= seq![ts[0]] + Seq::<(TokenKind, int, int)>::empty());
        assert(drop_trivia(ts) =~= ts);
    } else {
        let e = lex_step(src, i).1;
        lemma_nontrivial_stream(src, e);
        assert(ts.drop_first() =~= tokens_from(src, e));
        if is_trivia_kind(lex_step(src, i).0) {
            assert(skip_trivia(src, i) == skip_trivia(src, e));
            lemma_skip_trivia(src, e);
            let s = skip_trivia(src, e);
            if s < src.len() {
                lemma_lex_step_bounds(src, s);
            }
            assert(nontrivial_from(src, i) == nontrivial_from(src, e));
        } else {
            assert(skip_trivia(src, i) == i);
        }
    }
}

/// The bytes that a sequence of tokens covers, concatenated.
pub open spec fn covered(src: Seq<u8>, ts: Seq<(TokenKind, int, int)>) -> Seq<u8>
    decreases ts.len(),
{
    if ts.len() == 0 {
        seq![]
    } else {
        src.subrange(ts[0].1, ts[0].2) + covered(src, ts.drop_first())
    }
}

/// The shape of a token stream: it ends with exactly one end-of-file token, which
/// sits at the end of the source; every other token is non-empty; the tokens are
/// contiguous, start at `i` and stay within the source.
pub proof fn lemma_token_stream_shape(src: Seq<u8>, i: int)
    requires
        0 <= i <= src.len(),
    ensures
        ({
            let ts = tokens_from(src, i);
            &&& ts.len() >= 1
            &&& ts[0].1 == i
            &&& ts.last() == (TokenKind::Eof, src.len() as int, src.len() as int)
            &&& forall|k: int| 0 <= k < ts.len() - 1 ==> #[trigger] ts[k].0 != TokenKind::Eof && ts[k].1 < ts[k].2
            &&& forall|k: int| 0 < k < ts.len() ==> #[trigger] ts[k].1 == ts[k - 1].2
            &&& forall|k: int| 0 <= k < ts.len() ==> i <= #[trigger] ts[k].1 <= ts[k].2 <= src.len()
        }),
    decreases src.len() - i,
{
    lemma_lex_step_bounds(src, i);
    if i < src.len() {
        let e = lex_step(src, i).1;
        lemma_token_stream_shape(src, e);
        let rest = tokens_from(src, e);
        let ts = tokens_from(src, i);
        assert(ts == seq![(lex_step(src, i).0, i, e)] + rest);
        assert forall|k: int| 0 < k < ts.len() implies #[trigger] ts[k].1 == ts[k - 1].2 by {
            assert(ts[k] == rest[k - 1]);
            if k > 1 {
                assert(ts[k - 1] == rest[k - 2]);
            }
        }
        assert forall|k: int| 0 <= k < ts.len() - 1 implies #[trigger] ts[k].0 != TokenKind::Eof && ts[k].1 < ts[k].2 by {
            if k > 0 {
                assert(ts[k] == rest[k - 1]);
            }
        }
        assert forall|k: int| 0 <= k < ts.len() implies i <= #[trigger] ts[k].1 <= ts[k].2 <= src.len() by {
            if k > 0 {
                assert(ts[k] == rest[k - 1]);
            }
        }
    }
}

/// Concatenating the bytes of all tokens from `i` gives back the source from `i`.
pub proof fn lemma_token_stream_roundtrip(src: Seq<u8>, i: int)
    requires
        0 <= i <= src.len(),
    ensures
        covered(src, tokens_from(src, i)) == src.subrange(i, src.len() as int),
    decreases src.len() - i,
{
    lemma_lex_step_bounds(src, i);
    let ts = tokens_from(src, i);
    if i >= src.len() {
        assert(ts.drop_first() =~= seq![]);
        assert(covered(src, ts.drop_first()) =~= seq![]);
        assert(covered(src, ts) =~= src.subrange(i, src.len() as int));
    } else {
        let e = lex_step(src, i).1;
        lemma_token_stream_roundtrip(src, e);
        assert(ts.drop_first() =~= tokens_from(src, e));
        assert(src.subrange(i, e) + src.subrange(e, src.len() as int) =~= src.subrange(i, src.len() as int));
    }
}

impl<'src> Lexer<'src> {
    #[verifier::type_invariant]
    spec fn inv(self) -> bool {
        &&& self.source@.len() <= u32::MAX
        &&& self.cursor <= self.source@.len()
    }

    pub closed spec fn src(self) -> Seq<u8> {
        self.source@
    }

    pub closed spec fn pos(self) -> int {
        self.cursor as int
    }

    /// A lexer positioned at the start of `source`; offsets are `u32`, so the
    /// source is at most `u32::MAX` bytes long.
    pub fn new(source: &'src [u8]) -> (l: Lexer<'src>)
        requires
            source@.len() <= u32::MAX,
        ensures
            l.src() == source@,
            l.pos() == 0,
    {
        Lexer { source, cursor: 0 }
    }

    /// A lexer positioned at offset `pos` of `source`.
    pub fn at(source: &'src [u8], pos: u32) -> (l: Lexer<'src>)
        requires
            source@.len() <= u32::MAX,
            pos <= source@.len(),
        ensures
            l.src() == source@,
            l.pos() == pos,
    {
        Lexer { source, cursor: pos }
    }

    /// Scans the token at the cursor and moves past it. At the end of the source it
    /// returns an empty end-of-file token there, and the cursor stays put.
    pub fn next_token(&mut self) -> (t: Token)
        ensures
            final(self).src() == old(self).src(),
            lex_step(old(self).src(), old(self).pos()) == (t.kind_spec(), final(self).pos()),
            t.span_spec().start_spec() == old(self).pos(),
            t.span_spec().end_spec() == final(self).pos(),
            old(self).pos() <= final(self).pos() <= old(self).src().len(),
    {
        proof {
            use_type_invariant(&*self);
            lemma_lex_step_bounds(self.source@, self.cursor as int);
        }
        if self.cursor as usize >= self.source.len() {
            return Token::eof(self.cursor);
        }
        let start = self.cursor;
        let b = self.source[start as usize];
        self.cursor = start + 1;
        let kind = match classify(b) {
            ByteClass::Whitespace => {
                self.scan_whitespace();
                TokenKind::Whitespace
            },
            ByteClass::Ident => {
                self.scan_word();
                let word = vstd::slice::slice_subrange(self.source, start as usize, self.cursor as usize);
                classify_keyword(word)
            },
            ByteClass::Slash => {
                if self.scan_line_comment() {
                    TokenKind::LineComment
                } else {
                    TokenKind::ErrBadSlash
                }
            },
            ByteClass::Quote => {
                if self.scan_string() {
                    TokenKind::String
                } else {
                    TokenKind::ErrUnterminatedString
                }
            },
            ByteClass::Colon => self.scan_colon(),
            ByteClass::Dot => TokenKind::Dot,
            ByteClass::Semicolon => TokenKind::Semicolon,
            ByteClass::LBrace => TokenKind::LBrace,
            ByteClass::RBrace => TokenKind::RBrace,
            ByteClass::LParen => TokenKind::LParen,
            ByteClass::RParen => TokenKind::RParen,
            ByteClass::Pipe => TokenKind::Pipe,
            ByteClass::Amp => TokenKind::Amp,
            ByteClass::Minus => TokenKind::Minus,
            ByteClass::Eq => TokenKind::Eq,
            ByteClass::Digit | ByteClass::Other => TokenKind::Unknown,
        };
        proof {
            use_type_invariant(&*self);
        }
        Token::new(kind, Span::from_range(start, self.cursor))
    }

    /// Scans tokens until one that is neither whitespace nor a comment, and returns it.
    pub fn next_nontrivial(&mut self) -> (t: Token)
        ensures
            final(self).src() == old(self).src(),
            t.span_spec().start_spec() == skip_trivia(old(self).src(), old(self).pos()),
            lex_step(old(self).src(), t.span_spec().start_spec() as int) == (t.kind_spec(), final(self).pos()),
            t.span_spec().end_spec() == final(self).pos(),
            !is_trivia_kind(t.kind_spec()),
            old(self).pos() <= final(self).pos() <= old(self).src().len(),
            nontrivial_from(old(self).src(), old(self).pos())[0] == triple(t),
            t.kind_spec() != TokenKind::Eof ==> nontrivial_from(old(self).src(), old(self).pos())
                == seq![triple(t)] + nontrivial_from(old(self).src(), final(self).pos()),
    {
        proof {
            use_type_invariant(&*self);
            lemma_skip_trivia(self.src(), self.pos());
        }
        loop
            invariant
                self.src() == old(self).src(),
                old(self).pos() <= self.pos() <= self.src().len(),
                skip_trivia(self.src(), self.pos()) == skip_trivia(old(self).src(), old(self).pos()),
            decreases self.src().len() - self.pos(),
        {
            proof {
                use_type_invariant(&*self);
                lemma_lex_step_bounds(self.src(), self.pos());
            }
            let ghost before = self.pos();
            let tok = self.next_token();
            match tok.kind() {
                TokenKind::Whitespace | TokenKind::LineComment => {},
                _ => {
                    proof {
                        lemma_lex_step_bounds(self.src(), before);
                        assert(skip_trivia(self.src(), before) == before);
                    }
                    return tok;
                },
            }
        }
    }

    fn scan_whitespace(&mut self)
        ensures
            final(self).src() == old(self).src(),
            final(self).pos() == ws_end(old(self).src(), old(self).pos()),
    {
        proof {
            use_type_invariant(&*self);
        }
        while (self.cursor as usize) < self.source.len() && classify(self.source[self.cursor as usize]) == ByteClass::Whitespace
            invariant
                self.src() == old(self).src(),
                self.cursor <= self.source@.len() <= u32::MAX,
                ws_end(self.src(), self.pos()) == ws_end(old(self).src(), old(self).pos()),
            decreases self.source@.len() - self.cursor,
        {
            self.cursor = self.cursor + 1;
        }
    }

    fn scan_word(&mut self)
        ensures
            final(self).src() == old(self).src(),
            final(self).pos() == word_end(old(self).src(), old(self).pos()),
    {
        proof {
            use_type_invariant(&*self);
        }
        while (self.cursor as usize) < self.source.len() && (classify(self.source[self.cursor as usize]) == ByteClass::Ident || classify(self.source[self.cursor as usize]) == ByteClass::Digit)
            invariant
                self.src() == old(self).src(),
                self.cursor <= self.source@.len() <= u32::MAX,
                word_end(self.src(), self.pos()) == word_end(old(self).src(), old(self).pos()),
            decreases self.source@.len() - self.cursor,
        {
            self.cursor = self.cursor + 1;
        }
    }

    /// At a second `/`, skips to the end of the line and reports `true`.
    fn scan_line_comment(&mut self) -> (r: bool)
        ensures
            final(self).src() == old(self).src(),
            r == (old(self).pos() < old(self).src().len() && old(self).src()[old(self).pos()] == 0x2f),
            r ==> final(self).pos() == line_end(old(self).src(), old(self).pos() + 1),
            !r ==> final(self).pos() == old(self).pos(),
    {
        proof {
            use_type_invariant(&*self);
        }
        if (self.cursor as usize) >= self.source.len() || self.source[self.cursor as usize] != 0x2f {
            return false;
        }
        self.cursor = self.cursor + 1;
        while (self.cursor as usize) < self.source.len() && self.source[self.cursor as usize] != 0x0a
            invariant
                self.src() == old(self).src(),
                self.cursor <= self.source@.len() <= u32::MAX,
                line_end(self.src(), self.pos()) == line_end(old(self).src(), old(self).pos() + 1),
            decreases self.source@.len() - self.cursor,
        {
            self.cursor = self.cursor + 1;
        }
        true
    }

    /// Scans to just past the closing `"`; `false` when the source ends first, with
    /// the cursor at the end.
    fn scan_string(&mut self) -> (r: bool)
        ensures
            final(self).src() == old(self).src(),
            match quote_end(old(self).src(), old(self).pos()) {
                Some(e) => r && final(self).pos() == e,
                None => !r && final(self).pos() == old(self).src().len(),
            },
    {
        proof {
            use_type_invariant(&*self);
        }
        loop
            invariant
                self.src() == old(self).src(),
                self.cursor <= self.source@.len() <= u32::MAX,
                quote_end(self.src(), self.pos()) == quote_end(old(self).src(), old(self).pos()),
            decreases self.source@.len() - self.cursor,
        {
            if (self.cursor as usize) >= self.source.len() {
                return false;
            }
            let b = self.source[self.cursor as usize];
            self.cursor = self.cursor + 1;
            if b == 0x22 {
                return true;
            }
        }
    }

    fn scan_colon(&mut self) -> (r: TokenKind)
        ensures
            final(self).src() == old(self).src(),
            (old(self).pos() < old(self).src().len() && old(self).src()[old(self).pos()] == 0x3a) ==> r == TokenKind::ColonColon && final(self).pos() == old(self).pos() + 1,
            !(old(self).pos() < old(self).src().len() && old(self).src()[old(self).pos()] == 0x3a) ==> r == TokenKind::Colon && final(self).pos() == old(self).pos(),
    {
        proof {
            use_type_invariant(&*self);
        }
        if (self.cursor as usize) < self.source.len() && self.source[self.cursor as usize] == 0x3a {
            self.cursor = self.cursor + 1;
            TokenKind::ColonColon
        } else {
            TokenKind::Colon
        }
    }
}


/// Lexes the whole source, up to and including the end-of-file token.
pub fn lex(source: &[u8]) -> (r: Vec<Token>)
    requires
        source@.len() <= u32::MAX,
    ensures
        r.len() == tokens_from(source@, 0).len(),
        forall|k: int| 0 <= k < r.len() ==> triple(#[trigger] r[k]) == tokens_from(source@, 0)[k],
{
    let mut lexer = Lexer::new(source);
    let mut out: Vec<Token> = Vec::new();
    loop
        invariant
            lexer.src() == source@,
            0 <= lexer.pos() <= source@.len(),
            tokens_from(source@, 0) == out@.map_values(|t: Token| triple(t)) + tokens_from(source@, lexer.pos()),
        decreases source@.len() - lexer.pos(),
    {
        proof {
            lemma_lex_step_bounds(source@, lexer.pos());
        }
        let ghost p = lexer.pos();
        let tok = lexer.next_token();
        proof {
            let ts = tokens_from(source@, p);
            if p < source@.len() {
                assert(ts == seq![triple(tok)] + tokens_from(source@, lexer.pos()));
            }
            assert(out@.push(tok).map_values(|t: Token| triple(t)) =~= out@.map_values(|t: Token| triple(t)).push(triple(tok)));
        }
        out.push(tok);
        if tok.kind() == TokenKind::Eof {
            proof {
                assert(tokens_from(source@, p) =~= seq![triple(tok)]);
                assert(tokens_from(source@, 0) =~= out@.map_values(|t: Token| triple(t)));
            }
            return out;
        }
        proof {
            let ts = tokens_from(source@, p);
            assert(tokens_from(source@, 0) =~= out@.map_values(|t: Token| triple(t)) + tokens_from(source@, lexer.pos()));
        }
    }
}

} // verus!

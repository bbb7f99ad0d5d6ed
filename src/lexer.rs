//! The tokenizer: turns source text into tags, attributes and text runs.
use vstd::prelude::*;
use vstd::string::*;

verus! {

/// A place in the source text. `pos` is the offset in characters, not in
/// bytes: the text is scanned as a sequence of characters, so every offset
/// is a character boundary. `line` and `column` are kept for diagnostics
/// only.
#[derive(Clone, Copy, Debug, PartialEq, Eq)]
pub struct Loc {
    pub line: usize,
    pub column: usize,
    pub pos: usize,
}

impl Loc {
    pub fn new(line: usize, column: usize, pos: usize) -> (r: Loc)
        ensures
            r.line == line,
            r.column == column,
            r.pos == pos,
    {
        Loc { line, column, pos }
    }

    /// The start of a document: line 1, column 0, offset 0.
    pub fn start() -> (r: Loc)
        ensures
            r.line == 1,
            r.column == 0,
            r.pos == 0,
    {
        Loc { line: 1, column: 0, pos: 0 }
    }
}

/// Why tokenizing (or building a tree) stopped.
#[derive(Debug, PartialEq)]
pub enum Error {
    /// The input is exhausted: the expected end of a scan.
    END,
    /// The token stream is not one that a tree can be built from.
    ERR,
    /// A specific character was required at the given place.
    Expect(Loc, String),
    /// A character that starts no token stands at the given place.
    UnexpectedToken(Loc, String),
    /// The input ended in the middle of a construct.
    UnexpectedEnd(Loc, String),
}

/// What an error says, with the place reduced to its character offset.
pub enum ErrorV {
    End,
    Malformed,
    Expect(int),
    Unexpected(int),
    Truncated(int),
}

impl View for Error {
    type V = ErrorV;

    open spec fn view(&self) -> ErrorV {
        match self {
            Error::END => ErrorV::End,
            Error::ERR => ErrorV::Malformed,
            Error::Expect(l, _) => ErrorV::Expect(l.pos as int),
            Error::UnexpectedToken(l, _) => ErrorV::Unexpected(l.pos as int),
            Error::UnexpectedEnd(l, _) => ErrorV::Truncated(l.pos as int),
        }
    }
}

#[derive(Clone, Debug, PartialEq)]
pub enum Kind {
    OpenTag(String),
    CloseTag(String),
    SelfCloseTag(String),
    Attribute(String, String),
    Text(String),
    END,
}

/// A token kind with its text as character sequences.
pub enum Lexeme {
    Open(Seq<char>),
    Close(Seq<char>),
    SelfClose(Seq<char>),
    Attr(Seq<char>, Seq<char>),
    Text(Seq<char>),
    End,
}

impl View for Kind {
    type V = Lexeme;

    open spec fn view(&self) -> Lexeme {
        match self {
            Kind::OpenTag(n) => Lexeme::Open(n@),
            Kind::CloseTag(n) => Lexeme::Close(n@),
            Kind::SelfCloseTag(n) => Lexeme::SelfClose(n@),
            Kind::Attribute(n, v) => Lexeme::Attr(n@, v@),
            Kind::Text(t) => Lexeme::Text(t@),
            Kind::END => Lexeme::End,
        }
    }
}

/// A token: its kind, the attributes of a tag (each a `Kind::Attribute`),
/// and where it starts.
#[derive(Debug, PartialEq)]
pub struct Token {
    pub kind: Kind,
    pub attributes: Option<Vec<Kind>>,
    pub loc: Loc,
}

/// A token as the contracts see it.
pub struct TokenV {
    pub kind: Lexeme,
    pub attrs: Option<Seq<Lexeme>>,
    pub at: int,
}

/// The views of a sequence of kinds.
pub open spec fn kinds(v: Seq<Kind>) -> Seq<Lexeme> {
    v.map_values(|k: Kind| k@)
}

impl View for Token {
    type V = TokenV;

    open spec fn view(&self) -> TokenV {
        TokenV {
            kind: self.kind@,
            attrs: match self.attributes {
                Some(a) => Some(kinds(a@)),
                None => None,
            },
            at: self.loc.pos as int,
        }
    }
}

/// The views of a sequence of tokens.
pub open spec fn token_views(v: Seq<Token>) -> Seq<TokenV> {
    v.map_values(|t: Token| t@)
}

impl Default for Loc {
    fn default() -> (r: Loc)
        ensures
            r.line == 1,
            r.column == 0,
            r.pos == 0,
    {
        Loc::start()
    }
}

/// ASCII letters and digits: what names and text runs are made of.
pub open spec fn is_alnum(c: char) -> bool {
    ('a' <= c && c <= 'z') || ('A' <= c && c <= 'Z') || ('0' <= c && c <= '9')
}

/// ASCII whitespace, line breaks included.
pub open spec fn is_space(c: char) -> bool {
    c == ' ' || c == '\t' || c == '\n' || c == '\r' || c == '\x0C'
}

pub fn alnum(c: char) -> (r: bool)
    ensures
        r == is_alnum(c),
{
    ('a' <= c && c <= 'z') || ('A' <= c && c <= 'Z') || ('0' <= c && c <= '9')
}

pub fn space(c: char) -> (r: bool)
    ensures
        r == is_space(c),
{
    c == ' ' || c == '\t' || c == '\n' || c == '\r' || c == '\x0C'
}

/// End of the maximal run of alphanumerics that starts at `i`.
pub open spec fn alnum_end(s: Seq<char>, i: int) -> int
    decreases s.len() - i,
{
    if 0 <= i < s.len() && is_alnum(s[i]) {
        alnum_end(s, i + 1)
    } else {
        i
    }
}

/// End of the maximal run of whitespace that starts at `i`.
pub open spec fn space_end(s: Seq<char>, i: int) -> int
    decreases s.len() - i,
{
    if 0 <= i < s.len() && is_space(s[i]) {
        space_end(s, i + 1)
    } else {
        i
    }
}

/// The first index at or after `i` that holds `stop`, or the length of `s`.
pub open spec fn until_end(s: Seq<char>, i: int, stop: char) -> int
    decreases s.len() - i,
{
    if 0 <= i < s.len() && s[i] != stop {
        until_end(s, i + 1, stop)
    } else {
        i
    }
}

pub proof fn lemma_alnum_end(s: Seq<char>, i: int)
    requires
        0 <= i <= s.len(),
    ensures
        i <= alnum_end(s, i) <= s.len(),
        forall|k: int| i <= k < alnum_end(s, i) ==> is_alnum(#[trigger] s[k]),
    decreases s.len() - i,
{
    if i < s.len() && is_alnum(s[i]) {
        lemma_alnum_end(s, i + 1);
    }
}

pub proof fn lemma_space_end(s: Seq<char>, i: int)
    requires
        0 <= i <= s.len(),
    ensures
        i <= space_end(s, i) <= s.len(),
    decreases s.len() - i,
{
    if i < s.len() && is_space(s[i]) {
        lemma_space_end(s, i + 1);
    }
}

pub proof fn lemma_until_end(s: Seq<char>, i: int, stop: char)
    requires
        0 <= i <= s.len(),
    ensures
        i <= until_end(s, i, stop) <= s.len(),
        until_end(s, i, stop) < s.len() ==> s[until_end(s, i, stop)] == stop,
        forall|k: int| i <= k < until_end(s, i, stop) ==> #[trigger] s[k] != stop,
    decreases s.len() - i,
{
    if i < s.len() && s[i] != stop {
        lemma_until_end(s, i + 1, stop);
    }
}

/// The outcome of scanning the attributes of a tag.
pub enum AttrScan {
    /// The attributes, and the index of the `>` or `/>` that ends the tag.
    Found(Seq<Lexeme>, int),
    Failed(ErrorV),
}

/// The outcome of scanning one token.
pub enum Scan {
    /// A token, and the index just after it.
    Tok(TokenV, int),
    /// Only whitespace is left.
    Done,
    Failed(ErrorV),
}

/// Attributes from index `i` up to the end of the tag: each is a name up to
/// `=`, then a value between a pair of `"` or of `'`, not unescaped.
pub open spec fn scan_attrs(s: Seq<char>, i: int) -> AttrScan
    decreases s.len() - i,
{
    if i < 0 || i >= s.len() {
        AttrScan::Failed(ErrorV::Truncated(i))
    } else if s[i] == '>' || (s[i] == '/' && i + 1 < s.len() && s[i + 1] == '>') {
        AttrScan::Found(seq![], i)
    } else if is_space(s[i]) {
        scan_attrs(s, i + 1)
    } else {
        let e = until_end(s, i, '=');
        if e >= s.len() {
            AttrScan::Failed(ErrorV::Truncated(e))
        } else if e + 1 >= s.len() {
            AttrScan::Failed(ErrorV::Truncated(e + 1))
        } else if s[e + 1] != '"' && s[e + 1] != '\'' {
            AttrScan::Failed(ErrorV::Expect(e + 1))
        } else {
            let v = until_end(s, e + 2, s[e + 1]);
            if v >= s.len() {
                AttrScan::Failed(ErrorV::Truncated(v))
            } else {
                proof {
                    lemma_until_end(s, i, '=');
                    lemma_until_end(s, e + 2, s[e + 1]);
                }
                let a = Lexeme::Attr(s.subrange(i, e), s.subrange(e + 2, v));
                match scan_attrs(s, v + 1) {
                    AttrScan::Found(rest, m) => AttrScan::Found(seq![a] + rest, m),
                    AttrScan::Failed(x) => AttrScan::Failed(x),
                }
            }
        }
    }
}

/// A tag that starts with the `<` at index `i`: `</name>`, `<name attrs>`
/// or `<name attrs/>`, a name being a run of alphanumerics.
pub open spec fn scan_tag(s: Seq<char>, i: int) -> Scan {
    let j = i + 1;
    if j >= s.len() {
        Scan::Failed(ErrorV::Truncated(j))
    } else if s[j] == '/' {
        let k = alnum_end(s, j + 1);
        if k >= s.len() {
            Scan::Failed(ErrorV::Truncated(k))
        } else if s[k] != '>' {
            Scan::Failed(ErrorV::Expect(k))
        } else {
            Scan::Tok(
                TokenV { kind: Lexeme::Close(s.subrange(j + 1, k)), attrs: None, at: i },
                k + 1,
            )
        }
    } else {
        let k = alnum_end(s, j);
        let name = s.subrange(j, k);
        match scan_attrs(s, k) {
            AttrScan::Failed(x) => Scan::Failed(x),
            AttrScan::Found(a, m) => if s[m] == '/' {
                Scan::Tok(TokenV { kind: Lexeme::SelfClose(name), attrs: Some(a), at: i }, m + 2)
            } else {
                Scan::Tok(TokenV { kind: Lexeme::Open(name), attrs: Some(a), at: i }, m + 1)
            },
        }
    }
}

/// The token that follows index `i`, after any whitespace: a tag, or a
/// text run of alphanumerics. Any other character is an error.
pub open spec fn scan_token(s: Seq<char>, i: int) -> Scan {
    let j = space_end(s, i);
    if j >= s.len() {
        Scan::Done
    } else if s[j] == '<' {
        scan_tag(s, j)
    } else {
        let k = alnum_end(s, j);
        if k == j {
            Scan::Failed(ErrorV::Unexpected(j))
        } else {
            Scan::Tok(TokenV { kind: Lexeme::Text(s.subrange(j, k)), attrs: None, at: j }, k)
        }
    }
}

pub proof fn lemma_scan_attrs(s: Seq<char>, i: int)
    requires
        0 <= i <= s.len(),
    ensures
        scan_attrs(s, i) matches AttrScan::Found(_, m) ==> i <= m && m < s.len() && (s[m] == '>'
            || (s[m] == '/' && m + 1 < s.len() && s[m + 1] == '>')),
        scan_attrs(s, i) matches AttrScan::Failed(x) ==> !(x is End),
    decreases s.len() - i,
{
    if i < s.len() && !(s[i] == '>' || (s[i] == '/' && i + 1 < s.len() && s[i + 1] == '>')) {
        if is_space(s[i]) {
            lemma_scan_attrs(s, i + 1);
        } else {
            let e = until_end(s, i, '=');
            lemma_until_end(s, i, '=');
            if e + 1 < s.len() && (s[e + 1] == '"' || s[e + 1] == '\'') {
                lemma_until_end(s, e + 2, s[e + 1]);
                let v = until_end(s, e + 2, s[e + 1]);
                if v < s.len() {
                    lemma_scan_attrs(s, v + 1);
                }
            }
        }
    }
}

/// A token found at `i` ends after `i` and within the text.
pub proof fn lemma_scan_token(s: Seq<char>, i: int)
    requires
        0 <= i <= s.len(),
    ensures
        scan_token(s, i) matches Scan::Tok(t, e) ==> i < e <= s.len() && i <= t.at,
        scan_token(s, i) matches Scan::Failed(x) ==> !(x is End),
{
    lemma_space_end(s, i);
    let j = space_end(s, i);
    if j < s.len() {
        if s[j] == '<' {
            if j + 1 < s.len() {
                if s[j + 1] == '/' {
                    lemma_alnum_end(s, j + 2);
                } else {
                    lemma_alnum_end(s, j + 1);
                    lemma_scan_attrs(s, alnum_end(s, j + 1));
                }
            }
        } else {
            lemma_alnum_end(s, j);
        }
    }
}

/// The tokens scanned from index `i` until only whitespace is left or a
/// scan fails.
pub open spec fn scanned_tokens(s: Seq<char>, i: int) -> Seq<TokenV>
    decreases s.len() - i,
{
    if 0 <= i <= s.len() {
        match scan_token(s, i) {
            Scan::Tok(t, e) => {
                proof {
                    lemma_scan_token(s, i);
                }
                seq![t] + scanned_tokens(s, e)
            },
            _ => Seq::empty(),
        }
    } else {
        Seq::empty()
    }
}

/// All tokens from index `i` to the end of the text, or the first error.
pub open spec fn scan_all(s: Seq<char>, i: int) -> Result<Seq<TokenV>, ErrorV>
    decreases s.len() - i,
{
    if 0 <= i <= s.len() {
        match scan_token(s, i) {
            Scan::Done => Ok(seq![]),
            Scan::Failed(x) => Err(x),
            Scan::Tok(t, e) => {
                proof {
                    lemma_scan_token(s, i);
                }
                match scan_all(s, e) {
                    Ok(ts) => Ok(seq![t] + ts),
                    Err(x) => Err(x),
                }
            },
        }
    } else {
        Err(ErrorV::Malformed)
    }
}

/// Attributes `p` followed by the outcome `r` of scanning the rest.
pub open spec fn prepend_attrs(p: Seq<Lexeme>, r: AttrScan) -> AttrScan {
    match r {
        AttrScan::Found(a, m) => AttrScan::Found(p + a, m),
        AttrScan::Failed(x) => AttrScan::Failed(x),
    }
}

/// Tokens `p` followed by the outcome `r` of scanning the rest.
pub open spec fn prepend_tokens(p: Seq<TokenV>, r: Result<Seq<TokenV>, ErrorV>) -> Result<
    Seq<TokenV>,
    ErrorV,
> {
    match r {
        Ok(ts) => Ok(p + ts),
        Err(x) => Err(x),
    }
}

/// `r` is what the scan `sc` describes, and `end` is where it stopped.
pub open spec fn scanned(r: Result<Token, Error>, sc: Scan, end: int) -> bool {
    match sc {
        Scan::Tok(t, e) => r is Ok && r->Ok_0@ == t && end == e,
        Scan::Done => r is Err && r->Err_0 is END,
        Scan::Failed(x) => r is Err && r->Err_0@ == x,
    }
}

/// The characters of `s`, in order.
pub fn chars_of(s: &str) -> (r: Vec<char>)
    ensures
        r@ == s@,
{
    let n = s.unicode_len();
    let mut out: Vec<char> = Vec::new();
    let mut i: usize = 0;
    while i < n
        invariant
            n == s@.len(),
            i <= n,
            out@ == s@.subrange(0, i as int),
        decreases n - i,
    {
        out.push(s.get_char(i));
        i += 1;
    }
    out
}

impl Kind {
    /// A copy of this kind.
    pub fn duplicate(&self) -> (r: Kind)
        ensures
            r@ == self@,
    {
        match self {
            Kind::OpenTag(n) => Kind::OpenTag(n.clone()),
            Kind::CloseTag(n) => Kind::CloseTag(n.clone()),
            Kind::SelfCloseTag(n) => Kind::SelfCloseTag(n.clone()),
            Kind::Attribute(n, v) => Kind::Attribute(n.clone(), v.clone()),
            Kind::Text(t) => Kind::Text(t.clone()),
            Kind::END => Kind::END,
        }
    }
}

impl Token {
    /// A copy of this token.
    pub fn duplicate(&self) -> (r: Token)
        ensures
            r@ == self@,
    {
        let attributes = match &self.attributes {
            None => None,
            Some(a) => {
                let mut out: Vec<Kind> = Vec::new();
                let mut i: usize = 0;
                while i < a.len()
                    invariant
                        i <= a@.len(),
                        kinds(out@) == kinds(a@.subrange(0, i as int)),
                    decreases a@.len() - i,
                {
                    let k = a[i].duplicate();
                    let ghost before = out@;
                    out.push(k);
                    assert(a@.subrange(0, i + 1) =~= a@.subrange(0, i as int).push(a@[i as int]));
                    assert(kinds(out@) =~= kinds(before).push(k@));
                    i += 1;
                }
                assert(a@.subrange(0, a@.len() as int) =~= a@);
                Some(out)
            },
        };
        Token { kind: self.kind.duplicate(), attributes, loc: self.loc }
    }
}

/// Relies on std's String::push: the character is appended.
pub assume_specification[ String::push ](s: &mut String, ch: char)
    ensures
        final(s)@ == old(s)@.push(ch),
;

/// A scanner over source text that collects tokens in `buf`; `pos` is the
/// cursor of a reader of `buf`.
pub struct Lexer {
    pub code: String,
    pub chars: Vec<char>,
    pub loc: Loc,
    pub buf: Vec<Token>,
    pub pos: usize,
}

impl Lexer {
    pub open spec fn wf(&self) -> bool {
        &&& self.chars@ == self.code@
        &&& self.loc.pos <= self.chars@.len()
        &&& self.pos <= self.buf@.len()
    }

    /// Only the scanning position (and its line and column) differ, and the
    /// position has not moved back.
    pub open spec fn same_input(&self, o: Lexer) -> bool {
        &&& o.loc.pos <= self.loc.pos
        &&& self.code@ == o.code@
        &&& self.chars@ == o.chars@
        &&& self.buf@ == o.buf@
        &&& self.pos == o.pos
    }

    pub fn new(code: String) -> (r: Lexer)
        ensures
            r.wf(),
            r.code@ == code@,
            r.loc.line == 1,
            r.loc.column == 0,
            r.loc.pos == 0,
            r.buf@.len() == 0,
            r.pos == 0,
    {
        let chars = chars_of(code.as_str());
        Lexer { code, chars, loc: Loc::default(), buf: Vec::new(), pos: 0 }
    }

    fn peek_char(&self) -> (r: Option<char>)
        requires
            self.wf(),
        ensures
            r == if self.loc.pos < self.chars@.len() {
                Some(self.chars@[self.loc.pos as int])
            } else {
                None::<char>
            },
    {
        if self.loc.pos < self.chars.len() {
            Some(self.chars[self.loc.pos])
        } else {
            None
        }
    }

    /// The character `index` places after the current one, if any.
    fn peek_chars(&self, index: usize) -> (r: Option<char>)
        requires
            self.wf(),
        ensures
            r == if self.loc.pos + index < self.chars@.len() {
                Some(self.chars@[self.loc.pos + index])
            } else {
                None::<char>
            },
    {
        if index < self.chars.len() - self.loc.pos {
            Some(self.chars[self.loc.pos + index])
        } else {
            None
        }
    }

    fn eof(&self) -> (r: bool)
        requires
            self.wf(),
        ensures
            r == (self.loc.pos >= self.chars@.len()),
    {
        self.loc.pos >= self.chars.len()
    }

    fn take_char(&mut self) -> (r: char)
        requires
            old(self).wf(),
            old(self).loc.pos < old(self).chars@.len(),
        ensures
            final(self).wf(),
            final(self).same_input(*old(self)),
            final(self).loc.pos == old(self).loc.pos + 1,
            r == old(self).chars@[old(self).loc.pos as int],
    {
        let n = self.chars.len();
        let c = self.chars[self.loc.pos];
        assert(self.loc.pos < n);
        self.loc.pos = self.loc.pos + 1;
        if c == '\n' {
            self.loc.line = self.loc.line.saturating_add(1);
            self.loc.column = 0;
        } else {
            self.loc.column = self.loc.column.saturating_add(1);
        }
        c
    }

    fn skip_whitespace(&mut self)
        requires
            old(self).wf(),
        ensures
            final(self).wf(),
            final(self).same_input(*old(self)),
            final(self).loc.pos == space_end(old(self).chars@, old(self).loc.pos as int),
    {
        let ghost s = self.chars@;
        let ghost p0 = self.loc.pos as int;
        while !self.eof() && space(self.chars[self.loc.pos])
            invariant
                self.wf(),
                self.same_input(*old(self)),
                s == self.chars@,
                0 <= p0 <= self.loc.pos,
                space_end(s, p0) == space_end(s, self.loc.pos as int),
            decreases self.chars@.len() - self.loc.pos,
        {
            self.take_char();
        }
    }

    /// The maximal run of alphanumerics at the cursor.
    fn take_alnum(&mut self) -> (r: String)
        requires
            old(self).wf(),
        ensures
            final(self).wf(),
            final(self).same_input(*old(self)),
            final(self).loc.pos == alnum_end(old(self).chars@, old(self).loc.pos as int),
            r@ == old(self).chars@.subrange(old(self).loc.pos as int, final(self).loc.pos as int),
    {
        let ghost s = self.chars@;
        let ghost p0 = self.loc.pos as int;
        let mut out = String::new();
        while !self.eof() && alnum(self.chars[self.loc.pos])
            invariant
                self.wf(),
                self.same_input(*old(self)),
                s == self.chars@,
                0 <= p0 <= self.loc.pos,
                alnum_end(s, p0) == alnum_end(s, self.loc.pos as int),
                out@ == s.subrange(p0, self.loc.pos as int),
            decreases self.chars@.len() - self.loc.pos,
        {
            let c = self.take_char();
            out.push(c);
            assert(out@ =~= s.subrange(p0, self.loc.pos as int));
        }
        out
    }

    /// The run of characters other than `stop` at the cursor.
    fn take_until(&mut self, stop: char) -> (r: String)
        requires
            old(self).wf(),
        ensures
            final(self).wf(),
            final(self).same_input(*old(self)),
            final(self).loc.pos == until_end(old(self).chars@, old(self).loc.pos as int, stop),
            r@ == old(self).chars@.subrange(old(self).loc.pos as int, final(self).loc.pos as int),
    {
        let ghost s = self.chars@;
        let ghost p0 = self.loc.pos as int;
        let mut out = String::new();
        while !self.eof() && self.chars[self.loc.pos] != stop
            invariant
                self.wf(),
                self.same_input(*old(self)),
                s == self.chars@,
                0 <= p0 <= self.loc.pos,
                until_end(s, p0, stop) == until_end(s, self.loc.pos as int, stop),
                out@ == s.subrange(p0, self.loc.pos as int),
            decreases self.chars@.len() - self.loc.pos,
        {
            let c = self.take_char();
            out.push(c);
            assert(out@ =~= s.subrange(p0, self.loc.pos as int));
        }
        out
    }

    fn read_attributes(&mut self) -> (r: Result<Vec<Kind>, Error>)
        requires
            old(self).wf(),
        ensures
            final(self).wf(),
            final(self).same_input(*old(self)),
            match scan_attrs(old(self).chars@, old(self).loc.pos as int) {
                AttrScan::Found(a, m) => r is Ok && kinds(r->Ok_0@) == a && final(self).loc.pos
                    == m,
                AttrScan::Failed(x) => r is Err && r->Err_0@ == x,
            },
    {
        let ghost s = self.chars@;
        let ghost p0 = self.loc.pos as int;
        let mut out: Vec<Kind> = Vec::new();
        loop
            invariant
                self.wf(),
                self.same_input(*old(self)),
                s == self.chars@,
                s == old(self).chars@,
                p0 == old(self).loc.pos,
                0 <= p0 <= self.loc.pos,
                scan_attrs(s, p0) == prepend_attrs(kinds(out@), scan_attrs(s, self.loc.pos as int)),
            ensures
                self.wf(),
                self.same_input(*old(self)),
                scan_attrs(s, p0) == AttrScan::Found(kinds(out@), self.loc.pos as int),
            decreases self.chars@.len() - self.loc.pos,
        {
            let c = match self.peek_char() {
                None => {
                    return Err(Error::UnexpectedEnd(self.loc, "end of input inside a tag".to_owned()));
                },
                Some(c) => c,
            };
            let closing = match self.peek_chars(1) {
                Some(n) => c == '/' && n == '>',
                None => false,
            };
            if c == '>' || closing {
                assert(scan_attrs(s, self.loc.pos as int) == AttrScan::Found(
                    Seq::empty(),
                    self.loc.pos as int,
                ));
                assert(kinds(out@) + Seq::<Lexeme>::empty() =~= kinds(out@));
                break ;
            }
            if space(c) {
                self.take_char();
            } else {
                let ghost i = self.loc.pos as int;
                let name = self.take_until('=');
                proof {
                    lemma_until_end(s, i, '=');
                }
                if self.eof() {
                    assert(scan_attrs(s, i) == AttrScan::Failed(ErrorV::Truncated(self.loc.pos as int)));
                    return Err(
                        Error::UnexpectedEnd(self.loc, "end of input in an attribute name".to_owned()),
                    );
                }
                self.take_char();
                let quote = match self.peek_char() {
                    None => {
                        assert(scan_attrs(s, i) == AttrScan::Failed(ErrorV::Truncated(self.loc.pos as int)));
                        return Err(
                            Error::UnexpectedEnd(self.loc, "end of input before a quote".to_owned()),
                        );
                    },
                    Some(q) => q,
                };
                if quote != '"' && quote != '\'' {
                    assert(scan_attrs(s, i) == AttrScan::Failed(ErrorV::Expect(self.loc.pos as int)));
                    return Err(Error::Expect(self.loc, "a quote".to_owned()));
                }
                self.take_char();
                let ghost vs = self.loc.pos as int;
                let value = self.take_until(quote);
                proof {
                    lemma_until_end(s, vs, quote);
                }
                if self.eof() {
                    assert(scan_attrs(s, i) == AttrScan::Failed(ErrorV::Truncated(self.loc.pos as int)));
                    return Err(
                        Error::UnexpectedEnd(self.loc, "end of input in an attribute value".to_owned()),
                    );
                }
                self.take_char();
                let ghost a = Lexeme::Attr(name@, value@);
                assert(scan_attrs(s, i) == prepend_attrs(seq![a], scan_attrs(s, self.loc.pos as int)));
                let ghost before = kinds(out@);
                out.push(Kind::Attribute(name, value));
                proof {
                    assert(kinds(out@) =~= before.push(a));
                    assert(before + (seq![a] + Seq::empty()) =~= before.push(a));
                    match scan_attrs(s, self.loc.pos as int) {
                        AttrScan::Found(rest, m) => {
                            assert(before + (seq![a] + rest) =~= before.push(a) + rest);
                        },
                        AttrScan::Failed(x) => {},
                    }
                }
            }
        }
        Ok(out)
    }

    fn read_tag(&mut self) -> (r: Result<Token, Error>)
        requires
            old(self).wf(),
            old(self).loc.pos < old(self).chars@.len(),
            old(self).chars@[old(self).loc.pos as int] == '<',
        ensures
            final(self).wf(),
            final(self).same_input(*old(self)),
            scanned(r, scan_tag(old(self).chars@, old(self).loc.pos as int), final(self).loc.pos as int),
    {
        let ghost s = self.chars@;
        let ghost i = self.loc.pos as int;
        let start = self.loc;
        self.take_char();
        let c = match self.peek_char() {
            None => {
                return Err(Error::UnexpectedEnd(self.loc, "end of input after `<`".to_owned()));
            },
            Some(c) => c,
        };
        if c == '/' {
            self.take_char();
            let name = self.take_alnum();
            proof {
                lemma_alnum_end(s, i + 2);
            }
            match self.peek_char() {
                None => {
                    return Err(Error::UnexpectedEnd(self.loc, "end of input in a closing tag".to_owned()));
                },
                Some(c) => {
                    if c != '>' {
                        return Err(Error::Expect(self.loc, "`>`".to_owned()));
                    }
                },
            }
            self.take_char();
            Ok(Token { kind: Kind::CloseTag(name), attributes: None, loc: start })
        } else {
            let name = self.take_alnum();
            proof {
                lemma_alnum_end(s, i + 1);
                lemma_scan_attrs(s, self.loc.pos as int);
            }
            let attributes = match self.read_attributes() {
                Err(e) => {
                    return Err(e);
                },
                Ok(a) => a,
            };
            let c = self.take_char();
            if c == '/' {
                self.take_char();
                Ok(Token { kind: Kind::SelfCloseTag(name), attributes: Some(attributes), loc: start })
            } else {
                Ok(Token { kind: Kind::OpenTag(name), attributes: Some(attributes), loc: start })
            }
        }
    }

    fn read_text(&mut self) -> (r: Result<Token, Error>)
        requires
            old(self).wf(),
        ensures
            final(self).wf(),
            final(self).same_input(*old(self)),
            ({
                let s = old(self).chars@;
                let j = old(self).loc.pos as int;
                let k = alnum_end(s, j);
                if k == j {
                    r is Err && r->Err_0@ == ErrorV::Unexpected(j)
                } else {
                    r is Ok && r->Ok_0@ == TokenV {
                        kind: Lexeme::Text(s.subrange(j, k)),
                        attrs: None,
                        at: j,
                    } && final(self).loc.pos == k
                }
            }),
    {
        let start = self.loc;
        let text = self.take_alnum();
        if self.loc.pos == start.pos {
            Err(Error::UnexpectedToken(start, "a character that starts no token".to_owned()))
        } else {
            Ok(Token { kind: Kind::Text(text), attributes: None, loc: start })
        }
    }

    /// Scans the next token: `Error::END` where only whitespace is left.
    pub fn tokenize(&mut self) -> (r: Result<Token, Error>)
        requires
            old(self).wf(),
        ensures
            final(self).wf(),
            final(self).same_input(*old(self)),
            scanned(r, scan_token(old(self).chars@, old(self).loc.pos as int), final(self).loc.pos as int),
            scan_token(old(self).chars@, old(self).loc.pos as int) is Done ==> final(self).loc.pos
                == final(self).chars@.len(),
    {
        self.skip_whitespace();
        match self.peek_char() {
            None => Err(Error::END),
            Some(c) => {
                if c == '<' {
                    self.read_tag()
                } else {
                    self.read_text()
                }
            },
        }
    }

    /// Scans the rest of the text into `buf`. On success `buf` has gained
    /// every token of it; otherwise the first error is returned.
    pub fn tokenize_all(&mut self) -> (r: Result<(), Error>)
        requires
            old(self).wf(),
        ensures
            final(self).wf(),
            final(self).code@ == old(self).code@,
            final(self).chars@ == old(self).chars@,
            final(self).pos == old(self).pos,
            old(self).loc.pos <= final(self).loc.pos,
            token_views(final(self).buf@) == token_views(old(self).buf@) + scanned_tokens(
                old(self).chars@,
                old(self).loc.pos as int,
            ),
            match scan_all(old(self).chars@, old(self).loc.pos as int) {
                Ok(ts) => r is Ok && ts == scanned_tokens(old(self).chars@, old(self).loc.pos as int)
                    && final(self).loc.pos == final(self).chars@.len(),
                Err(x) => r is Err && r->Err_0@ == x,
            },
    {
        let ghost s = self.chars@;
        let ghost p0 = self.loc.pos as int;
        let ghost added: Seq<TokenV> = Seq::empty();
        loop
            invariant_except_break
                scan_all(s, p0) == prepend_tokens(added, scan_all(s, self.loc.pos as int)),
                scanned_tokens(s, p0) == added + scanned_tokens(s, self.loc.pos as int),
            invariant
                self.wf(),
                self.code@ == old(self).code@,
                s == self.chars@,
                s == old(self).chars@,
                p0 == old(self).loc.pos,
                p0 <= self.loc.pos,
                self.pos == old(self).pos,
                token_views(self.buf@) == token_views(old(self).buf@) + added,
            ensures
                self.wf(),
                self.code@ == old(self).code@,
                s == self.chars@,
                self.pos == old(self).pos,
                p0 <= self.loc.pos,
                self.loc.pos == self.chars@.len(),
                token_views(self.buf@) == token_views(old(self).buf@) + added,
                scan_all(s, p0) == Ok::<Seq<TokenV>, ErrorV>(added),
                scanned_tokens(s, p0) == added,
            decreases self.chars@.len() - self.loc.pos,
        {
            let ghost i = self.loc.pos as int;
            let ghost before = self.buf@;
            proof {
                lemma_scan_token(s, i);
            }
            match self.tokenize() {
                Ok(tok) => {
                    let ghost t = tok@;
                    self.buf.push(tok);
                    proof {
                        assert(token_views(self.buf@) =~= token_views(before).push(t));
                        assert(token_views(old(self).buf@) + added.push(t) =~= token_views(
                            old(self).buf@,
                        ) + added + seq![t]);
                        match scan_all(s, self.loc.pos as int) {
                            Ok(ts) => {
                                assert(added + (seq![t] + ts) =~= added.push(t) + ts);
                            },
                            Err(x) => {},
                        }
                        assert(added + (seq![t] + scanned_tokens(s, self.loc.pos as int))
                            =~= added.push(t) + scanned_tokens(s, self.loc.pos as int));
                        added = added.push(t);
                    }
                },
                Err(Error::END) => {
                    assert(scan_all(s, i) == Ok::<Seq<TokenV>, ErrorV>(Seq::empty()));
                    assert(scanned_tokens(s, i) == Seq::<TokenV>::empty());
                    assert(added + Seq::<TokenV>::empty() =~= added);
                    break ;
                },
                Err(e) => {
                    assert(scanned_tokens(s, i) == Seq::<TokenV>::empty());
                    assert(added + Seq::<TokenV>::empty() =~= added);
                    return Err(e);
                },
            }
        }
        Ok(())
    }
}

} // verus!

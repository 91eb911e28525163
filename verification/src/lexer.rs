use vstd::prelude::*;
use vstd::string::StringExecFns;
use vstd::string::StrSliceExecFns;
use crate::num::{Number, spec_literal_number, spec_digits_val, pow10, SCALE};
use crate::token::{Token, TokenKind, TokenModel, TokenKindModel, tokens_model};

verus! {

/// A scanning failure: what went wrong and on which source line.
#[derive(Debug, Clone, Copy, PartialEq, Eq, Structural)]
pub struct LexError {
    pub kind: LexErrorKind,
    pub line: usize,
}

#[derive(Debug, Clone, Copy, PartialEq, Eq, Structural)]
pub enum LexErrorKind {
    /// A byte outside the language's alphabet.
    UnexpectedChar,
    /// A string literal still open at the end of the input.
    UnterminatedString,
}

pub open spec fn is_digit(c: char) -> bool {
    48 <= c as u32 <= 57
}

pub open spec fn is_alpha_char(c: char) -> bool {
    (65 <= c as u32 <= 90) || (97 <= c as u32 <= 122) || c as u32 == 95
}

pub open spec fn is_alnum_char(c: char) -> bool {
    is_alpha_char(c) || is_digit(c)
}

/// The next line number: line counting saturates rather than overflowing.
pub open spec fn bump(l: nat) -> nat {
    if l < usize::MAX {
        l + 1
    } else {
        l
    }
}

/// The end of the run of digits starting at `j`.
pub open spec fn digit_end(s: Seq<char>, j: int) -> int
    decreases s.len() - j,
{
    if j < s.len() && is_digit(s[j]) {
        digit_end(s, j + 1)
    } else {
        j
    }
}

/// The end of the run of identifier characters starting at `j`.
pub open spec fn ident_end(s: Seq<char>, j: int) -> int
    decreases s.len() - j,
{
    if j < s.len() && is_alnum_char(s[j]) {
        ident_end(s, j + 1)
    } else {
        j
    }
}

/// The first newline at or after `j` (or the end of the input): where a
/// line comment stops consuming.
pub open spec fn comment_end(s: Seq<char>, j: int) -> int
    decreases s.len() - j,
{
    if j < s.len() && s[j] != '\n' {
        comment_end(s, j + 1)
    } else {
        j
    }
}

/// The first closing quote at or after `j`, or the end of the input when
/// the string never closes.
pub open spec fn string_end(s: Seq<char>, j: int) -> int
    decreases s.len() - j,
{
    if j < s.len() && s[j] != '"' {
        string_end(s, j + 1)
    } else {
        j
    }
}

/// The line counter after walking `s[a..b)`: bumped once per newline.
pub open spec fn line_after(s: Seq<char>, a: int, b: int, l: nat) -> nat
    decreases b - a,
{
    if a >= b {
        l
    } else {
        let prev = line_after(s, a, b - 1, l);
        if s[b - 1] == '\n' {
            bump(prev)
        } else {
            prev
        }
    }
}

/// The keyword kind for `w`, or an identifier token carrying it.
pub open spec fn keyword_kind(w: Seq<char>) -> TokenKindModel {
    if w == seq!['l', 'e', 't'] {
        TokenKindModel::Let
    } else if w == seq!['c', 'o', 'n', 's', 't'] {
        TokenKindModel::Const
    } else if w == seq!['f', 'n'] {
        TokenKindModel::Fn
    } else if w == seq!['i', 'f'] {
        TokenKindModel::If
    } else if w == seq!['e', 'l', 's', 'e'] {
        TokenKindModel::Else
    } else if w == seq!['w', 'h', 'i', 'l', 'e'] {
        TokenKindModel::While
    } else if w == seq!['r', 'e', 't', 'u', 'r', 'n'] {
        TokenKindModel::Return
    } else if w == seq!['t', 'r', 'u', 'e'] {
        TokenKindModel::True
    } else if w == seq!['f', 'a', 'l', 's', 'e'] {
        TokenKindModel::False
    } else if w == seq!['n', 'u', 'l', 'l'] {
        TokenKindModel::Null
    } else if w == seq!['i', 'm', 'p', 'o', 'r', 't'] {
        TokenKindModel::Import
    } else if w == seq!['e', 'x', 'p', 'o', 'r', 't'] {
        TokenKindModel::Export
    } else {
        TokenKindModel::Identifier(w)
    }
}

/// One step of the scanner at position `i`, line `l`: a token, skipped
/// text, or a failure.
pub enum LexStep {
    Skip { next: int, line: nat },
    Tok { kind: TokenKindModel, next: int, line: nat },
    Fail { err: LexError },
}

/// What the scanner does with the character at `i` (which must exist):
/// which token it emits or what it skips, where scanning resumes, and the
/// line counter there.
pub open spec fn spec_step(s: Seq<char>, i: int, l: nat) -> LexStep
    recommends
        0 <= i < s.len(),
{
    let c = s[i];
    if c == '(' {
        LexStep::Tok { kind: TokenKindModel::LParen, next: i + 1, line: l }
    } else if c == ')' {
        LexStep::Tok { kind: TokenKindModel::RParen, next: i + 1, line: l }
    } else if c == '{' {
        LexStep::Tok { kind: TokenKindModel::LBrace, next: i + 1, line: l }
    } else if c == '}' {
        LexStep::Tok { kind: TokenKindModel::RBrace, next: i + 1, line: l }
    } else if c == '[' {
        LexStep::Tok { kind: TokenKindModel::LBracket, next: i + 1, line: l }
    } else if c == ']' {
        LexStep::Tok { kind: TokenKindModel::RBracket, next: i + 1, line: l }
    } else if c == ',' {
        LexStep::Tok { kind: TokenKindModel::Comma, next: i + 1, line: l }
    } else if c == '.' {
        LexStep::Tok { kind: TokenKindModel::Dot, next: i + 1, line: l }
    } else if c == '+' {
        if i + 1 < s.len() && s[i + 1] == '=' {
            LexStep::Tok { kind: TokenKindModel::PlusEqual, next: i + 2, line: l }
        } else {
            LexStep::Tok { kind: TokenKindModel::Plus, next: i + 1, line: l }
        }
    } else if c == '-' {
        if i + 1 < s.len() && s[i + 1] == '=' {
            LexStep::Tok { kind: TokenKindModel::MinusEqual, next: i + 2, line: l }
        } else {
            LexStep::Tok { kind: TokenKindModel::Minus, next: i + 1, line: l }
        }
    } else if c == '*' {
        if i + 1 < s.len() && s[i + 1] == '=' {
            LexStep::Tok { kind: TokenKindModel::StarEqual, next: i + 2, line: l }
        } else {
            LexStep::Tok { kind: TokenKindModel::Star, next: i + 1, line: l }
        }
    } else if c == '/' {
        if i + 1 < s.len() && s[i + 1] == '=' {
            LexStep::Tok { kind: TokenKindModel::SlashEqual, next: i + 2, line: l }
        } else if i + 1 < s.len() && s[i + 1] == '/' {
            LexStep::Skip { next: comment_end(s, i + 2), line: l }
        } else {
            LexStep::Tok { kind: TokenKindModel::Slash, next: i + 1, line: l }
        }
    } else if c == '=' {
        if i + 1 < s.len() && s[i + 1] == '=' {
            LexStep::Tok { kind: TokenKindModel::EqualEqual, next: i + 2, line: l }
        } else {
            LexStep::Tok { kind: TokenKindModel::Equal, next: i + 1, line: l }
        }
    } else if c == '>' {
        if i + 1 < s.len() && s[i + 1] == '=' {
            LexStep::Tok { kind: TokenKindModel::GreaterEqual, next: i + 2, line: l }
        } else {
            LexStep::Tok { kind: TokenKindModel::Greater, next: i + 1, line: l }
        }
    } else if c == '<' {
        if i + 1 < s.len() && s[i + 1] == '=' {
            LexStep::Tok { kind: TokenKindModel::LessEqual, next: i + 2, line: l }
        } else {
            LexStep::Tok { kind: TokenKindModel::Less, next: i + 1, line: l }
        }
    } else if c == ' ' || c == '\t' || c == '\r' {
        LexStep::Skip { next: i + 1, line: l }
    } else if c == '\n' {
        LexStep::Skip { next: i + 1, line: bump(l) }
    } else if c == '"' {
        let e = string_end(s, i + 1);
        if e >= s.len() {
            LexStep::Fail {
                err: LexError {
                    kind: LexErrorKind::UnterminatedString,
                    line: line_after(s, i + 1, s.len() as int, l) as usize,
                },
            }
        } else {
            LexStep::Tok {
                kind: TokenKindModel::Str(s.subrange(i + 1, e)),
                next: e + 1,
                line: line_after(s, i + 1, e, l),
            }
        }
    } else if is_digit(c) {
        let e1 = digit_end(s, i);
        if e1 < s.len() && s[e1] == '.' && e1 + 1 < s.len() && is_digit(s[e1 + 1]) {
            let e2 = digit_end(s, e1 + 1);
            LexStep::Tok {
                kind: TokenKindModel::Number(
                    spec_literal_number(s.subrange(i, e1), s.subrange(e1 + 1, e2)),
                ),
                next: e2,
                line: l,
            }
        } else {
            LexStep::Tok {
                kind: TokenKindModel::Number(
                    spec_literal_number(s.subrange(i, e1), Seq::empty()),
                ),
                next: e1,
                line: l,
            }
        }
    } else if is_alpha_char(c) {
        let e = ident_end(s, i);
        LexStep::Tok { kind: keyword_kind(s.subrange(i, e)), next: e, line: l }
    } else {
        LexStep::Fail { err: LexError { kind: LexErrorKind::UnexpectedChar, line: l as usize } }
    }
}

/// The whole token stream from position `i` at line `l`: the scan steps
/// until the end of the input, then an end-of-stream token. (The guards on
/// `next` only keep the recursion well-founded; every step moves forward.)
pub open spec fn spec_scan_from(s: Seq<char>, i: int, l: nat) -> Result<Seq<TokenModel>, LexError>
    decreases s.len() - i,
{
    if i >= s.len() {
        Ok(seq![TokenModel { kind: TokenKindModel::Eof, line: l }])
    } else {
        match spec_step(s, i, l) {
            LexStep::Skip { next, line } => {
                if i < next <= s.len() {
                    spec_scan_from(s, next, line)
                } else {
                    Err(LexError { kind: LexErrorKind::UnexpectedChar, line: 0 })
                }
            },
            LexStep::Tok { kind, next, line } => {
                if i < next <= s.len() {
                    match spec_scan_from(s, next, line) {
                        Ok(rest) => Ok(seq![TokenModel { kind, line }] + rest),
                        Err(e) => Err(e),
                    }
                } else {
                    Err(LexError { kind: LexErrorKind::UnexpectedChar, line: 0 })
                }
            },
            LexStep::Fail { err } => Err(err),
        }
    }
}

/// The token stream of a whole source text, starting at line one.
pub open spec fn spec_scan(s: Seq<char>) -> Result<Seq<TokenModel>, LexError> {
    spec_scan_from(s, 0, 1)
}

/// Relies on String::push: appends exactly one character at the end.
#[verifier::external_body]
fn push_char(s: &mut String, c: char)
    ensures
        final(s)@ == old(s)@.push(c),
{
    s.push(c);
}

/// A running scan of one source text, kept as characters.
pub struct Lexer {
    pub src: Vec<char>,
    pub start: usize,
    pub current: usize,
    pub line: usize,
}

impl Lexer {
    pub open spec fn wf(&self) -> bool {
        self.current <= self.src@.len()
    }

    pub fn new(source: &str) -> (lx: Lexer)
        ensures
            lx.src@ == source@,
            lx.start == 0,
            lx.current == 0,
            lx.line == 1,
            lx.wf(),
    {
        let n = source.unicode_len();
        let mut chars: Vec<char> = Vec::new();
        let mut i: usize = 0;
        while i < n
            invariant
                n == source@.len(),
                i <= n,
                chars@ == source@.subrange(0, i as int),
            decreases n - i,
        {
            let c = source.get_char(i);
            chars.push(c);
            proof {
                assert(chars@ =~= source@.subrange(0, i + 1));
            }
            i = i + 1;
        }
        proof {
            assert(chars@ =~= source@);
        }
        Lexer { src: chars, start: 0, current: 0, line: 1 }
    }

    pub fn is_at_end(&self) -> (r: bool)
        ensures
            r == (self.current >= self.src@.len()),
    {
        self.current >= self.src.len()
    }

    pub fn advance(&mut self) -> (c: char)
        requires
            old(self).wf(),
            old(self).current < old(self).src@.len(),
        ensures
            c == old(self).src@[old(self).current as int],
            final(self).current == old(self).current + 1,
            final(self).src == old(self).src,
            final(self).line == old(self).line,
            final(self).start == old(self).start,
            final(self).wf(),
    {
        let _len: usize = self.src.len();
        let c = self.src[self.current];
        self.current = self.current + 1;
        c
    }

    pub fn peek(&self) -> (c: char)
        requires
            self.wf(),
        ensures
            c == if self.current < self.src@.len() {
                self.src@[self.current as int]
            } else {
                '\0'
            },
    {
        if self.is_at_end() {
            '\0'
        } else {
            self.src[self.current]
        }
    }

    pub fn peek_next(&self) -> (c: char)
        requires
            self.wf(),
        ensures
            c == if self.current + 1 < self.src@.len() {
                self.src@[self.current + 1]
            } else {
                '\0'
            },
    {
        let n: usize = self.src.len();
        if self.current >= n {
            '\0'
        } else if self.current + 1 >= n {
            '\0'
        } else {
            self.src[self.current + 1]
        }
    }

    pub fn token(&self, kind: TokenKind) -> (t: Token)
        ensures
            t@.kind == kind@,
            t@.line == self.line as nat,
    {
        Token { kind, line: self.line }
    }

    /// Bump the line counter, saturating at the largest counter value.
    fn next_line(&mut self)
        ensures
            final(self).line as nat == bump(old(self).line as nat),
            final(self).src == old(self).src,
            final(self).current == old(self).current,
            final(self).start == old(self).start,
    {
        if self.line < usize::MAX {
            self.line = self.line + 1;
        }
    }

    /// The characters `src[a..b)` as a fresh string.
    fn word(&self, a: usize, b: usize) -> (w: String)
        requires
            self.wf(),
            a <= b <= self.src@.len(),
        ensures
            w@ == self.src@.subrange(a as int, b as int),
    {
        let mut w = String::new();
        let mut k = a;
        while k < b
            invariant
                a <= k <= b <= self.src@.len(),
                w@ == self.src@.subrange(a as int, k as int),
            decreases b - k,
        {
            push_char(&mut w, self.src[k]);
            proof {
                assert(self.src@.subrange(a as int, k + 1) =~= self.src@.subrange(
                    a as int,
                    k as int,
                ).push(self.src@[k as int]));
            }
            k = k + 1;
        }
        w
    }
}

/// Every digit run has a non-negative value.
proof fn lemma_digits_val_nonneg(s: Seq<char>)
    requires
        forall|j: int| 0 <= j < s.len() ==> is_digit(#[trigger] s[j]),
    ensures
        spec_digits_val(s) >= 0,
    decreases s.len(),
{
    if s.len() > 0 {
        assert(forall|j: int|
            0 <= j < s.drop_last().len() ==> is_digit(#[trigger] s.drop_last()[j]));
        lemma_digits_val_nonneg(s.drop_last());
        assert(spec_digits_val(s.drop_last()) * 10 >= 0) by (nonlinear_arith)
            requires
                spec_digits_val(s.drop_last()) >= 0,
        ;
        assert(is_digit(s.last()));
    }
}

impl Lexer {
    /// The value of the digit run `src[a..b)`, when it fits.
    fn digits_value(&self, a: usize, b: usize) -> (r: Option<u128>)
        requires
            self.wf(),
            a <= b <= self.src@.len(),
            forall|j: int| a <= j < b ==> is_digit(#[trigger] self.src@[j]),
        ensures
            match r {
                Some(v) => v == spec_digits_val(self.src@.subrange(a as int, b as int)),
                None => spec_digits_val(self.src@.subrange(a as int, b as int)) > u128::MAX,
            },
    {
        let mut v: u128 = 0;
        let mut over: bool = false;
        let mut k = a;
        while k < b
            invariant
                a <= k <= b <= self.src@.len(),
                forall|j: int| a <= j < b ==> is_digit(#[trigger] self.src@[j]),
                !over ==> v == spec_digits_val(self.src@.subrange(a as int, k as int)),
                over ==> spec_digits_val(self.src@.subrange(a as int, k as int)) > u128::MAX,
            decreases b - k,
        {
            let c = self.src[k];
            let d32: u32 = (c as u32) - 48;
            let d: u128 = d32 as u128;
            let ghost pre = self.src@.subrange(a as int, k as int);
            let ghost post = self.src@.subrange(a as int, k + 1);
            proof {
                assert(post.drop_last() =~= pre);
                assert(post.last() == self.src@[k as int]);
                assert(spec_digits_val(post) == spec_digits_val(pre) * 10 + (d as int));
            }
            if !over {
                let step = v.checked_mul(10);
                match step {
                    Some(t) => match t.checked_add(d) {
                        Some(nv) => {
                            v = nv;
                        },
                        None => {
                            over = true;
                        },
                    },
                    None => {
                        over = true;
                    },
                }
            } else {
                proof {
                    lemma_digits_val_nonneg(pre);
                    assert(spec_digits_val(pre) * 10 >= spec_digits_val(pre)) by (nonlinear_arith)
                        requires
                            spec_digits_val(pre) >= 0,
                    ;
                }
            }
            k = k + 1;
        }
        proof {
            assert(self.src@.subrange(a as int, b as int) == self.src@.subrange(
                a as int,
                k as int,
            ));
        }
        if over {
            None
        } else {
            Some(v)
        }
    }
}

/// The keyword token a word stands for, or an identifier token carrying
/// the word itself.
fn keyword_or_ident(w: String) -> (k: TokenKind)
    ensures
        k@ == keyword_kind(w@),
{
    proof {
        reveal_strlit("let");
        reveal_strlit("const");
        reveal_strlit("fn");
        reveal_strlit("if");
        reveal_strlit("else");
        reveal_strlit("while");
        reveal_strlit("return");
        reveal_strlit("true");
        reveal_strlit("false");
        reveal_strlit("null");
        reveal_strlit("import");
        reveal_strlit("export");
        assert("let"@ =~= seq!['l', 'e', 't']);
        assert("const"@ =~= seq!['c', 'o', 'n', 's', 't']);
        assert("fn"@ =~= seq!['f', 'n']);
        assert("if"@ =~= seq!['i', 'f']);
        assert("else"@ =~= seq!['e', 'l', 's', 'e']);
        assert("while"@ =~= seq!['w', 'h', 'i', 'l', 'e']);
        assert("return"@ =~= seq!['r', 'e', 't', 'u', 'r', 'n']);
        assert("true"@ =~= seq!['t', 'r', 'u', 'e']);
        assert("false"@ =~= seq!['f', 'a', 'l', 's', 'e']);
        assert("null"@ =~= seq!['n', 'u', 'l', 'l']);
        assert("import"@ =~= seq!['i', 'm', 'p', 'o', 'r', 't']);
        assert("export"@ =~= seq!['e', 'x', 'p', 'o', 'r', 't']);
    }
    if w == String::from_str("let") {
        TokenKind::Let
    } else if w == String::from_str("const") {
        TokenKind::Const
    } else if w == String::from_str("fn") {
        TokenKind::Fn
    } else if w == String::from_str("if") {
        TokenKind::If
    } else if w == String::from_str("else") {
        TokenKind::Else
    } else if w == String::from_str("while") {
        TokenKind::While
    } else if w == String::from_str("return") {
        TokenKind::Return
    } else if w == String::from_str("true") {
        TokenKind::True
    } else if w == String::from_str("false") {
        TokenKind::False
    } else if w == String::from_str("null") {
        TokenKind::Null
    } else if w == String::from_str("import") {
        TokenKind::Import
    } else if w == String::from_str("export") {
        TokenKind::Export
    } else {
        TokenKind::Identifier(w)
    }
}

/// Whatever a run helper returns, the scan stays inside the source and
/// the source itself is untouched.
pub open spec fn same_src(pre: Lexer, post: Lexer) -> bool {
    &&& post.src@ == pre.src@
    &&& post.start == pre.start
    &&& post.wf()
}

/// A digit run reaches no further than the input, and everything in it is
/// a digit.
proof fn lemma_digit_run(s: Seq<char>, j: int)
    requires
        0 <= j <= s.len(),
    ensures
        j <= digit_end(s, j) <= s.len(),
        forall|k: int| j <= k < digit_end(s, j) ==> is_digit(#[trigger] s[k]),
    decreases s.len() - j,
{
    if j < s.len() && is_digit(s[j]) {
        lemma_digit_run(s, j + 1);
    }
}

proof fn lemma_pow10_pos(a: nat)
    ensures
        pow10(a) >= 1,
    decreases a,
{
    if a > 0 {
        lemma_pow10_pos((a - 1) as nat);
    }
}

proof fn lemma_pow10_mono(a: nat, b: nat)
    requires
        a <= b,
    ensures
        pow10(a) <= pow10(b),
    decreases b,
{
    if a < b {
        lemma_pow10_mono(a, (b - 1) as nat);
        lemma_pow10_pos((b - 1) as nat);
    }
}

impl Lexer {
    /// The value of the short digit run `src[a..b)` (at most six digits),
    /// which always fits.
    fn frac_value(&self, a: usize, b: usize) -> (fv: u128)
        requires
            self.wf(),
            a <= b <= self.src@.len(),
            b - a <= 6,
            forall|j: int| a <= j < b ==> is_digit(#[trigger] self.src@[j]),
        ensures
            fv == spec_digits_val(self.src@.subrange(a as int, b as int)),
            fv < pow10((b - a) as nat),
    {
        proof {
            reveal_with_fuel(pow10, 8);
        }
        let mut fv: u128 = 0;
        let mut k = a;
        while k < b
            invariant
                a <= k <= b <= self.src@.len(),
                b - a <= 6,
                forall|j: int| a <= j < b ==> is_digit(#[trigger] self.src@[j]),
                fv == spec_digits_val(self.src@.subrange(a as int, k as int)),
                fv < pow10((k - a) as nat),
            decreases b - k,
        {
            proof {
                reveal_with_fuel(pow10, 8);
                lemma_pow10_mono((k - a) as nat, 5);
            }
            let c = self.src[k];
            let d32: u32 = (c as u32) - 48;
            let d: u128 = d32 as u128;
            let ghost pre = self.src@.subrange(a as int, k as int);
            let ghost post = self.src@.subrange(a as int, k + 1);
            proof {
                assert(post.drop_last() =~= pre);
                assert(post.last() == self.src@[k as int]);
            }
            fv = fv * 10 + d;
            k = k + 1;
        }
        proof {
            assert(self.src@.subrange(a as int, b as int) == self.src@.subrange(
                a as int,
                k as int,
            ));
        }
        fv
    }

    /// Scan a string literal; the opening quote is already consumed
    /// (`current` stands right after it).
    fn string(&mut self) -> (r: Result<Option<Token>, LexError>)
        requires
            old(self).wf(),
            0 < old(self).current <= old(self).src@.len(),
            old(self).src@[old(self).current - 1] == '"',
        ensures
            same_src(*old(self), *final(self)),
            final(self).current > old(self).current - 1,
            match r {
                Ok(Some(t)) => spec_step(
                    old(self).src@,
                    old(self).current - 1,
                    old(self).line as nat,
                ) == (LexStep::Tok {
                    kind: t@.kind,
                    next: final(self).current as int,
                    line: final(self).line as nat,
                }) && t@.line == final(self).line as nat,
                Ok(None) => false,
                Err(e) => spec_step(old(self).src@, old(self).current - 1, old(self).line as nat)
                    == (LexStep::Fail { err: e }),
            },
    {
        let ghost s = self.src@;
        let content_start = self.current;
        let ghost c0 = self.current as int;
        let ghost l0 = self.line as nat;
        while !self.is_at_end() && self.peek() != '"'
            invariant
                self.src@ == s,
                self.start == old(self).start,
                c0 <= self.current as int <= s.len(),
                string_end(s, c0) == string_end(s, self.current as int),
                self.line as nat == line_after(s, c0, self.current as int, l0),
            decreases s.len() - self.current,
        {
            if self.peek() == '\n' {
                self.next_line();
            }
            let _c = self.advance();
        }
        if self.is_at_end() {
            proof {
                assert(string_end(s, self.current as int) == s.len() as int);
            }
            Err(
                LexError {
                    kind: LexErrorKind::UnterminatedString,
                    line: self.line,
                },
            )
        } else {
            let e = self.current;
            proof {
                assert(s[e as int] == '"');
                assert(string_end(s, e as int) == e as int);
            }
            let _q = self.advance();
            let w = self.word(content_start, e);
            Ok(Some(Token { kind: TokenKind::Str(w), line: self.line }))
        }
    }
}

fn is_digit_exec(c: char) -> (r: bool)
    ensures
        r == is_digit(c),
{
    let u = c as u32;
    48 <= u && u <= 57
}

fn is_alpha_exec(c: char) -> (r: bool)
    ensures
        r == is_alpha_char(c),
{
    let u = c as u32;
    (65 <= u && u <= 90) || (97 <= u && u <= 122) || u == 95
}

fn is_alnum_exec(c: char) -> (r: bool)
    ensures
        r == is_alnum_char(c),
{
    is_alpha_exec(c) || is_digit_exec(c)
}

impl Lexer {
    /// Scan the rest of a numeric literal; the first digit is already
    /// consumed.
    fn number(&mut self) -> (r: Result<Option<Token>, LexError>)
        requires
            old(self).wf(),
            0 < old(self).current <= old(self).src@.len(),
            is_digit(old(self).src@[old(self).current - 1]),
            old(self).start == old(self).current - 1,
        ensures
            same_src(*old(self), *final(self)),
            final(self).current > old(self).current - 1,
            final(self).line == old(self).line,
            match r {
                Ok(Some(t)) => spec_step(
                    old(self).src@,
                    old(self).current - 1,
                    old(self).line as nat,
                ) == (LexStep::Tok {
                    kind: t@.kind,
                    next: final(self).current as int,
                    line: final(self).line as nat,
                }) && t@.line == final(self).line as nat,
                _ => false,
            },
    {
        let ghost s = self.src@;
        let ghost i = self.current - 1 as int;
        let ghost l = self.line as nat;
        while self.current < self.src.len() && is_digit_exec(self.src[self.current])
            invariant
                self.src@ == s,
                self.start == old(self).start,
                self.line == old(self).line,
                old(self).current <= self.current <= s.len(),
                digit_end(s, i) == digit_end(s, self.current as int),
            decreases s.len() - self.current,
        {
            let _c = self.advance();
        }
        let e1 = self.current;
        proof {
            assert(digit_end(s, e1 as int) == e1 as int);
            lemma_digit_run(s, i);
        }
        let has_frac = self.peek() == '.' && is_digit_exec(self.peek_next());
        let ws = self.digits_value(self.start, e1);
        // start is the first digit's position (set by the caller)
        if has_frac {
            let _dot = self.advance();
            while self.current < self.src.len() && is_digit_exec(self.src[self.current])
                invariant
                    self.src@ == s,
                    self.start == old(self).start,
                    self.line == old(self).line,
                    e1 + 1 <= self.current <= s.len(),
                    digit_end(s, e1 + 1) == digit_end(s, self.current as int),
                decreases s.len() - self.current,
            {
                let _c = self.advance();
            }
            let e2 = self.current;
            proof {
                assert(digit_end(s, e2 as int) == e2 as int);
                lemma_digit_run(s, e1 + 1);
            }
            let width = e2 - (e1 + 1);
            let fb = if width > 6 {
                e1 + 7
            } else {
                e2
            };
            let fv = self.frac_value(e1 + 1, fb);
            let n = combine_literal(ws, fv, fb - (e1 + 1));
            proof {
                let wseq = s.subrange(i, e1 as int);
                let fseq = s.subrange(e1 + 1, e2 as int);
                let cnt = if fseq.len() < 6 {
                    fseq.len() as int
                } else {
                    6
                };
                lemma_digit_run(s, i);
                lemma_digits_val_nonneg(wseq);
                assert(fseq.take(cnt) =~= s.subrange(e1 + 1, fb as int));
                assert(n == spec_literal_number(wseq, fseq));
            }
            Ok(Some(Token { kind: TokenKind::Number(n), line: self.line }))
        } else {
            let n = combine_literal(ws, 0, 0);
            proof {
                let wseq = s.subrange(i, e1 as int);
                let fseq = Seq::<char>::empty();
                lemma_digit_run(s, i);
                lemma_digits_val_nonneg(wseq);
                assert(fseq.take(0) =~= Seq::<char>::empty());
                assert(spec_digits_val(Seq::<char>::empty()) == 0);
                reveal_with_fuel(pow10, 2);
                assert(n == spec_literal_number(wseq, fseq));
            }
            Ok(Some(Token { kind: TokenKind::Number(n), line: self.line }))
        }
    }

    /// Scan the rest of an identifier or keyword; the first character is
    /// already consumed.
    fn identifier(&mut self) -> (r: Result<Option<Token>, LexError>)
        requires
            old(self).wf(),
            0 < old(self).current <= old(self).src@.len(),
            is_alpha_char(old(self).src@[old(self).current - 1]),
            old(self).start == old(self).current - 1,
        ensures
            same_src(*old(self), *final(self)),
            final(self).current > old(self).current - 1,
            final(self).line == old(self).line,
            match r {
                Ok(Some(t)) => spec_step(
                    old(self).src@,
                    old(self).current - 1,
                    old(self).line as nat,
                ) == (LexStep::Tok {
                    kind: t@.kind,
                    next: final(self).current as int,
                    line: final(self).line as nat,
                }) && t@.line == final(self).line as nat,
                _ => false,
            },
    {
        let ghost s = self.src@;
        let ghost i = self.current - 1 as int;
        while self.current < self.src.len() && is_alnum_exec(self.src[self.current])
            invariant
                self.src@ == s,
                self.start == old(self).start,
                self.line == old(self).line,
                old(self).current <= self.current <= s.len(),
                ident_end(s, i) == ident_end(s, self.current as int),
            decreases s.len() - self.current,
        {
            let _c = self.advance();
        }
        proof {
            assert(ident_end(s, self.current as int) == self.current as int);
        }
        let w = self.word(self.start, self.current);
        let kind = keyword_or_ident(w);
        Ok(Some(Token { kind, line: self.line }))
    }
}

/// The number a literal stands for, assembled from the value of its whole
/// part, the value of its (at most six) fraction digits, and how many
/// fraction digits there were.
fn combine_literal(ws: Option<u128>, fv: u128, count: usize) -> (n: Number)
    requires
        count <= 6,
        fv < pow10(count as nat),
    ensures
        forall|wseq: Seq<char>, fseq: Seq<char>|
            {
                (match ws {
                    Some(v) => v == spec_digits_val(wseq),
                    None => spec_digits_val(wseq) > u128::MAX,
                }) && spec_digits_val(wseq) >= 0 && fv == spec_digits_val(
                    fseq.take(
                        if fseq.len() < 6 {
                            fseq.len() as int
                        } else {
                            6
                        },
                    ),
                ) && count as int == (if fseq.len() < 6 {
                    fseq.len() as int
                } else {
                    6
                }) ==> n == #[trigger] spec_literal_number(wseq, fseq)
            },
{
    proof {
        reveal_with_fuel(pow10, 8);
    }
    let factor: u128 = if count == 0 {
        1000000
    } else if count == 1 {
        100000
    } else if count == 2 {
        10000
    } else if count == 3 {
        1000
    } else if count == 4 {
        100
    } else if count == 5 {
        10
    } else {
        1
    };
    proof {
        assert(factor == pow10((6 - count) as nat));
        assert(pow10(count as nat) * pow10((6 - count) as nat) == 1000000) by {
            reveal_with_fuel(pow10, 8);
            assert(count == 0 || count == 1 || count == 2 || count == 3 || count == 4 || count == 5
                || count == 6);
        }
        assert(fv * factor < 1000000) by (nonlinear_arith)
            requires
                fv < pow10(count as nat),
                factor == pow10((6 - count) as nat),
                factor >= 1,
                pow10(count as nat) * pow10((6 - count) as nat) == 1000000,
        ;
    }
    let fscaled = fv * factor;
    match ws {
        Some(v) => {
            match v.checked_mul(SCALE) {
                Some(vs) => match vs.checked_add(fscaled) {
                    Some(m) => Number::Finite { neg: false, mag: m },
                    None => Number::PosInf,
                },
                None => {
                    proof {
                        lemma_literal_overflow(v as int, fscaled as int);
                    }
                    Number::PosInf
                },
            }
        },
        None => {
            proof {
                lemma_ws_overflow(fscaled as int);
            }
            Number::PosInf
        },
    }
}

/// A whole part too large for the accumulator makes the whole literal
/// overflow.
proof fn lemma_ws_overflow(f: int)
    ensures
        forall|w: int| w > u128::MAX && f >= 0 ==> #[trigger] (w * SCALE) + f > u128::MAX,
{
    assert forall|w: int| w > u128::MAX && f >= 0 implies #[trigger] (w * SCALE) + f
        > u128::MAX by {
        assert(w * SCALE >= w) by (nonlinear_arith)
            requires
                w > 0,
        ;
    }
}

/// A scaled whole part beyond the accumulator makes the whole literal
/// overflow.
proof fn lemma_literal_overflow(v: int, f: int)
    requires
        v >= 0,
        f >= 0,
        v * SCALE > u128::MAX,
    ensures
        v * SCALE + f > u128::MAX,
{
}

impl Lexer {
    /// Scan one token (or skip blank space and comments) from the current
    /// position, exactly as `spec_step` describes.
    pub fn scan_token(&mut self) -> (r: Result<Option<Token>, LexError>)
        requires
            old(self).wf(),
            old(self).current < old(self).src@.len(),
            old(self).start == old(self).current,
        ensures
            final(self).src@ == old(self).src@,
            final(self).wf(),
            final(self).current > old(self).current,
            match r {
                Ok(Some(t)) => spec_step(old(self).src@, old(self).current as int, old(self).line as nat)
                    == (LexStep::Tok {
                        kind: t@.kind,
                        next: final(self).current as int,
                        line: final(self).line as nat,
                    }) && t@.line == final(self).line as nat,
                Ok(None) => spec_step(old(self).src@, old(self).current as int, old(self).line as nat)
                    == (LexStep::Skip {
                        next: final(self).current as int,
                        line: final(self).line as nat,
                    }),
                Err(e) => spec_step(old(self).src@, old(self).current as int, old(self).line as nat)
                    == (LexStep::Fail { err: e }),
            },
    {
        let ghost s = self.src@;
        let ghost i = self.current as int;
        let ghost l = self.line as nat;
        let c = self.advance();
        match c {
            '(' => Ok(Some(self.token(TokenKind::LParen))),
            ')' => Ok(Some(self.token(TokenKind::RParen))),
            '{' => Ok(Some(self.token(TokenKind::LBrace))),
            '}' => Ok(Some(self.token(TokenKind::RBrace))),
            '[' => Ok(Some(self.token(TokenKind::LBracket))),
            ']' => Ok(Some(self.token(TokenKind::RBracket))),
            ',' => Ok(Some(self.token(TokenKind::Comma))),
            '.' => Ok(Some(self.token(TokenKind::Dot))),
            '+' => {
                if self.peek() == '=' {
                    let _e = self.advance();
                    Ok(Some(self.token(TokenKind::PlusEqual)))
                } else {
                    Ok(Some(self.token(TokenKind::Plus)))
                }
            },
            '-' => {
                if self.peek() == '=' {
                    let _e = self.advance();
                    Ok(Some(self.token(TokenKind::MinusEqual)))
                } else {
                    Ok(Some(self.token(TokenKind::Minus)))
                }
            },
            '*' => {
                if self.peek() == '=' {
                    let _e = self.advance();
                    Ok(Some(self.token(TokenKind::StarEqual)))
                } else {
                    Ok(Some(self.token(TokenKind::Star)))
                }
            },
            '/' => {
                if self.peek() == '=' {
                    let _e = self.advance();
                    Ok(Some(self.token(TokenKind::SlashEqual)))
                } else if self.peek() == '/' {
                    while self.peek() != '\n' && !self.is_at_end()
                        invariant
                            self.src@ == s,
                            self.wf(),
                            i + 1 <= self.current as int <= s.len(),
                            self.line as nat == l,
                            comment_end(s, i + 1) == comment_end(s, self.current as int),
                        decreases s.len() - self.current,
                    {
                        let _c = self.advance();
                    }
                    proof {
                        assert(comment_end(s, self.current as int) == self.current as int);
                    }
                    Ok(None)
                } else {
                    Ok(Some(self.token(TokenKind::Slash)))
                }
            },
            '=' => {
                if self.peek() == '=' {
                    let _e = self.advance();
                    Ok(Some(self.token(TokenKind::EqualEqual)))
                } else {
                    Ok(Some(self.token(TokenKind::Equal)))
                }
            },
            '>' => {
                if self.peek() == '=' {
                    let _e = self.advance();
                    Ok(Some(self.token(TokenKind::GreaterEqual)))
                } else {
                    Ok(Some(self.token(TokenKind::Greater)))
                }
            },
            '<' => {
                if self.peek() == '=' {
                    let _e = self.advance();
                    Ok(Some(self.token(TokenKind::LessEqual)))
                } else {
                    Ok(Some(self.token(TokenKind::Less)))
                }
            },
            ' ' => Ok(None),
            '\t' => Ok(None),
            '\r' => Ok(None),
            '\n' => {
                self.next_line();
                Ok(None)
            },
            '"' => self.string(),
            _ => {
                if is_digit_exec(c) {
                    self.number()
                } else if is_alpha_exec(c) {
                    self.identifier()
                } else {
                    Err(LexError { kind: LexErrorKind::UnexpectedChar, line: self.line })
                }
            },
        }
    }

    /// Scan the whole source into tokens ending with an end-of-stream
    /// token, or stop at the first failure, exactly as `spec_scan_from`
    /// describes from the current position.
    pub fn scan_tokens(&mut self) -> (r: Result<Vec<Token>, LexError>)
        requires
            old(self).wf(),
        ensures
            r is Ok ==> spec_scan_from(old(self).src@, old(self).current as int, old(self).line as nat)
                == Ok::<Seq<TokenModel>, LexError>(tokens_model((r->Ok_0)@)),
            r is Err ==> spec_scan_from(old(self).src@, old(self).current as int, old(self).line as nat)
                == Err::<Seq<TokenModel>, LexError>(r->Err_0),
    {
        let ghost s = self.src@;
        let ghost c0 = self.current as int;
        let ghost l0 = self.line as nat;
        let mut tokens: Vec<Token> = Vec::new();
        while !self.is_at_end()
            invariant
                self.wf(),
                self.src@ == s,
                s == old(self).src@,
                c0 == old(self).current as int,
                l0 == old(self).line as nat,
                c0 <= self.current as int,
                spec_scan_from(s, c0, l0) == (match spec_scan_from(
                    s,
                    self.current as int,
                    self.line as nat,
                ) {
                    Ok(rest) => Ok::<Seq<TokenModel>, LexError>(tokens_model(tokens@) + rest),
                    Err(e) => Err::<Seq<TokenModel>, LexError>(e),
                }),
            decreases s.len() - self.current,
        {
            self.start = self.current;
            let ghost cur_pre = self.current as int;
            let ghost line_pre = self.line as nat;
            let ghost toks_pre = tokens@;
            let step = self.scan_token();
            match step {
                Ok(Some(t)) => {
                    tokens.push(t);
                    proof {
                        assert(tokens@ =~= toks_pre.push(t));
                        assert(tokens_model(tokens@) =~= tokens_model(toks_pre).push(t@));
                        let rest0 = spec_scan_from(s, self.current as int, self.line as nat);
                        if rest0 is Ok {
                            assert(tokens_model(toks_pre) + (seq![t@] + rest0->Ok_0)
                                =~= tokens_model(tokens@) + rest0->Ok_0);
                        }
                    }
                },
                Ok(None) => {
                },
                Err(e) => {
                    proof {
                        assert(cur_pre < s.len());
                        assert(spec_step(s, cur_pre, line_pre) == (LexStep::Fail { err: e }));
                        assert(spec_scan_from(s, cur_pre, line_pre) == Err::<
                            Seq<TokenModel>,
                            LexError,
                        >(e));
                        assert(spec_scan_from(s, c0, l0) == Err::<Seq<TokenModel>, LexError>(e));
                    }
                    return Err(e);
                },
            }
        }
        let eof = Token { kind: TokenKind::Eof, line: self.line };
        let ghost toks_fin = tokens@;
        tokens.push(eof);
        proof {
            assert(tokens_model(tokens@) =~= tokens_model(toks_fin).push(eof@));
            assert(tokens_model(toks_fin) + seq![eof@] =~= tokens_model(tokens@));
        }
        Ok(tokens)
    }
}

/// Scan a whole source text into its token stream: the sequence
/// `spec_scan` gives, ending in an end-of-stream token, or the first
/// failure.
pub fn scan(source: &str) -> (r: Result<Vec<Token>, LexError>)
    ensures
        match r {
            Ok(toks) => spec_scan(source@) == Ok::<Seq<TokenModel>, LexError>(tokens_model(toks@)),
            Err(e) => spec_scan(source@) == Err::<Seq<TokenModel>, LexError>(e),
        },
{
    let mut lexer = Lexer::new(source);
    lexer.scan_tokens()
}

/// Scanning is a function of the source text alone: two scans of equal
/// sources yield equal outcomes, token for token.
pub proof fn lemma_scan_deterministic(
    s1: Seq<char>,
    s2: Seq<char>,
    r1: Result<Seq<TokenModel>, LexError>,
    r2: Result<Seq<TokenModel>, LexError>,
)
    requires
        s1 == s2,
        r1 == spec_scan(s1),
        r2 == spec_scan(s2),
    ensures
        r1 == r2,
{
}

} // verus!

//! The lexer: converts a source string into tokens, one at a time, on
//! demand. Whitespace is skipped; letter runs become keywords or
//! identifiers; digit runs become integer literals; `=` and `!` peek one
//! character ahead to form `==` and `!=`; any other unrecognized character
//! becomes `ILLEGAL`; past the end of the input every call returns `EOF`.

use vstd::prelude::*;
use vstd::string::StrSliceExecFns;
use vstd::string::StringExecFns;

use crate::token::Token;
use crate::token::TokenModel;

verus! {

/// Whitespace skipped between tokens: space, tab, newline, carriage return.
pub open spec fn is_ws(c: char) -> bool {
    c == ' ' || c == '\t' || c == '\n' || c == '\r'
}

/// A character that may start an identifier: an ASCII letter or underscore.
pub open spec fn is_letter(c: char) -> bool {
    (97 <= c as u32 && c as u32 <= 122) || (65 <= c as u32 && c as u32 <= 90) || c == '_'
}

/// An ASCII decimal digit.
pub open spec fn is_digit(c: char) -> bool {
    48 <= c as u32 && c as u32 <= 57
}

/// A character that may continue an identifier.
pub open spec fn is_ident_char(c: char) -> bool {
    is_letter(c) || is_digit(c)
}

/// The first index at or after `p` holding a non-whitespace character, or
/// the input length if only whitespace remains.
pub open spec fn skip_ws_idx(s: Seq<char>, p: nat) -> nat
    decreases s.len() - p,
{
    if p < s.len() && is_ws(s[p as int]) {
        skip_ws_idx(s, p + 1)
    } else {
        p
    }
}

/// The end of the maximal identifier run starting at `p`.
pub open spec fn ident_end(s: Seq<char>, p: nat) -> nat
    decreases s.len() - p,
{
    if p < s.len() && is_ident_char(s[p as int]) {
        ident_end(s, p + 1)
    } else {
        p
    }
}

/// The end of the maximal digit run starting at `p`.
pub open spec fn digits_end(s: Seq<char>, p: nat) -> nat
    decreases s.len() - p,
{
    if p < s.len() && is_digit(s[p as int]) {
        digits_end(s, p + 1)
    } else {
        p
    }
}

/// The keyword token for a spelling, or an identifier token for any other
/// spelling. The mapping is exact-match and case-sensitive.
pub open spec fn word_token(w: Seq<char>) -> TokenModel {
    if w == "fn"@ {
        TokenModel::FUNCTION
    } else if w == "let"@ {
        TokenModel::LET
    } else if w == "true"@ {
        TokenModel::TRUE
    } else if w == "false"@ {
        TokenModel::FALSE
    } else if w == "if"@ {
        TokenModel::IF
    } else if w == "else"@ {
        TokenModel::ELSE
    } else if w == "return"@ {
        TokenModel::RETURN
    } else {
        TokenModel::IDENT(w)
    }
}

/// The value of a digit run read left to right, saturating at the largest
/// 64-bit signed value once it no longer fits.
pub open spec fn sat_val(w: Seq<char>) -> int
    decreases w.len(),
{
    if w.len() == 0 {
        0
    } else {
        let p = sat_val(w.drop_last());
        let d = (w.last() as u32 - 48) as int;
        if p * 10 + d <= i64::MAX as int {
            p * 10 + d
        } else {
            i64::MAX as int
        }
    }
}

/// The token for a single operator or delimiter character; anything
/// unrecognized is `ILLEGAL`.
pub open spec fn single_char_token(c: char) -> TokenModel {
    if c == '+' {
        TokenModel::PLUS
    } else if c == '-' {
        TokenModel::MINUS
    } else if c == '*' {
        TokenModel::ASTERISK
    } else if c == '/' {
        TokenModel::SLASH
    } else if c == '<' {
        TokenModel::LT
    } else if c == '>' {
        TokenModel::GT
    } else if c == ',' {
        TokenModel::COMMA
    } else if c == ';' {
        TokenModel::SEMICOLON
    } else if c == '(' {
        TokenModel::LPAREN
    } else if c == ')' {
        TokenModel::RPAREN
    } else if c == '{' {
        TokenModel::LBRACE
    } else if c == '}' {
        TokenModel::RBRACE
    } else {
        TokenModel::ILLEGAL
    }
}

/// The next token of `s` starting at position `p`, and the position just
/// past it. Returns `EOF` at the input's end, with the position unchanged
/// past the trailing whitespace, so repeated calls keep returning `EOF`.
pub open spec fn spec_next_token(s: Seq<char>, p: nat) -> (TokenModel, nat) {
    let i = skip_ws_idx(s, p);
    if i >= s.len() {
        (TokenModel::EOF, i)
    } else {
        let c = s[i as int];
        if is_letter(c) {
            let j = ident_end(s, i);
            (word_token(s.subrange(i as int, j as int)), j)
        } else if is_digit(c) {
            let j = digits_end(s, i);
            (TokenModel::INT(sat_val(s.subrange(i as int, j as int)) as i64), j)
        } else if c == '=' {
            if i + 1 < s.len() && s[i + 1 as int] == '=' {
                (TokenModel::EQ, i + 2)
            } else {
                (TokenModel::ASSIGN, i + 1)
            }
        } else if c == '!' {
            if i + 1 < s.len() && s[i + 1 as int] == '=' {
                (TokenModel::NotEq, i + 2)
            } else {
                (TokenModel::BANG, i + 1)
            }
        } else {
            (single_char_token(c), i + 1)
        }
    }
}

/// The whole token stream of `s` from position `p`, ending before the
/// `EOF` marker.
pub open spec fn spec_tokenize(s: Seq<char>, p: nat) -> Seq<TokenModel>
    decreases s.len() - p,
{
    let (t, q) = spec_next_token(s, p);
    if t == TokenModel::EOF {
        Seq::empty()
    } else if p < q <= s.len() {
        seq![t] + spec_tokenize(s, q)
    } else {
        seq![t]
    }
}

/// Skipping whitespace stays within the input and never moves backwards.
pub proof fn lemma_skip_ws_bounds(s: Seq<char>, p: nat)
    requires
        p <= s.len(),
    ensures
        p <= skip_ws_idx(s, p) <= s.len(),
    decreases s.len() - p,
{
    if p < s.len() && is_ws(s[p as int]) {
        lemma_skip_ws_bounds(s, p + 1);
    }
}

/// An identifier run stays within the input and never moves backwards.
pub proof fn lemma_ident_end_bounds(s: Seq<char>, p: nat)
    requires
        p <= s.len(),
    ensures
        p <= ident_end(s, p) <= s.len(),
    decreases s.len() - p,
{
    if p < s.len() && is_ident_char(s[p as int]) {
        lemma_ident_end_bounds(s, p + 1);
    }
}

/// A digit run stays within the input and never moves backwards.
pub proof fn lemma_digits_end_bounds(s: Seq<char>, p: nat)
    requires
        p <= s.len(),
    ensures
        p <= digits_end(s, p) <= s.len(),
    decreases s.len() - p,
{
    if p < s.len() && is_digit(s[p as int]) {
        lemma_digits_end_bounds(s, p + 1);
    }
}

/// The value of a digit run lies between zero and the largest 64-bit
/// signed value.
pub proof fn lemma_sat_val_bounds(w: Seq<char>)
    requires
        forall|k: int| 0 <= k < w.len() ==> is_digit(w[k]),
    ensures
        0 <= sat_val(w) <= i64::MAX as int,
    decreases w.len(),
{
    if w.len() > 0 {
        lemma_sat_val_bounds(w.drop_last());
    }
}

/// The next token never moves backwards, stays within the input, and
/// consumes at least one character unless it is `EOF`.
pub proof fn lemma_next_token_advances(s: Seq<char>, p: nat)
    requires
        p <= s.len(),
    ensures
        p <= spec_next_token(s, p).1 <= s.len(),
        spec_next_token(s, p).0 != TokenModel::EOF ==> p < spec_next_token(s, p).1,
{
    lemma_skip_ws_bounds(s, p);
    let i = skip_ws_idx(s, p);
    if i < s.len() {
        let c = s[i as int];
        if is_letter(c) {
            lemma_ident_end_bounds(s, i);
            assert(ident_end(s, i) > i) by {
                assert(is_ident_char(s[i as int]));
                assert(ident_end(s, i) == ident_end(s, i + 1));
                lemma_ident_end_bounds(s, i + 1);
            }
        } else if is_digit(c) {
            lemma_digits_end_bounds(s, i);
            assert(digits_end(s, i) > i) by {
                assert(digits_end(s, i) == digits_end(s, i + 1));
                lemma_digits_end_bounds(s, i + 1);
            }
        }
    }
}

/// Lexer state: the full input text and a cursor to the next unread
/// character. Created once from a complete source string, mutated only by
/// its own token-reading operation.
pub struct Lexer {
    /// The complete source text.
    pub input: String,
    /// The number of characters in `input`.
    pub len: usize,
    /// The position of the next character to examine.
    pub pos: usize,
}

impl Lexer {
    /// The cursor lies within the input and the cached length is the
    /// input's character count.
    pub open spec fn wf(self) -> bool {
        self.len == self.input@.len() && self.pos <= self.len
    }

    /// A lexer at the start of the given source text.
    pub fn new(input: String) -> (l: Lexer)
        ensures
            l.wf(),
            l.input@ == input@,
            l.pos == 0,
    {
        let len = input.as_str().unicode_len();
        Lexer { input, len, pos: 0 }
    }

    /// The next token of the input, advancing the cursor past it.
    /// After exhaustion every call returns `EOF`.
    pub fn next_token(&mut self) -> (t: Token)
        requires
            old(self).wf(),
        ensures
            final(self).wf(),
            final(self).input == old(self).input,
            final(self).len == old(self).len,
            ({
                let (tm, q) = spec_next_token(old(self).input@, old(self).pos as nat);
                t@ == tm && final(self).pos as nat == q
            }),
    {
        let ghost s = self.input@;
        let ghost p0 = self.pos as nat;
        // Skip whitespace.
        loop
            invariant
                self.wf(),
                self.input == old(self).input,
                s == self.input@,
                self.len == old(self).len,
                p0 <= self.pos as nat,
                skip_ws_idx(s, p0) == skip_ws_idx(s, self.pos as nat),
            ensures
                self.wf(),
                self.input == old(self).input,
                self.len == old(self).len,
                self.pos as nat == skip_ws_idx(s, p0),
            decreases s.len() - self.pos as nat,
        {
            if self.pos >= self.len {
                break;
            }
            let c = self.input.as_str().get_char(self.pos);
            if !(c == ' ' || c == '\t' || c == '\n' || c == '\r') {
                break;
            }
            self.pos = self.pos + 1;
        }
        let i = self.pos;
        if i >= self.len {
            return Token::EOF;
        }
        let c = self.input.as_str().get_char(i);
        let cu = c as u32;
        if (97 <= cu && cu <= 122) || (65 <= cu && cu <= 90) || c == '_' {
            self.read_word(i)
        } else if 48 <= cu && cu <= 57 {
            self.read_number(i)
        } else if c == '=' {
            if i + 1 < self.len && self.input.as_str().get_char(i + 1) == '=' {
                self.pos = i + 2;
                Token::EQ
            } else {
                self.pos = i + 1;
                Token::ASSIGN
            }
        } else if c == '!' {
            if i + 1 < self.len && self.input.as_str().get_char(i + 1) == '=' {
                self.pos = i + 2;
                Token::NotEq
            } else {
                self.pos = i + 1;
                Token::BANG
            }
        } else {
            self.pos = i + 1;
            if c == '+' {
                Token::PLUS
            } else if c == '-' {
                Token::MINUS
            } else if c == '*' {
                Token::ASTERISK
            } else if c == '/' {
                Token::SLASH
            } else if c == '<' {
                Token::LT
            } else if c == '>' {
                Token::GT
            } else if c == ',' {
                Token::COMMA
            } else if c == ';' {
                Token::SEMICOLON
            } else if c == '(' {
                Token::LPAREN
            } else if c == ')' {
                Token::RPAREN
            } else if c == '{' {
                Token::LBRACE
            } else if c == '}' {
                Token::RBRACE
            } else {
                Token::ILLEGAL
            }
        }
    }

    /// A maximal letter/digit/underscore run starting at `i`, resolved
    /// against the keyword table.
    fn read_word(&mut self, i: usize) -> (t: Token)
        requires
            old(self).wf(),
            i < old(self).len,
            is_letter(old(self).input@[i as int]),
        ensures
            final(self).wf(),
            final(self).input == old(self).input,
            final(self).len == old(self).len,
            final(self).pos as nat == ident_end(old(self).input@, i as nat),
            t@ == word_token(
                old(self).input@.subrange(i as int, ident_end(old(self).input@, i as nat) as int),
            ),
    {
        let ghost s = self.input@;
        let mut j = i;
        loop
            invariant
                self.wf(),
                self.input == old(self).input,
                s == self.input@,
                i < s.len(),
                self.len == old(self).len,
                i <= j && j as nat <= s.len(),
                ident_end(s, i as nat) == ident_end(s, j as nat),
            ensures
                self.wf(),
                self.input == old(self).input,
                self.len == old(self).len,
                i <= j && j as nat <= s.len(),
                j as nat == ident_end(s, i as nat),
            decreases s.len() - j as nat,
        {
            if j >= self.len {
                break;
            }
            let c = self.input.as_str().get_char(j);
            let cu = c as u32;
            if !((97 <= cu && cu <= 122) || (65 <= cu && cu <= 90) || c == '_' || (48 <= cu && cu
                <= 57)) {
                break;
            }
            j = j + 1;
        }
        let w = self.input.as_str().substring_char(i, j);
        self.pos = j;
        if str_eq(w, "fn") {
            Token::FUNCTION
        } else if str_eq(w, "let") {
            Token::LET
        } else if str_eq(w, "true") {
            Token::TRUE
        } else if str_eq(w, "false") {
            Token::FALSE
        } else if str_eq(w, "if") {
            Token::IF
        } else if str_eq(w, "else") {
            Token::ELSE
        } else if str_eq(w, "return") {
            Token::RETURN
        } else {
            Token::IDENT(String::from_str(w))
        }
    }

    /// A maximal digit run starting at `i`, read as a 64-bit signed value,
    /// saturating at the largest such value.
    fn read_number(&mut self, i: usize) -> (t: Token)
        requires
            old(self).wf(),
            i < old(self).len,
            is_digit(old(self).input@[i as int]),
        ensures
            final(self).wf(),
            final(self).input == old(self).input,
            final(self).len == old(self).len,
            final(self).pos as nat == digits_end(old(self).input@, i as nat),
            t@ == TokenModel::INT(
                sat_val(
                    old(self).input@.subrange(
                        i as int,
                        digits_end(old(self).input@, i as nat) as int,
                    ),
                ) as i64,
            ),
    {
        let ghost s = self.input@;
        let mut j = i;
        let mut v: i64 = 0;
        proof {
            assert(s.subrange(i as int, i as int) =~= Seq::<char>::empty());
        }
        loop
            invariant
                self.wf(),
                self.input == old(self).input,
                s == self.input@,
                i < s.len(),
                self.len == old(self).len,
                i <= j && j as nat <= s.len(),
                digits_end(s, i as nat) == digits_end(s, j as nat),
                forall|k: int| i <= k < j ==> is_digit(s[k]),
                v as int == sat_val(s.subrange(i as int, j as int)),
                0 <= v,
            ensures
                self.wf(),
                self.input == old(self).input,
                self.len == old(self).len,
                i <= j && j as nat <= s.len(),
                j as nat == digits_end(s, i as nat),
                v as int == sat_val(s.subrange(i as int, j as int)),
            decreases s.len() - j as nat,
        {
            if j >= self.len {
                break;
            }
            let c = self.input.as_str().get_char(j);
            let cu = c as u32;
            if !(48 <= cu && cu <= 57) {
                break;
            }
            let d = (cu - 48) as i64;
            proof {
                assert(s.subrange(i as int, j + 1 as int).drop_last() =~= s.subrange(
                    i as int,
                    j as int,
                ));
                assert(s.subrange(i as int, j + 1 as int).last() == s[j as int]);
            }
            if v <= (i64::MAX - d) / 10 {
                assert(v * 10 + d <= i64::MAX as int) by (nonlinear_arith)
                    requires
                        0 <= v,
                        0 <= d <= 9,
                        v <= (i64::MAX - d) / 10,
                ;
                v = v * 10 + d;
            } else {
                assert(v as int * 10 + d > i64::MAX as int) by (nonlinear_arith)
                    requires
                        0 <= v,
                        0 <= d <= 9,
                        v > (i64::MAX - d) / 10,
                ;
                v = i64::MAX;
            }
            j = j + 1;
        }
        self.pos = j;
        Token::INT(v)
    }
}

/// Whether two string slices hold the same characters.
pub fn str_eq(a: &str, b: &str) -> (r: bool)
    ensures
        r == (a@ == b@),
{
    let la = a.unicode_len();
    let lb = b.unicode_len();
    if la != lb {
        return false;
    }
    let mut k: usize = 0;
    while k < la
        invariant
            la == a@.len(),
            la == b@.len(),
            k <= la,
            forall|m: int| 0 <= m < k ==> a@[m] == b@[m],
        decreases la - k,
    {
        if a.get_char(k) != b.get_char(k) {
            return false;
        }
        k = k + 1;
    }
    proof {
        assert(a@ =~= b@);
    }
    true
}

} // verus!

use vstd::prelude::*;

use crate::builtins::Operation;
use crate::errors::ForthError;
use crate::text::is_digit;
use crate::text::is_digit_char;
use crate::text::is_space;
use crate::text::is_space_char;
use crate::text::digit_val;
use crate::text::string_from_chars;
use crate::text::str_eq;
use crate::text::to_upper_char;
use crate::text::upper_char;
use crate::text::upper_seq;
use crate::text::chars_of;

verus! {

broadcast use vstd::seq_lib::group_seq_lib_default;

/// The mathematical shape of a [`Token`]: the same variants over sequences
/// of characters instead of strings.  Contracts and the lexer model speak of
/// these.
pub enum TokenView {
    DefStart,
    DefEnd,
    StringLit(Seq<char>),
    Number(i16),
    Word(Seq<char>),
    Operand(Operation),
}

/// One lexical token.  `DefStart` and `DefEnd` are the definition delimiters
/// `:` and `;`; a `Word` carries an uppercased user-level identifier; an
/// `Operand` carries a recognized primitive operation.
#[derive(Debug, PartialEq)]
pub enum Token {
    DefStart,
    DefEnd,
    StringLit(String),
    Number(i16),
    Word(String),
    Operand(Operation),
}

impl View for Token {
    type V = TokenView;

    open spec fn view(&self) -> TokenView {
        match self {
            Token::DefStart => TokenView::DefStart,
            Token::DefEnd => TokenView::DefEnd,
            Token::StringLit(s) => TokenView::StringLit(s@),
            Token::Number(n) => TokenView::Number(*n),
            Token::Word(w) => TokenView::Word(w@),
            Token::Operand(op) => TokenView::Operand(*op),
        }
    }
}

impl DeepView for Token {
    type V = TokenView;

    open spec fn deep_view(&self) -> TokenView {
        self.view()
    }
}

/// The token a bare word resolves to: the operation named by a primitive
/// symbol, or an unresolved `Word` carrying the text itself.  The table is
/// exact and case-sensitive; the lexer hands it already-uppercased text.
pub open spec fn resolve_word(w: Seq<char>) -> TokenView {
    if w == "+"@ {
        TokenView::Operand(Operation::Add)
    } else if w == "-"@ {
        TokenView::Operand(Operation::Sub)
    } else if w == "*"@ {
        TokenView::Operand(Operation::Mul)
    } else if w == "/"@ {
        TokenView::Operand(Operation::Div)
    } else if w == "DUP"@ {
        TokenView::Operand(Operation::Dup)
    } else if w == "DROP"@ {
        TokenView::Operand(Operation::Drop)
    } else if w == "SWAP"@ {
        TokenView::Operand(Operation::Swap)
    } else if w == "OVER"@ {
        TokenView::Operand(Operation::Over)
    } else if w == "ROT"@ {
        TokenView::Operand(Operation::Rot)
    } else if w == "."@ {
        TokenView::Operand(Operation::Dot)
    } else if w == "EMIT"@ {
        TokenView::Operand(Operation::Emit)
    } else if w == "CR"@ {
        TokenView::Operand(Operation::Cr)
    } else if w == "="@ {
        TokenView::Operand(Operation::Eq)
    } else if w == "<"@ {
        TokenView::Operand(Operation::Lt)
    } else if w == ">"@ {
        TokenView::Operand(Operation::Gt)
    } else if w == "AND"@ {
        TokenView::Operand(Operation::And)
    } else if w == "OR"@ {
        TokenView::Operand(Operation::Or)
    } else if w == "NOT"@ {
        TokenView::Operand(Operation::Not)
    } else if w == "IF"@ {
        TokenView::Operand(Operation::If)
    } else if w == "ELSE"@ {
        TokenView::Operand(Operation::Else)
    } else if w == "THEN"@ {
        TokenView::Operand(Operation::Then)
    } else {
        TokenView::Word(w)
    }
}

/// Maps a bare word to its operation token where it names a primitive, and
/// to an unresolved `Word` token carrying the text itself otherwise.  This
/// lookup has no failure mode.
pub fn parse_operation(word: &str) -> (t: Token)
    ensures
        t@ == resolve_word(word@),
{
    if str_eq(word, "+") {
        Token::Operand(Operation::Add)
    } else if str_eq(word, "-") {
        Token::Operand(Operation::Sub)
    } else if str_eq(word, "*") {
        Token::Operand(Operation::Mul)
    } else if str_eq(word, "/") {
        Token::Operand(Operation::Div)
    } else if str_eq(word, "DUP") {
        Token::Operand(Operation::Dup)
    } else if str_eq(word, "DROP") {
        Token::Operand(Operation::Drop)
    } else if str_eq(word, "SWAP") {
        Token::Operand(Operation::Swap)
    } else if str_eq(word, "OVER") {
        Token::Operand(Operation::Over)
    } else if str_eq(word, "ROT") {
        Token::Operand(Operation::Rot)
    } else if str_eq(word, ".") {
        Token::Operand(Operation::Dot)
    } else if str_eq(word, "EMIT") {
        Token::Operand(Operation::Emit)
    } else if str_eq(word, "CR") {
        Token::Operand(Operation::Cr)
    } else if str_eq(word, "=") {
        Token::Operand(Operation::Eq)
    } else if str_eq(word, "<") {
        Token::Operand(Operation::Lt)
    } else if str_eq(word, ">") {
        Token::Operand(Operation::Gt)
    } else if str_eq(word, "AND") {
        Token::Operand(Operation::And)
    } else if str_eq(word, "OR") {
        Token::Operand(Operation::Or)
    } else if str_eq(word, "NOT") {
        Token::Operand(Operation::Not)
    } else if str_eq(word, "IF") {
        Token::Operand(Operation::If)
    } else if str_eq(word, "ELSE") {
        Token::Operand(Operation::Else)
    } else if str_eq(word, "THEN") {
        Token::Operand(Operation::Then)
    } else {
        Token::Word(word.to_owned())
    }
}

/// One step of splitting source text into whitespace-separated words: `i`
/// scans the characters of `s`, `cur` is the word being accumulated, `acc`
/// the words already complete.
pub open spec fn words_acc(s: Seq<char>, i: int, cur: Seq<char>, acc: Seq<Seq<char>>) -> Seq<
    Seq<char>,
>
    decreases s.len() - i,
{
    if i < 0 || i >= s.len() {
        if cur.len() == 0 {
            acc
        } else {
            acc.push(cur)
        }
    } else if is_space(s[i]) {
        if cur.len() == 0 {
            words_acc(s, i + 1, cur, acc)
        } else {
            words_acc(s, i + 1, Seq::empty(), acc.push(cur))
        }
    } else {
        words_acc(s, i + 1, cur.push(s[i]), acc)
    }
}

/// The whitespace-separated words of `s`: the maximal nonempty runs of
/// non-whitespace characters, in order.
pub open spec fn words_of(s: Seq<char>) -> Seq<Seq<char>> {
    words_acc(s, 0, Seq::empty(), Seq::empty())
}

/// Whether every character of `s` is a decimal digit.
pub open spec fn all_digits(s: Seq<char>) -> bool {
    forall|i: int| 0 <= i < s.len() ==> is_digit(s[i])
}

/// Whether `w` has the shape of a number: solely digits, or a single leading
/// minus sign followed by digits.  A lone minus sign does not qualify; it
/// resolves to the subtraction primitive.
pub open spec fn is_numeric(w: Seq<char>) -> bool {
    (w.len() > 0 && all_digits(w)) || (w.len() > 1 && w.first() == '-' && all_digits(
        w.drop_first(),
    ))
}

/// The value of a sequence of decimal digits, most significant first.
pub open spec fn digits_value(s: Seq<char>) -> int
    decreases s.len(),
{
    if s.len() == 0 {
        0
    } else {
        digits_value(s.drop_last()) * 10 + digit_val(s.last())
    }
}

/// The value of a numeric-shaped word, sign included.
pub open spec fn numeric_value(w: Seq<char>) -> int {
    if w.len() > 0 && w.first() == '-' {
        -digits_value(w.drop_first())
    } else {
        digits_value(w)
    }
}

/// A string literal piece appended to the content accumulated so far: pieces
/// are joined by a single space, and a piece after an empty content (the
/// literal was opened by a lone quote word) starts the content without one.
pub open spec fn join_piece(content: Seq<char>, piece: Seq<char>) -> Seq<char> {
    if content.len() == 0 {
        piece
    } else {
        content + seq![' '] + piece
    }
}

/// One step of turning words into tokens: `k` scans the words `ws`; while
/// `in_lit` holds, `lit` is the content of the string literal being
/// accumulated; `acc` holds the tokens already produced.  Classification of
/// a word, first match wins: definition delimiters, numbers, string
/// literals, then bare words uppercased and resolved against the primitive
/// table.
pub open spec fn lex_words(
    ws: Seq<Seq<char>>,
    k: int,
    in_lit: bool,
    lit: Seq<char>,
    acc: Seq<TokenView>,
) -> Result<Seq<TokenView>, ForthError>
    decreases ws.len() - k,
{
    if k < 0 || k >= ws.len() {
        if in_lit {
            Err(ForthError::UnterminatedString)
        } else {
            Ok(acc)
        }
    } else {
        let w = ws[k];
        if in_lit {
            if w.len() >= 1 && w.last() == '"' {
                lex_words(
                    ws,
                    k + 1,
                    false,
                    Seq::empty(),
                    acc.push(TokenView::StringLit(join_piece(lit, w.drop_last()))),
                )
            } else {
                lex_words(ws, k + 1, true, join_piece(lit, w), acc)
            }
        } else if w == seq![':'] {
            lex_words(ws, k + 1, false, lit, acc.push(TokenView::DefStart))
        } else if w == seq![';'] {
            lex_words(ws, k + 1, false, lit, acc.push(TokenView::DefEnd))
        } else if is_numeric(w) {
            if -32768 <= numeric_value(w) && numeric_value(w) <= 32767 {
                lex_words(ws, k + 1, false, lit, acc.push(TokenView::Number(numeric_value(w) as i16)))
            } else {
                Err(ForthError::InvalidNumber)
            }
        } else if w.len() >= 1 && w.first() == '"' {
            if w.len() >= 2 && w.last() == '"' {
                lex_words(
                    ws,
                    k + 1,
                    false,
                    lit,
                    acc.push(TokenView::StringLit(w.subrange(1, w.len() - 1))),
                )
            } else {
                lex_words(ws, k + 1, true, w.drop_first(), acc)
            }
        } else {
            lex_words(ws, k + 1, false, lit, acc.push(resolve_word(upper_seq(w))))
        }
    }
}

/// The token sequence of source text `s`, or the first lexical failure.
pub open spec fn lex(s: Seq<char>) -> Result<Seq<TokenView>, ForthError> {
    lex_words(words_of(s), 0, false, Seq::empty(), Seq::empty())
}

/// The views of a token-sequence result: the token views on success, the
/// error unchanged on failure.
pub open spec fn tokens_view(r: Result<Vec<Token>, ForthError>) -> Result<
    Seq<TokenView>,
    ForthError,
> {
    match r {
        Ok(v) => Ok(v.deep_view()),
        Err(e) => Err(e),
    }
}

/// The whitespace-separated words of `cs`, each word a nonempty vector.
fn split_words(cs: &Vec<char>) -> (ws: Vec<Vec<char>>)
    ensures
        ws.deep_view() == words_of(cs@),
        forall|j: int| 0 <= j < ws@.len() ==> (#[trigger] ws@[j])@.len() > 0,
{
    let n: usize = cs.len();
    let mut ws: Vec<Vec<char>> = Vec::new();
    let mut cur: Vec<char> = Vec::new();
    let mut i: usize = 0;
    proof {
        assert(ws.deep_view() =~= Seq::<Seq<char>>::empty());
    }
    while i < n
        invariant
            n == cs@.len(),
            i <= n,
            words_of(cs@) == words_acc(cs@, i as int, cur@, ws.deep_view()),
            forall|j: int| 0 <= j < ws@.len() ==> (#[trigger] ws@[j])@.len() > 0,
        decreases n - i,
    {
        let c = cs[i];
        if is_space_char(c) {
            if cur.len() > 0 {
                let ghost dv0 = ws.deep_view();
                let ghost cv = cur@;
                ws.push(cur);
                cur = Vec::new();
                proof {
                    assert(ws.deep_view() =~~= dv0.push(cv));
                }
            }
        } else {
            cur.push(c);
        }
        i = i + 1;
    }
    if cur.len() > 0 {
        let ghost dv0 = ws.deep_view();
        let ghost cv = cur@;
        ws.push(cur);
        proof {
            assert(ws.deep_view() =~~= dv0.push(cv));
        }
    }
    ws
}

/// Whether `w` has the shape of a number; see [`is_numeric`].
fn numeric_shape(w: &Vec<char>) -> (r: bool)
    ensures
        r == is_numeric(w@),
{
    let n: usize = w.len();
    if n == 0 {
        return false;
    }
    let neg: bool = w[0] == '-';
    if neg && n == 1 {
        return false;
    }
    let start: usize = if neg {
        1
    } else {
        0
    };
    let mut i: usize = start;
    while i < n
        invariant
            n == w@.len(),
            n > 0,
            start <= i <= n,
            neg == (w@.first() == '-'),
            neg ==> start == 1,
            !neg ==> start == 0,
            neg ==> n > 1,
            forall|j: int| start <= j < i ==> is_digit(w@[j]),
        decreases n - i,
    {
        if !is_digit_char(w[i]) {
            proof {
                if neg {
                    assert(!is_digit(w@.first()));
                    assert(w@.drop_first()[i - 1] == w@[i as int]);
                } else {
                    assert(!is_digit(w@[i as int]));
                }
            }
            return false;
        }
        i = i + 1;
    }
    proof {
        if neg {
            assert forall|j: int| 0 <= j < w@.drop_first().len() implies is_digit(
                #[trigger] w@.drop_first()[j],
            ) by {
                assert(w@.drop_first()[j] == w@[j + 1]);
            }
        }
    }
    true
}

/// The relation the digit-accumulation loop of [`parse_i16`] maintains: the
/// accumulator tracks the value of the digits read so far, or holds the
/// sentinel 40000 once that value has passed 32768.
spec fn acc_tracks(dv: int, acc: u32) -> bool {
    (dv <= 32768 && acc == dv) || (dv > 32768 && acc == 40000)
}

proof fn lemma_digits_value_nonneg(s: Seq<char>)
    requires
        all_digits(s),
    ensures
        digits_value(s) >= 0,
    decreases s.len(),
{
    if s.len() > 0 {
        assert(all_digits(s.drop_last()));
        lemma_digits_value_nonneg(s.drop_last());
        assert(is_digit(s.last()));
    }
}

/// The value of a numeric-shaped word as a signed 16-bit integer, or `None`
/// where the value does not fit.
fn parse_i16(w: &Vec<char>) -> (r: Option<i16>)
    requires
        is_numeric(w@),
    ensures
        -32768 <= numeric_value(w@) <= 32767 ==> r == Some(numeric_value(w@) as i16),
        !(-32768 <= numeric_value(w@) <= 32767) ==> r is None,
{
    let n: usize = w.len();
    let neg: bool = w[0] == '-';
    let start: usize = if neg {
        1
    } else {
        0
    };
    let ghost digits = w@.subrange(start as int, n as int);
    proof {
        if neg {
            assert(digits =~= w@.drop_first());
        } else {
            assert(digits =~= w@);
        }
        lemma_digits_value_nonneg(digits);
    }
    let mut acc: u32 = 0;
    let mut i: usize = start;
    proof {
        assert(w@.subrange(start as int, start as int) =~= Seq::<char>::empty());
    }
    while i < n
        invariant
            n == w@.len(),
            is_numeric(w@),
            neg == (w@.first() == '-'),
            neg ==> start == 1,
            !neg ==> start == 0,
            start <= i <= n,
            digits == w@.subrange(start as int, n as int),
            all_digits(digits),
            acc_tracks(digits_value(w@.subrange(start as int, i as int)), acc),
        decreases n - i,
    {
        let ghost pref = w@.subrange(start as int, i as int);
        proof {
            assert(w@[i as int] == digits[i - start]);
            assert(is_digit(w@[i as int]));
            assert(w@.subrange(start as int, i + 1).drop_last() =~= pref);
            assert(w@.subrange(start as int, i + 1).last() == w@[i as int]);
            assert(all_digits(pref)) by {
                assert forall|j: int| 0 <= j < pref.len() implies is_digit(#[trigger] pref[j]) by {
                    assert(pref[j] == digits[j]);
                }
            }
            lemma_digits_value_nonneg(pref);
        }
        let c = w[i];
        let d: u32 = (c as u32) - 0x30;
        if acc > 32768 {
            acc = 40000;
        } else {
            let next: u32 = acc * 10 + d;
            if next > 32768 {
                acc = 40000;
            } else {
                acc = next;
            }
        }
        i = i + 1;
    }
    proof {
        assert(w@.subrange(start as int, n as int) == digits);
    }
    if neg {
        if acc > 32768 {
            None
        } else {
            let v: i16 = (-(acc as i32)) as i16;
            Some(v)
        }
    } else {
        if acc > 32767 {
            None
        } else {
            Some(acc as i16)
        }
    }
}

/// The characters of `w` from `from` (inclusive) to `to` (exclusive).
fn sub_chars(w: &Vec<char>, from: usize, to: usize) -> (r: Vec<char>)
    requires
        from <= to <= w@.len(),
    ensures
        r@ == w@.subrange(from as int, to as int),
{
    let mut r: Vec<char> = Vec::new();
    let mut i: usize = from;
    while i < to
        invariant
            from <= i <= to <= w@.len(),
            r@ == w@.subrange(from as int, i as int),
        decreases to - i,
    {
        r.push(w[i]);
        proof {
            assert(w@.subrange(from as int, i as int).push(w@[i as int]) =~= w@.subrange(
                from as int,
                i + 1,
            ));
        }
        i = i + 1;
    }
    r
}

/// Appends a string literal piece to the content accumulated so far; the
/// in-place form of [`join_piece`].
fn append_piece(content: &mut Vec<char>, piece: &Vec<char>)
    ensures
        final(content)@ == join_piece(old(content)@, piece@),
{
    if content.len() > 0 {
        content.push(' ');
    }
    let n: usize = piece.len();
    let mut i: usize = 0;
    proof {
        assert(piece@.take(0) =~= Seq::<char>::empty());
        assert(content@ =~= join_piece(old(content)@, piece@.take(0)));
    }
    while i < n
        invariant
            n == piece@.len(),
            i <= n,
            content@ == join_piece(old(content)@, piece@.take(i as int)),
        decreases n - i,
    {
        content.push(piece[i]);
        proof {
            assert(piece@.take(i as int).push(piece@[i as int]) =~= piece@.take(i + 1));
            assert(content@ =~= join_piece(old(content)@, piece@.take(i + 1)));
        }
        i = i + 1;
    }
    proof {
        assert(piece@.take(n as int) =~= piece@);
    }
}

/// `w` with every ASCII lowercase letter uppercased.
fn upper_chars(w: &Vec<char>) -> (r: Vec<char>)
    ensures
        r@ == upper_seq(w@),
{
    let n: usize = w.len();
    let mut r: Vec<char> = Vec::new();
    let mut i: usize = 0;
    while i < n
        invariant
            n == w@.len(),
            i <= n,
            r@.len() == i,
            forall|j: int| 0 <= j < i ==> r@[j] == upper_char(w@[j]),
        decreases n - i,
    {
        r.push(to_upper_char(w[i]));
        i = i + 1;
    }
    proof {
        assert(r@ =~= upper_seq(w@));
    }
    r
}

/// Converts source text into its flat token sequence, left to right: `:` and
/// `;` become definition delimiters; a word solely of digits, or a minus
/// sign followed by digits, becomes a `Number` (failing with `InvalidNumber`
/// when the value does not fit a signed 16-bit integer); a word beginning
/// with a quote opens a string literal that accumulates words, space-joined,
/// until one ending in a quote (failing with `UnterminatedString` at end of
/// input); anything else is uppercased and resolved against the primitive
/// table.  The result is exactly [`lex`] of the input.
pub fn tokenize(input: &str) -> (r: Result<Vec<Token>, ForthError>)
    ensures
        tokens_view(r) == lex(input@),
{
    let cs = chars_of(input);
    let ws = split_words(&cs);
    let nw: usize = ws.len();
    let mut toks: Vec<Token> = Vec::new();
    let mut in_lit: bool = false;
    let mut lit: Vec<char> = Vec::new();
    let mut k: usize = 0;
    proof {
        assert(toks.deep_view() =~= Seq::<TokenView>::empty());
        assert(lex(input@) == lex_words(ws.deep_view(), 0, false, Seq::empty(), Seq::empty()));
    }
    while k < nw
        invariant
            nw == ws@.len(),
            k <= nw,
            ws.deep_view() == words_of(cs@),
            cs@ == input@,
            forall|j: int| 0 <= j < ws@.len() ==> (#[trigger] ws@[j])@.len() > 0,
            lex(input@) == lex_words(ws.deep_view(), k as int, in_lit, lit@, toks.deep_view()),
        decreases nw - k,
    {
        let ghost dv0 = toks.deep_view();
        let w = &ws[k];
        let wlen: usize = w.len();
        proof {
            assert(ws@[k as int]@ == ws.deep_view()[k as int]);
            assert(wlen > 0);
        }
        if in_lit {
            if w[wlen - 1] == '"' {
                let ghost lit0 = lit@;
                let piece = sub_chars(w, 0, wlen - 1);
                proof {
                    assert(piece@ =~= ws.deep_view()[k as int].drop_last());
                }
                append_piece(&mut lit, &piece);
                toks.push(Token::StringLit(string_from_chars(&lit)));
                lit = Vec::new();
                in_lit = false;
                proof {
                    assert(toks.deep_view() =~= dv0.push(
                        TokenView::StringLit(
                            join_piece(lit0, ws.deep_view()[k as int].drop_last()),
                        ),
                    ));
                }
            } else {
                append_piece(&mut lit, w);
            }
        } else if wlen == 1 && w[0] == ':' {
            proof {
                assert(ws.deep_view()[k as int] =~= seq![':']);
            }
            toks.push(Token::DefStart);
            proof {
                assert(toks.deep_view() =~= dv0.push(TokenView::DefStart));
            }
        } else if wlen == 1 && w[0] == ';' {
            proof {
                assert(ws.deep_view()[k as int] =~= seq![';']);
            }
            toks.push(Token::DefEnd);
            proof {
                assert(toks.deep_view() =~= dv0.push(TokenView::DefEnd));
            }
        } else if numeric_shape(w) {
            match parse_i16(w) {
                Some(v) => {
                    toks.push(Token::Number(v));
                    proof {
                        assert(toks.deep_view() =~= dv0.push(TokenView::Number(v)));
                    }
                },
                None => {
                    return Err(ForthError::InvalidNumber);
                },
            }
        } else if w[0] == '"' {
            proof {
                assert(ws.deep_view()[k as int] != seq![':']);
                assert(ws.deep_view()[k as int] != seq![';']);
            }
            if wlen >= 2 && w[wlen - 1] == '"' {
                let content = sub_chars(w, 1, wlen - 1);
                toks.push(Token::StringLit(string_from_chars(&content)));
                proof {
                    assert(toks.deep_view() =~= dv0.push(
                        TokenView::StringLit(
                            ws.deep_view()[k as int].subrange(
                                1,
                                ws.deep_view()[k as int].len() - 1,
                            ),
                        ),
                    ));
                }
            } else {
                lit = sub_chars(w, 1, wlen);
                in_lit = true;
                proof {
                    assert(lit@ =~= ws.deep_view()[k as int].drop_first());
                }
            }
        } else {
            proof {
                assert(ws.deep_view()[k as int] != seq![':']);
                assert(ws.deep_view()[k as int] != seq![';']);
            }
            let up = upper_chars(w);
            let word = string_from_chars(&up);
            let tok = parse_operation(word.as_str());
            toks.push(tok);
            proof {
                assert(toks.deep_view() =~= dv0.push(
                    resolve_word(upper_seq(ws.deep_view()[k as int])),
                ));
            }
        }
        k = k + 1;
    }
    if in_lit {
        return Err(ForthError::UnterminatedString);
    }
    Ok(toks)
}

/// Converts source text into its flat token sequence; see [`tokenize`].
pub fn parse(input: &str) -> (r: Result<Vec<Token>, ForthError>)
    ensures
        tokens_view(r) == lex(input@),
{
    let tokens = tokenize(input)?;
    Ok(tokens)
}

} // verus!

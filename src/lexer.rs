use vstd::prelude::*;

verus! {

/// The kinds of token of a constructor expression.
#[derive(Clone, Copy, Debug, PartialEq, Eq, Structural)]
pub enum TokKind {
    /// a name: a letter or `_`, then letters, digits and `_`
    Ident,
    /// a number: a digit or sign, then digits, signs, `.`, `e` and `E`
    Number,
    /// `(`
    Open,
    /// `)`
    Close,
    /// `[`
    LBracket,
    /// `]`
    RBracket,
    /// `,`
    Comma,
}

/// A token: its kind and the span `start..end` of the text it covers.
#[derive(Clone, Copy, Debug, PartialEq, Eq, Structural)]
pub struct Token {
    pub kind: TokKind,
    pub start: usize,
    pub end: usize,
}

pub open spec fn is_space(c: char) -> bool {
    c == ' ' || c == '\t' || c == '\n' || c == '\r'
}

pub open spec fn is_letter(c: char) -> bool {
    ('a' <= c && c <= 'z') || ('A' <= c && c <= 'Z') || c == '_'
}

pub open spec fn is_ident_char(c: char) -> bool {
    is_letter(c) || ('0' <= c && c <= '9')
}

pub open spec fn is_number_start(c: char) -> bool {
    ('0' <= c && c <= '9') || c == '+' || c == '-'
}

pub open spec fn is_number_char(c: char) -> bool {
    is_number_start(c) || c == '.' || c == 'e' || c == 'E'
}

pub open spec fn punct_kind(c: char) -> Option<TokKind> {
    if c == '(' {
        Some(TokKind::Open)
    } else if c == ')' {
        Some(TokKind::Close)
    } else if c == '[' {
        Some(TokKind::LBracket)
    } else if c == ']' {
        Some(TokKind::RBracket)
    } else if c == ',' {
        Some(TokKind::Comma)
    } else {
        None
    }
}

/// The number of name characters of `s` from `i` on.
pub open spec fn ident_len(s: Seq<char>, i: int) -> nat
    decreases s.len() - i,
{
    if 0 <= i < s.len() && is_ident_char(s[i]) { 1 + ident_len(s, i + 1) } else { 0 }
}

/// The number of number characters of `s` from `i` on.
pub open spec fn number_len(s: Seq<char>, i: int) -> nat
    decreases s.len() - i,
{
    if 0 <= i < s.len() && is_number_char(s[i]) { 1 + number_len(s, i + 1) } else { 0 }
}

pub open spec fn prepend(t: Token, rest: Option<Seq<Token>>) -> Option<Seq<Token>> {
    match rest {
        Some(r) => Some(seq![t] + r),
        None => None,
    }
}

/// The tokens of `s` from position `i` on, each as long as it can be, with white space
/// between them skipped; `None` at a character that starts no token.
pub open spec fn lex_from(s: Seq<char>, i: int) -> Option<Seq<Token>>
    decreases s.len() - i,
    via lex_from_decreases
{
    if i < 0 || i >= s.len() {
        Some(Seq::empty())
    } else if is_space(s[i]) {
        lex_from(s, i + 1)
    } else if punct_kind(s[i]) is Some {
        prepend(Token { kind: punct_kind(s[i])->0, start: i as usize, end: (i + 1) as usize }, lex_from(s, i + 1))
    } else if is_letter(s[i]) {
        let j = i + 1 + ident_len(s, i + 1);
        prepend(Token { kind: TokKind::Ident, start: i as usize, end: j as usize }, lex_from(s, j))
    } else if is_number_start(s[i]) {
        let j = i + 1 + number_len(s, i + 1);
        prepend(Token { kind: TokKind::Number, start: i as usize, end: j as usize }, lex_from(s, j))
    } else {
        None
    }
}

proof fn lemma_ident_len_bound(s: Seq<char>, i: int)
    requires
        0 <= i,
    ensures
        i + ident_len(s, i) <= if i <= s.len() { s.len() as int } else { i },
    decreases s.len() - i,
{
    if 0 <= i < s.len() && is_ident_char(s[i]) {
        lemma_ident_len_bound(s, i + 1);
    }
}

proof fn lemma_number_len_bound(s: Seq<char>, i: int)
    requires
        0 <= i,
    ensures
        i + number_len(s, i) <= if i <= s.len() { s.len() as int } else { i },
    decreases s.len() - i,
{
    if 0 <= i < s.len() && is_number_char(s[i]) {
        lemma_number_len_bound(s, i + 1);
    }
}

#[via_fn]
proof fn lex_from_decreases(s: Seq<char>, i: int) {
    if 0 <= i < s.len() {
        lemma_ident_len_bound(s, i + 1);
        lemma_number_len_bound(s, i + 1);
    }
}

pub open spec fn lex(s: Seq<char>) -> Option<Seq<Token>> {
    lex_from(s, 0)
}

pub open spec fn join(p: Seq<Token>, rest: Option<Seq<Token>>) -> Option<Seq<Token>> {
    match rest {
        Some(r) => Some(p + r),
        None => None,
    }
}

fn punct_kind_exec(c: char) -> (r: Option<TokKind>)
    ensures
        r == punct_kind(c),
{
    if c == '(' {
        Some(TokKind::Open)
    } else if c == ')' {
        Some(TokKind::Close)
    } else if c == '[' {
        Some(TokKind::LBracket)
    } else if c == ']' {
        Some(TokKind::RBracket)
    } else if c == ',' {
        Some(TokKind::Comma)
    } else {
        None
    }
}

fn is_letter_exec(c: char) -> (r: bool)
    ensures
        r == is_letter(c),
{
    ('a' <= c && c <= 'z') || ('A' <= c && c <= 'Z') || c == '_'
}

fn class_char(c: char, number: bool) -> (r: bool)
    ensures
        r == if number { is_number_char(c) } else { is_ident_char(c) },
{
    if number {
        ('0' <= c && c <= '9') || c == '+' || c == '-' || c == '.' || c == 'e' || c == 'E'
    } else {
        is_letter_exec(c) || ('0' <= c && c <= '9')
    }
}

/// The end of the run of characters from `i` on that satisfy the name (or, with `number`,
/// the number) character class.
fn run_end(s: &[char], i: usize, number: bool) -> (j: usize)
    requires
        i <= s@.len(),
    ensures
        number ==> j == i + number_len(s@, i as int),
        !number ==> j == i + ident_len(s@, i as int),
        i <= j <= s@.len(),
{
    let mut j = i;
    while j < s.len() && class_char(s[j], number)
        invariant
            i <= j <= s@.len(),
            number ==> number_len(s@, i as int) == (j - i) + number_len(s@, j as int),
            !number ==> ident_len(s@, i as int) == (j - i) + ident_len(s@, j as int),
        decreases s@.len() - j,
    {
        j = j + 1;
    }
    j
}

/// A character that starts no token.
pub open spec fn stray(c: char) -> bool {
    !is_space(c) && punct_kind(c) is None && !is_letter(c) && !is_number_start(c)
}

/// Splits `s` into tokens (see `lex`); where that fails, the position of the first
/// character, outside a token, that starts none.
pub fn tokenize(s: &[char]) -> (r: Result<Vec<Token>, usize>)
    ensures
        match r {
            Ok(v) => lex(s@) == Some(v@) && forall|k: int| 0 <= k < v@.len() ==> (#[trigger] v@[k]).start
                <= v@[k].end <= s@.len(),
            Err(i) => lex(s@) is None && i < s@.len() && stray(s@[i as int]),
        },
{
    let mut out: Vec<Token> = Vec::new();
    let mut i: usize = 0;
    proof {
        assert(out@ + lex_from(s@, 0)->0 =~= lex_from(s@, 0)->0);
    }
    while i < s.len()
        invariant
            i <= s@.len(),
            lex(s@) == join(out@, lex_from(s@, i as int)),
            forall|k: int| 0 <= k < out@.len() ==> (#[trigger] out@[k]).start <= out@[k].end <= i,
        decreases s@.len() - i,
    {
        let c = s[i];
        if c == ' ' || c == '\t' || c == '\n' || c == '\r' {
            i = i + 1;
        } else {
            let ghost prev = out@;
            let j: usize;
            let kind: TokKind;
            match punct_kind_exec(c) {
                Some(k) => {
                    j = i + 1;
                    kind = k;
                },
                None => {
                    if is_letter_exec(c) {
                        j = run_end(s, i + 1, false);
                        kind = TokKind::Ident;
                    } else if ('0' <= c && c <= '9') || c == '+' || c == '-' {
                        j = run_end(s, i + 1, true);
                        kind = TokKind::Number;
                    } else {
                        return Err(i);
                    }
                },
            }
            let t = Token { kind, start: i, end: j };
            out.push(t);
            proof {
                match lex_from(s@, j as int) {
                    Some(r) => assert(prev + (seq![t] + r) =~= out@ + r),
                    None => {},
                }
            }
            i = j;
        }
    }
    proof {
        assert(out@ + Seq::<Token>::empty() =~= out@);
    }
    Ok(out)
}

} // verus!

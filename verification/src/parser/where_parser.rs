use crate::errors::parse_error::ParseError;
use crate::text::{
    chars_of, eq_ignore_case, find_char_from, is_digit, is_word_ignore_case,
    lemma_scan_while_bounds, parse_i64, parse_int, scan_while, string_of, subvec,
    unicode_alphabetic, unicode_alphanumeric,
};
use crate::types::filter_types::CmpOp;
use crate::types::parser_types::{
    nodes_view, tokens_view, Condition, ConditionView, Node, NodeView, Operand, OperandView,
    Token, TokenView,
};
use crate::types::storage_types::{Value, ValueView};
use vstd::prelude::*;

verus! {

/// Whether position `i` has the class that `classes` records, position by
/// position; a position that it does not reach has it not.
pub open spec fn class_at(classes: Seq<bool>, i: int) -> bool {
    0 <= i < classes.len() && classes[i]
}

/// Whether the character at position `i` may continue an identifier: a
/// letter or a digit, as `alnums` records it, an underscore, or the dot
/// that qualifies a column by its table.
pub open spec fn continues_ident(s: Seq<char>, alnums: Seq<bool>, i: int) -> bool {
    class_at(alnums, i) || s[i] == '_' || s[i] == '.'
}

/// Where the identifier ends that runs up to position `i`: the first
/// position at or after `i` that does not continue it, or the length.
pub open spec fn ident_end(s: Seq<char>, alnums: Seq<bool>, i: int) -> int
    decreases s.len() - i,
{
    if 0 <= i < s.len() && continues_ident(s, alnums, i) {
        ident_end(s, alnums, i + 1)
    } else {
        i
    }
}

/// An identifier ends at or after the position from which it is followed,
/// inside the text.
pub proof fn lemma_ident_end_bounds(s: Seq<char>, alnums: Seq<bool>, i: int)
    requires
        0 <= i <= s.len(),
    ensures
        i <= ident_end(s, alnums, i) <= s.len(),
    decreases s.len() - i,
{
    if i < s.len() && continues_ident(s, alnums, i) {
        lemma_ident_end_bounds(s, alnums, i + 1);
    }
}

/// The token that a word stands for: a keyword, a boolean, or an identifier.
pub open spec fn word_token(w: Seq<char>) -> TokenView {
    if eq_ignore_case(w, "and"@) {
        TokenView::And
    } else if eq_ignore_case(w, "or"@) {
        TokenView::Or
    } else if eq_ignore_case(w, "not"@) {
        TokenView::Not
    } else if eq_ignore_case(w, "true"@) {
        TokenView::Bool(true)
    } else if eq_ignore_case(w, "false"@) {
        TokenView::Bool(false)
    } else {
        TokenView::Ident(w)
    }
}

/// What stands at position `i` of a predicate whose letters and whose
/// letters and digits are recorded position by position: white space (no
/// token) or one token, with the position after it; or the reason why no
/// token begins there.
pub open spec fn next_token_by(s: Seq<char>, letters: Seq<bool>, alnums: Seq<bool>, i: int)
    -> Result<(Option<TokenView>, int), ParseError> {
    let c = s[i];
    let followed_by_eq = i + 1 < s.len() && s[i + 1] == '=';
    if c == ' ' || c == '\t' || c == '\n' {
        Ok((None, i + 1))
    } else if c == '(' {
        Ok((Some(TokenView::LParen), i + 1))
    } else if c == ')' {
        Ok((Some(TokenView::RParen), i + 1))
    } else if c == '=' {
        Ok((Some(TokenView::Eq), i + 1))
    } else if c == '!' && followed_by_eq {
        Ok((Some(TokenView::Neq), i + 2))
    } else if c == '>' {
        if followed_by_eq {
            Ok((Some(TokenView::Gte), i + 2))
        } else {
            Ok((Some(TokenView::Gt), i + 1))
        }
    } else if c == '<' {
        if followed_by_eq {
            Ok((Some(TokenView::Lte), i + 2))
        } else {
            Ok((Some(TokenView::Lt), i + 1))
        }
    } else if c == '"' {
        match find_char_from(s, '"', i + 1) {
            Some(j) => Ok((Some(TokenView::Str(s.subrange(i + 1, j))), j + 1)),
            None => Err(ParseError::UnterminatedString),
        }
    } else if class_at(letters, i) {
        let j = ident_end(s, alnums, i + 1);
        Ok((Some(word_token(s.subrange(i, j))), j))
    } else if is_digit(c) {
        let j = scan_while(s, |x: char| is_digit(x), i + 1);
        match parse_int(s.subrange(i, j)) {
            Some(n) => Ok((Some(TokenView::Int(n)), j)),
            None => Err(ParseError::InvalidNumber),
        }
    } else {
        Err(ParseError::UnexpectedCharacter)
    }
}

/// The first of the given character at or after a position lies at or
/// after it, inside the text.
pub proof fn lemma_find_char_from_bounds(s: Seq<char>, c: char, k: int)
    requires
        0 <= k,
    ensures
        find_char_from(s, c, k) matches Some(j) ==> k <= j < s.len(),
    decreases s.len() - k,
{
    if k < s.len() && s[k] != c {
        lemma_find_char_from_bounds(s, c, k + 1);
    }
}

/// A token ends behind the position where it begins, inside the text.
pub proof fn lemma_next_token_advances(
    s: Seq<char>,
    letters: Seq<bool>,
    alnums: Seq<bool>,
    i: int,
)
    requires
        0 <= i < s.len(),
    ensures
        next_token_by(s, letters, alnums, i) matches Ok((_, j)) ==> i < j <= s.len(),
{
    lemma_find_char_from_bounds(s, '"', i + 1);
    lemma_ident_end_bounds(s, alnums, i + 1);
    lemma_scan_while_bounds(s, |x: char| is_digit(x), i + 1);
}

/// The tokens of `s` from position `i` on, appended to `acc`.
pub open spec fn tokenize_from(
    s: Seq<char>,
    letters: Seq<bool>,
    alnums: Seq<bool>,
    i: int,
    acc: Seq<TokenView>,
) -> Result<Seq<TokenView>, ParseError>
    decreases s.len() - i,
{
    if i < 0 || i >= s.len() {
        Ok(acc)
    } else {
        match next_token_by(s, letters, alnums, i) {
            Err(e) => Err(e),
            Ok((t, j)) => {
                proof {
                    lemma_next_token_advances(s, letters, alnums, i);
                }
                tokenize_from(
                    s,
                    letters,
                    alnums,
                    j,
                    match t {
                        Some(t) => acc.push(t),
                        None => acc,
                    },
                )
            },
        }
    }
}

/// The tokens of a predicate whose letters and whose letters and digits
/// are recorded position by position.
pub open spec fn tokens_by(s: Seq<char>, letters: Seq<bool>, alnums: Seq<bool>) -> Result<
    Seq<TokenView>,
    ParseError,
> {
    tokenize_from(s, letters, alnums, 0, Seq::empty())
}

/// Which characters of a text are letters, position by position.
pub open spec fn letters_of(s: Seq<char>) -> Seq<bool> {
    Seq::new(s.len(), |i: int| unicode_alphabetic(s[i]))
}

/// Which characters of a text are letters or digits, position by position.
pub open spec fn alnums_of(s: Seq<char>) -> Seq<bool> {
    Seq::new(s.len(), |i: int| unicode_alphanumeric(s[i]))
}

/// The tokens of a predicate.
pub open spec fn spec_tokenize(s: Seq<char>) -> Result<Seq<TokenView>, ParseError> {
    tokens_by(s, letters_of(s), alnums_of(s))
}

/// View of an optional token.
pub open spec fn token_opt_view(t: Option<Token>) -> Option<TokenView> {
    match t {
        Some(t) => Some(t@),
        None => None,
    }
}

fn word_to_token(v: &Vec<char>, from: usize, to: usize) -> (t: Token)
    requires
        from <= to <= v.len(),
    ensures
        t@ == word_token(v@.subrange(from as int, to as int)),
{
    let w = subvec(v, from, to);
    if is_word_ignore_case(&w, "and") {
        Token::And
    } else if is_word_ignore_case(&w, "or") {
        Token::Or
    } else if is_word_ignore_case(&w, "not") {
        Token::Not
    } else if is_word_ignore_case(&w, "true") {
        Token::Bool(true)
    } else if is_word_ignore_case(&w, "false") {
        Token::Bool(false)
    } else {
        Token::Ident(string_of(v, from, to))
    }
}

fn has_class(classes: &Vec<bool>, i: usize) -> (b: bool)
    ensures
        b == class_at(classes@, i as int),
{
    i < classes.len() && classes[i]
}

fn scan_token(v: &Vec<char>, letters: &Vec<bool>, alnums: &Vec<bool>, i: usize) -> (r: Result<
    (Option<Token>, usize),
    ParseError,
>)
    requires
        i < v.len(),
    ensures
        match r {
            Ok((t, j)) => next_token_by(v@, letters@, alnums@, i as int) == Ok::<_, ParseError>(
                (token_opt_view(t), j as int),
            ) && i < j <= v.len(),
            Err(e) => next_token_by(v@, letters@, alnums@, i as int) == Err::<
                (Option<TokenView>, int),
                _,
            >(e),
        },
{
    let c = v[i];
    let followed_by_eq = i + 1 < v.len() && v[i + 1] == '=';
    if c == ' ' || c == '\t' || c == '\n' {
        Ok((None, i + 1))
    } else if c == '(' {
        Ok((Some(Token::LParen), i + 1))
    } else if c == ')' {
        Ok((Some(Token::RParen), i + 1))
    } else if c == '=' {
        Ok((Some(Token::Eq), i + 1))
    } else if c == '!' && followed_by_eq {
        Ok((Some(Token::Neq), i + 2))
    } else if c == '>' {
        if followed_by_eq {
            Ok((Some(Token::Gte), i + 2))
        } else {
            Ok((Some(Token::Gt), i + 1))
        }
    } else if c == '<' {
        if followed_by_eq {
            Ok((Some(Token::Lte), i + 2))
        } else {
            Ok((Some(Token::Lt), i + 1))
        }
    } else if c == '"' {
        let mut j: usize = i + 1;
        while j < v.len() && v[j] != '"'
            invariant
                i < j <= v.len(),
                find_char_from(v@, '"', j as int) == find_char_from(v@, '"', i + 1),
            decreases v.len() - j,
        {
            j += 1;
        }
        if j >= v.len() {
            Err(ParseError::UnterminatedString)
        } else {
            Ok((Some(Token::Str(string_of(v, i + 1, j))), j + 1))
        }
    } else if has_class(letters, i) {
        let mut j: usize = i + 1;
        while j < v.len() && (has_class(alnums, j) || v[j] == '_' || v[j] == '.')
            invariant
                i < j <= v.len(),
                ident_end(v@, alnums@, j as int) == ident_end(v@, alnums@, i + 1),
            decreases v.len() - j,
        {
            j += 1;
        }
        Ok((Some(word_to_token(v, i, j)), j))
    } else if '0' <= c && c <= '9' {
        let ghost p = |x: char| is_digit(x);
        let mut j: usize = i + 1;
        while j < v.len() && '0' <= v[j] && v[j] <= '9'
            invariant
                i < j <= v.len(),
                p == (|x: char| is_digit(x)),
                scan_while(v@, p, j as int) == scan_while(v@, p, i + 1),
            decreases v.len() - j,
        {
            j += 1;
        }
        let digits = subvec(v, i, j);
        match parse_i64(&digits) {
            Some(n) => Ok((Some(Token::Int(n)), j)),
            None => Err(ParseError::InvalidNumber),
        }
    } else {
        Err(ParseError::UnexpectedCharacter)
    }
}

/// Splits a predicate into tokens, given which of its characters are
/// letters and which are letters or digits, position by position.
pub fn tokenize_by(input: &Vec<char>, letters: &Vec<bool>, alnums: &Vec<bool>) -> (r: Result<
    Vec<Token>,
    ParseError,
>)
    ensures
        match r {
            Ok(ts) => tokens_by(input@, letters@, alnums@) == Ok::<_, ParseError>(
                tokens_view(ts@),
            ),
            Err(e) => tokens_by(input@, letters@, alnums@) == Err::<Seq<TokenView>, _>(e),
        },
{
    let mut tokens: Vec<Token> = Vec::new();
    let mut i: usize = 0;
    assert(tokens_view(tokens@) =~= Seq::empty());
    while i < input.len()
        invariant
            i <= input.len(),
            tokens_by(input@, letters@, alnums@) == tokenize_from(
                input@,
                letters@,
                alnums@,
                i as int,
                tokens_view(tokens@),
            ),
        decreases input.len() - i,
    {
        match scan_token(input, letters, alnums, i) {
            Err(e) => {
                return Err(e);
            },
            Ok((t, j)) => {
                match t {
                    Some(t) => {
                        let ghost before = tokens_view(tokens@);
                        tokens.push(t);
                        assert(tokens_view(tokens@) =~= before.push(t@));
                    },
                    None => {},
                }
                i = j;
            },
        }
    }
    Ok(tokens)
}

/// Splits a predicate into tokens. Letters and digits are those of Unicode.
pub fn tokenize(input: &Vec<char>) -> (r: Result<Vec<Token>, ParseError>)
    ensures
        match r {
            Ok(ts) => spec_tokenize(input@) == Ok::<_, ParseError>(tokens_view(ts@)),
            Err(e) => spec_tokenize(input@) == Err::<Seq<TokenView>, _>(e),
        },
{
    let mut letters: Vec<bool> = Vec::new();
    let mut alnums: Vec<bool> = Vec::new();
    let mut i: usize = 0;
    while i < input.len()
        invariant
            i <= input.len(),
            letters@.len() == i,
            alnums@.len() == i,
            forall|k: int| 0 <= k < i ==> letters@[k] == unicode_alphabetic(input@[k]),
            forall|k: int| 0 <= k < i ==> alnums@[k] == unicode_alphanumeric(input@[k]),
        decreases input.len() - i,
    {
        letters.push(input[i].is_alphabetic());
        alnums.push(input[i].is_alphanumeric());
        i += 1;
    }
    assert(letters@ =~= letters_of(input@));
    assert(alnums@ =~= alnums_of(input@));
    tokenize_by(input, &letters, &alnums)
}

/// Whether a token is a comparison or a logical operator.
pub open spec fn spec_is_operator(t: TokenView) -> bool {
    t is Or || t is And || t is Not || t is Eq || t is Neq || t is Gt || t is Lt || t is Gte
        || t is Lte
}

/// Whether an operator groups from the right; only NOT does.
pub open spec fn spec_is_right_associative(t: TokenView) -> bool {
    t is Not
}

/// How strongly an operator binds: OR 1, AND 2, NOT 3, comparisons 4, and 0
/// for what is no operator.
pub open spec fn spec_precedence(t: TokenView) -> int {
    match t {
        TokenView::Or => 1,
        TokenView::And => 2,
        TokenView::Not => 3,
        TokenView::Eq | TokenView::Neq | TokenView::Gt | TokenView::Lt | TokenView::Gte
        | TokenView::Lte => 4,
        _ => 0,
    }
}

/// Executable form of [`spec_is_operator`].
pub fn is_operator(t: &Token) -> (b: bool)
    ensures
        b == spec_is_operator(t@),
{
    match t {
        Token::Or
        | Token::And
        | Token::Not
        | Token::Eq
        | Token::Neq
        | Token::Gt
        | Token::Lt
        | Token::Gte
        | Token::Lte => true,
        _ => false,
    }
}

/// Executable form of [`spec_is_right_associative`].
pub fn is_right_associative(t: &Token) -> (b: bool)
    ensures
        b == spec_is_right_associative(t@),
{
    match t {
        Token::Not => true,
        _ => false,
    }
}

/// Executable form of [`spec_precedence`].
pub fn precedence(token: &Token) -> (p: u8)
    ensures
        p == spec_precedence(token@),
{
    match token {
        Token::Or => 1,
        Token::And => 2,
        Token::Not => 3,
        Token::Eq | Token::Neq | Token::Gt | Token::Lt | Token::Gte | Token::Lte => 4,
        _ => 0,
    }
}

/// Whether the operator `top` on the stack leaves for the output before `op` is pushed.
pub open spec fn yields_to(top: TokenView, op: TokenView) -> bool {
    spec_is_operator(top) && (spec_precedence(top) > spec_precedence(op) || (spec_precedence(top)
        == spec_precedence(op) && !spec_is_right_associative(op)))
}

/// Stack and output after every operator on top of the stack that yields to
/// `op` has moved to the output.
pub open spec fn pop_yielding(stack: Seq<TokenView>, out: Seq<TokenView>, op: TokenView) -> (
    Seq<TokenView>,
    Seq<TokenView>,
)
    decreases stack.len(),
{
    if stack.len() > 0 && yields_to(stack.last(), op) {
        pop_yielding(stack.drop_last(), out.push(stack.last()), op)
    } else {
        (stack, out)
    }
}

/// Stack and output after the stack has been popped to the output down to and
/// without the nearest opening parenthesis; `None` if there is none.
pub open spec fn pop_to_paren(stack: Seq<TokenView>, out: Seq<TokenView>) -> Option<
    (Seq<TokenView>, Seq<TokenView>),
>
    decreases stack.len(),
{
    if stack.len() == 0 {
        None
    } else if stack.last() is LParen {
        Some((stack.drop_last(), out))
    } else {
        pop_to_paren(stack.drop_last(), out.push(stack.last()))
    }
}

/// The output after the rest of the stack has moved to it; a parenthesis left
/// on the stack is an error.
pub open spec fn drain_stack(stack: Seq<TokenView>, out: Seq<TokenView>) -> Result<
    Seq<TokenView>,
    ParseError,
>
    decreases stack.len(),
{
    if stack.len() == 0 {
        Ok(out)
    } else if stack.last() is LParen || stack.last() is RParen {
        Err(ParseError::MismatchedParentheses)
    } else {
        drain_stack(stack.drop_last(), out.push(stack.last()))
    }
}

/// The postfix form of `tokens[i..]`, given the operator stack and the output so far.
pub open spec fn yard_from(
    tokens: Seq<TokenView>,
    i: int,
    stack: Seq<TokenView>,
    out: Seq<TokenView>,
) -> Result<Seq<TokenView>, ParseError>
    decreases tokens.len() - i,
{
    if i < 0 || i >= tokens.len() {
        drain_stack(stack, out)
    } else {
        let t = tokens[i];
        if t is LParen {
            yard_from(tokens, i + 1, stack.push(t), out)
        } else if t is RParen {
            match pop_to_paren(stack, out) {
                None => Err(ParseError::MismatchedParentheses),
                Some((stack2, out2)) => yard_from(tokens, i + 1, stack2, out2),
            }
        } else if spec_is_operator(t) {
            let (stack2, out2) = pop_yielding(stack, out, t);
            yard_from(tokens, i + 1, stack2.push(t), out2)
        } else {
            yard_from(tokens, i + 1, stack, out.push(t))
        }
    }
}

/// The postfix form of an infix token list, by the shunting-yard algorithm.
pub open spec fn spec_shunting_yard(tokens: Seq<TokenView>) -> Result<Seq<TokenView>, ParseError> {
    yard_from(tokens, 0, Seq::empty(), Seq::empty())
}

impl Token {
    /// A deep copy with the same content.
    pub fn copy(&self) -> (t: Token)
        ensures
            t@ == self@,
    {
        match self {
            Token::Ident(s) => Token::Ident(s.clone()),
            Token::Int(i) => Token::Int(*i),
            Token::Str(s) => Token::Str(s.clone()),
            Token::Bool(b) => Token::Bool(*b),
            Token::Eq => Token::Eq,
            Token::Neq => Token::Neq,
            Token::Gt => Token::Gt,
            Token::Lt => Token::Lt,
            Token::Gte => Token::Gte,
            Token::Lte => Token::Lte,
            Token::And => Token::And,
            Token::Or => Token::Or,
            Token::Not => Token::Not,
            Token::LParen => Token::LParen,
            Token::RParen => Token::RParen,
        }
    }
}

proof fn lemma_tokens_push(ts: Seq<Token>, t: Token)
    ensures
        tokens_view(ts.push(t)) == tokens_view(ts).push(t@),
{
    assert(tokens_view(ts.push(t)) =~= tokens_view(ts).push(t@));
}

proof fn lemma_tokens_drop_last(ts: Seq<Token>)
    requires
        ts.len() > 0,
    ensures
        tokens_view(ts.drop_last()) == tokens_view(ts).drop_last(),
        tokens_view(ts).last() == ts.last()@,
{
    assert(tokens_view(ts.drop_last()) =~= tokens_view(ts).drop_last());
}

/// Converts an infix token list into postfix form.
pub fn shunting_yard(tokens: Vec<Token>) -> (r: Result<Vec<Token>, ParseError>)
    ensures
        match r {
            Ok(out) => spec_shunting_yard(tokens_view(tokens@)) == Ok::<_, ParseError>(
                tokens_view(out@),
            ),
            Err(e) => spec_shunting_yard(tokens_view(tokens@)) == Err::<Seq<TokenView>, _>(e),
        },
{
    let mut out: Vec<Token> = Vec::new();
    let mut stack: Vec<Token> = Vec::new();
    assert(tokens_view(out@) =~= Seq::empty());
    assert(tokens_view(stack@) =~= Seq::empty());
    let mut i: usize = 0;
    while i < tokens.len()
        invariant
            i <= tokens.len(),
            spec_shunting_yard(tokens_view(tokens@)) == yard_from(
                tokens_view(tokens@),
                i as int,
                tokens_view(stack@),
                tokens_view(out@),
            ),
        decreases tokens.len() - i,
    {
        let token = tokens[i].copy();
        assert(tokens_view(tokens@)[i as int] == token@);
        match token {
            Token::LParen => {
                proof {
                    lemma_tokens_push(stack@, Token::LParen);
                }
                stack.push(Token::LParen);
            },
            Token::RParen => {
                let mut found = false;
                let ghost stack0 = tokens_view(stack@);
                let ghost out0 = tokens_view(out@);
                while !found && stack.len() > 0
                    invariant
                        pop_to_paren(stack0, out0) == if found {
                            Some((tokens_view(stack@), tokens_view(out@)))
                        } else {
                            pop_to_paren(tokens_view(stack@), tokens_view(out@))
                        },
                    decreases stack.len() + if found { 0int } else { 1int },
                {
                    proof {
                        lemma_tokens_drop_last(stack@);
                    }
                    let top = stack.pop().unwrap();
                    match top {
                        Token::LParen => {
                            found = true;
                        },
                        other => {
                            proof {
                                lemma_tokens_push(out@, other);
                            }
                            out.push(other);
                        },
                    }
                }
                if !found {
                    return Err(ParseError::MismatchedParentheses);
                }
            },
            op => {
                if is_operator(&op) {
                    let ghost stack0 = tokens_view(stack@);
                    let ghost out0 = tokens_view(out@);
                    while stack.len() > 0 && is_operator(&stack[stack.len() - 1]) && (precedence(
                        &stack[stack.len() - 1],
                    ) > precedence(&op) || (precedence(&stack[stack.len() - 1]) == precedence(&op)
                        && !is_right_associative(&op)))
                        invariant
                            pop_yielding(stack0, out0, op@) == pop_yielding(
                                tokens_view(stack@),
                                tokens_view(out@),
                                op@,
                            ),
                        decreases stack.len(),
                    {
                        proof {
                            lemma_tokens_drop_last(stack@);
                        }
                        let top = stack.pop().unwrap();
                        proof {
                            lemma_tokens_push(out@, top);
                        }
                        out.push(top);
                    }
                    proof {
                        if stack.len() > 0 {
                            lemma_tokens_drop_last(stack@);
                        }
                        lemma_tokens_push(stack@, op);
                    }
                    stack.push(op);
                } else {
                    proof {
                        lemma_tokens_push(out@, op);
                    }
                    out.push(op);
                }
            },
        }
        i += 1;
    }
    while stack.len() > 0
        invariant
            spec_shunting_yard(tokens_view(tokens@)) == drain_stack(
                tokens_view(stack@),
                tokens_view(out@),
            ),
        decreases stack.len(),
    {
        proof {
            lemma_tokens_drop_last(stack@);
        }
        let op = stack.pop().unwrap();
        match op {
            Token::LParen | Token::RParen => {
                return Err(ParseError::MismatchedParentheses);
            },
            other => {
                proof {
                    lemma_tokens_push(out@, other);
                }
                out.push(other);
            },
        }
    }
    Ok(out)
}

/// The comparison operator that a token stands for, if it is one.
pub open spec fn comparison_of(t: TokenView) -> Option<CmpOp> {
    match t {
        TokenView::Eq => Some(CmpOp::Eq),
        TokenView::Neq => Some(CmpOp::Ne),
        TokenView::Gt => Some(CmpOp::Gt),
        TokenView::Lt => Some(CmpOp::Lt),
        TokenView::Gte => Some(CmpOp::Gte),
        TokenView::Lte => Some(CmpOp::Lte),
        _ => None,
    }
}

/// The operand that a node stands for: a column or a literal, not a predicate.
pub open spec fn operand_of(n: NodeView) -> Option<OperandView> {
    match n {
        NodeView::Col(c) => Some(OperandView::Column(c)),
        NodeView::Val(v) => Some(OperandView::Literal(v)),
        NodeView::Cond(_) => None,
    }
}

/// The node stack after one token of the postfix form has been folded in.
pub open spec fn rpn_step(stack: Seq<NodeView>, t: TokenView) -> Result<Seq<NodeView>, ParseError> {
    let n = stack.len() as int;
    match t {
        TokenView::Ident(name) => Ok(stack.push(NodeView::Col(name))),
        TokenView::Str(v) => Ok(stack.push(NodeView::Val(ValueView::Text(v)))),
        TokenView::Int(v) => Ok(stack.push(NodeView::Val(ValueView::Int(v)))),
        TokenView::Bool(v) => Ok(stack.push(NodeView::Val(ValueView::Bool(v)))),
        TokenView::Eq | TokenView::Neq | TokenView::Gt | TokenView::Lt | TokenView::Gte
        | TokenView::Lte => {
            if n < 2 {
                Err(ParseError::MissingOperand)
            } else {
                match (operand_of(stack[n - 2]), operand_of(stack[n - 1])) {
                    (Some(l), Some(r)) => Ok(
                        stack.take(n - 2).push(
                            NodeView::Cond(ConditionView::Cmp(comparison_of(t).unwrap(), l, r)),
                        ),
                    ),
                    _ => Err(ParseError::ExpectedOperand),
                }
            }
        },
        TokenView::And | TokenView::Or => {
            if n < 2 {
                Err(ParseError::MissingOperand)
            } else {
                match (stack[n - 2], stack[n - 1]) {
                    (NodeView::Cond(a), NodeView::Cond(b)) => Ok(
                        stack.take(n - 2).push(
                            NodeView::Cond(
                                if t is And {
                                    ConditionView::And(Box::new(a), Box::new(b))
                                } else {
                                    ConditionView::Or(Box::new(a), Box::new(b))
                                },
                            ),
                        ),
                    ),
                    _ => Err(ParseError::ExpectedCondition),
                }
            }
        },
        TokenView::Not => {
            if n < 1 {
                Err(ParseError::MissingOperand)
            } else {
                match stack[n - 1] {
                    NodeView::Cond(c) => Ok(
                        stack.take(n - 1).push(NodeView::Cond(ConditionView::Not(Box::new(c)))),
                    ),
                    _ => Err(ParseError::ExpectedCondition),
                }
            }
        },
        TokenView::LParen | TokenView::RParen => Err(ParseError::MismatchedParentheses),
    }
}

/// The predicate that is left when the postfix form has been folded: the one
/// node on the stack, which must be a predicate.
pub open spec fn rpn_finish(stack: Seq<NodeView>) -> Result<ConditionView, ParseError> {
    if stack.len() == 0 {
        Err(ParseError::EmptyCondition)
    } else if stack.len() == 1 {
        match stack[0] {
            NodeView::Cond(c) => Ok(c),
            _ => Err(ParseError::LeftoverOperand),
        }
    } else {
        Err(ParseError::LeftoverOperand)
    }
}

/// The predicate that `rpn[i..]` folds to, given the node stack so far.
pub open spec fn rpn_from(rpn: Seq<TokenView>, i: int, stack: Seq<NodeView>) -> Result<
    ConditionView,
    ParseError,
>
    decreases rpn.len() - i,
{
    if i < 0 || i >= rpn.len() {
        rpn_finish(stack)
    } else {
        match rpn_step(stack, rpn[i]) {
            Err(e) => Err(e),
            Ok(next) => rpn_from(rpn, i + 1, next),
        }
    }
}

/// The predicate that a token list in postfix form stands for.
pub open spec fn spec_rpn_to_condition(rpn: Seq<TokenView>) -> Result<ConditionView, ParseError> {
    rpn_from(rpn, 0, Seq::empty())
}

/// View of the result of parsing a predicate.
pub open spec fn condition_result_view(r: Result<Condition, ParseError>) -> Result<
    ConditionView,
    ParseError,
> {
    match r {
        Ok(c) => Ok(c@),
        Err(e) => Err(e),
    }
}

proof fn lemma_nodes_push(ns: Seq<Node>, n: Node)
    ensures
        nodes_view(ns.push(n)) == nodes_view(ns).push(n@),
{
    assert(nodes_view(ns.push(n)) =~= nodes_view(ns).push(n@));
}

proof fn lemma_nodes_drop_last(ns: Seq<Node>)
    requires
        ns.len() > 0,
    ensures
        nodes_view(ns.drop_last()) == nodes_view(ns).take(ns.len() - 1),
        nodes_view(ns)[ns.len() - 1] == ns.last()@,
{
    assert(nodes_view(ns.drop_last()) =~= nodes_view(ns).take(ns.len() - 1));
}

fn node_operand(n: Node) -> (r: Option<Operand>)
    ensures
        match r {
            Some(o) => operand_of(n@) == Some(o@),
            None => operand_of(n@).is_none(),
        },
{
    match n {
        Node::Col(c) => Some(Operand::Column(c)),
        Node::Val(v) => Some(Operand::Literal(v)),
        Node::Cond(_) => None,
    }
}

fn fold_token(stack: &mut Vec<Node>, token: Token) -> (r: Result<(), ParseError>)
    ensures
        match r {
            Ok(()) => rpn_step(nodes_view(old(stack)@), token@) == Ok::<_, ParseError>(
                nodes_view(final(stack)@),
            ),
            Err(e) => rpn_step(nodes_view(old(stack)@), token@) == Err::<Seq<NodeView>, _>(e),
        },
{
    let ghost before = nodes_view(stack@);
    match token {
        Token::Ident(name) => {
            proof {
                lemma_nodes_push(stack@, Node::Col(name));
            }
            stack.push(Node::Col(name));
            Ok(())
        },
        Token::Str(v) => {
            proof {
                lemma_nodes_push(stack@, Node::Val(Value::Text(v)));
            }
            stack.push(Node::Val(Value::Text(v)));
            Ok(())
        },
        Token::Int(v) => {
            proof {
                lemma_nodes_push(stack@, Node::Val(Value::Int(v)));
            }
            stack.push(Node::Val(Value::Int(v)));
            Ok(())
        },
        Token::Bool(v) => {
            proof {
                lemma_nodes_push(stack@, Node::Val(Value::Bool(v)));
            }
            stack.push(Node::Val(Value::Bool(v)));
            Ok(())
        },
        Token::Eq | Token::Neq | Token::Gt | Token::Lt | Token::Gte | Token::Lte => {
            if stack.len() < 2 {
                return Err(ParseError::MissingOperand);
            }
            let op = match token {
                Token::Eq => CmpOp::Eq,
                Token::Neq => CmpOp::Ne,
                Token::Gt => CmpOp::Gt,
                Token::Lt => CmpOp::Lt,
                Token::Gte => CmpOp::Gte,
                _ => CmpOp::Lte,
            };
            proof {
                lemma_nodes_drop_last(stack@);
                lemma_nodes_drop_last(stack@.drop_last());
            }
            let rhs = stack.pop().unwrap();
            let lhs = stack.pop().unwrap();
            assert(nodes_view(stack@) =~= before.take(before.len() - 2));
            match (node_operand(lhs), node_operand(rhs)) {
                (Some(l), Some(r)) => {
                    proof {
                        lemma_nodes_push(stack@, Node::Cond(Condition::Cmp(op, l, r)));
                    }
                    stack.push(Node::Cond(Condition::Cmp(op, l, r)));
                    Ok(())
                },
                _ => Err(ParseError::ExpectedOperand),
            }
        },
        Token::And | Token::Or => {
            if stack.len() < 2 {
                return Err(ParseError::MissingOperand);
            }
            let is_and = match token {
                Token::And => true,
                _ => false,
            };
            proof {
                lemma_nodes_drop_last(stack@);
                lemma_nodes_drop_last(stack@.drop_last());
            }
            let rhs = stack.pop().unwrap();
            let lhs = stack.pop().unwrap();
            assert(nodes_view(stack@) =~= before.take(before.len() - 2));
            match (lhs, rhs) {
                (Node::Cond(a), Node::Cond(b)) => {
                    let c = if is_and {
                        Condition::And(Box::new(a), Box::new(b))
                    } else {
                        Condition::Or(Box::new(a), Box::new(b))
                    };
                    proof {
                        lemma_nodes_push(stack@, Node::Cond(c));
                    }
                    stack.push(Node::Cond(c));
                    Ok(())
                },
                _ => Err(ParseError::ExpectedCondition),
            }
        },
        Token::Not => {
            if stack.len() < 1 {
                return Err(ParseError::MissingOperand);
            }
            proof {
                lemma_nodes_drop_last(stack@);
            }
            let x = stack.pop().unwrap();
            match x {
                Node::Cond(c) => {
                    proof {
                        lemma_nodes_push(stack@, Node::Cond(Condition::Not(Box::new(c))));
                    }
                    stack.push(Node::Cond(Condition::Not(Box::new(c))));
                    Ok(())
                },
                _ => Err(ParseError::ExpectedCondition),
            }
        },
        Token::LParen | Token::RParen => Err(ParseError::MismatchedParentheses),
    }
}

/// Folds a token list in postfix form into a predicate.
pub fn rpn_to_condition(rpn: Vec<Token>) -> (r: Result<Condition, ParseError>)
    ensures
        condition_result_view(r) == spec_rpn_to_condition(tokens_view(rpn@)),
{
    let mut stack: Vec<Node> = Vec::new();
    assert(nodes_view(stack@) =~= Seq::empty());
    let mut i: usize = 0;
    while i < rpn.len()
        invariant
            i <= rpn.len(),
            spec_rpn_to_condition(tokens_view(rpn@)) == rpn_from(
                tokens_view(rpn@),
                i as int,
                nodes_view(stack@),
            ),
        decreases rpn.len() - i,
    {
        let token = rpn[i].copy();
        assert(tokens_view(rpn@)[i as int] == token@);
        match fold_token(&mut stack, token) {
            Err(e) => {
                return Err(e);
            },
            Ok(()) => {},
        }
        i += 1;
    }
    if stack.len() == 0 {
        return Err(ParseError::EmptyCondition);
    }
    if stack.len() > 1 {
        return Err(ParseError::LeftoverOperand);
    }
    proof {
        lemma_nodes_drop_last(stack@);
    }
    match stack.pop().unwrap() {
        Node::Cond(root) => Ok(root),
        _ => Err(ParseError::LeftoverOperand),
    }
}

/// The predicate that a text stands for: its tokens, brought into postfix
/// form by operator precedence, then folded into a tree.
pub open spec fn spec_parse_where(s: Seq<char>) -> Result<ConditionView, ParseError> {
    match spec_tokenize(s) {
        Err(e) => Err(e),
        Ok(tokens) => match spec_shunting_yard(tokens) {
            Err(e) => Err(e),
            Ok(rpn) => spec_rpn_to_condition(rpn),
        },
    }
}

/// Parses the characters of a predicate.
pub fn parse_where_chars(input: &Vec<char>) -> (r: Result<Condition, ParseError>)
    ensures
        condition_result_view(r) == spec_parse_where(input@),
{
    let tokens = match tokenize(input) {
        Ok(t) => t,
        Err(e) => {
            return Err(e);
        },
    };
    let rpn = match shunting_yard(tokens) {
        Ok(r) => r,
        Err(e) => {
            return Err(e);
        },
    };
    rpn_to_condition(rpn)
}

/// Parses a predicate, such as the text after WHERE.
pub fn parse_where(where_input: &str) -> (r: Result<Condition, ParseError>)
    ensures
        condition_result_view(r) == spec_parse_where(where_input@),
{
    let chars = chars_of(where_input);
    parse_where_chars(&chars)
}

} // verus!

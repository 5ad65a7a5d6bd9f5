use vstd::prelude::*;

use super::types::{BF5DParseError, JumpType, MoveDirection, Token, UpdateType};
use super::utils::FoldWhile;

verus! {

broadcast use vstd::string::group_string_axioms;

// ---------------------------------------------------------------------------
// The grammar, stated over the characters of the program text.
// ---------------------------------------------------------------------------

/// The instruction that a character stands for, if any. Jumps and spawns
/// carry index 0 until the matching pass fills it in.
pub open spec fn token_of(c: char) -> Option<Token> {
    if c == '<' {
        Some(Token::Move(MoveDirection::Left))
    } else if c == '>' {
        Some(Token::Move(MoveDirection::Right))
    } else if c == '^' {
        Some(Token::Move(MoveDirection::Up))
    } else if c == 'v' {
        Some(Token::Move(MoveDirection::Down))
    } else if c == '+' {
        Some(Token::Update(UpdateType::Increment))
    } else if c == '-' {
        Some(Token::Update(UpdateType::Decrement))
    } else if c == '[' {
        Some(Token::Jump { type_: JumpType::IfZero, index: 0 })
    } else if c == ']' {
        Some(Token::Jump { type_: JumpType::IfNotZero, index: 0 })
    } else if c == '.' {
        Some(Token::Write)
    } else if c == ',' {
        Some(Token::Read)
    } else if c == '~' {
        Some(Token::Rewind)
    } else if c == '(' {
        Some(Token::Spawn { index: 0 })
    } else if c == ')' {
        Some(Token::Kill)
    } else if c == '@' {
        Some(Token::Await)
    } else {
        None
    }
}

/// The first position `k >= from` at which `*/` starts, or -1 if there is none.
pub open spec fn find_comment_close(s: Seq<char>, from: int) -> int
    decreases s.len() - from,
{
    if from < 0 || from + 1 >= s.len() {
        -1
    } else if s[from] == '*' && s[from + 1] == '/' {
        from
    } else {
        find_comment_close(s, from + 1)
    }
}

/// The first position `k >= from` that holds a line break (`\n` or `\r`),
/// or the end of `s`.
pub open spec fn line_end(s: Seq<char>, from: int) -> int
    decreases s.len() - from,
{
    if from >= s.len() || s[from] == '\n' || s[from] == '\r' {
        from
    } else {
        line_end(s, from + 1)
    }
}

/// Where a C-style comment that starts at `pos` ends: a block comment
/// `/* ... */` runs to just past the first `*/` after its opening, a line
/// comment `//` runs up to the next line break or the end of the text and
/// must hold at least one character after the `//`.
pub open spec fn comment_end(s: Seq<char>, pos: int) -> Option<int> {
    if 0 <= pos && pos + 1 < s.len() && s[pos] == '/' && s[pos + 1] == '*' {
        let k = find_comment_close(s, pos + 2);
        if k >= 0 {
            Some(k + 2)
        } else {
            None
        }
    } else if 0 <= pos && pos + 1 < s.len() && s[pos] == '/' && s[pos + 1] == '/' {
        let e = line_end(s, pos + 2);
        if e > pos + 2 {
            Some(e)
        } else {
            None
        }
    } else {
        None
    }
}

proof fn lemma_find_comment_close(s: Seq<char>, from: int)
    requires
        0 <= from,
    ensures
        find_comment_close(s, from) == -1 || (from <= find_comment_close(s, from)
            && find_comment_close(s, from) + 1 < s.len()),
    decreases s.len() - from,
{
    if from + 1 < s.len() && !(s[from] == '*' && s[from + 1] == '/') {
        lemma_find_comment_close(s, from + 1);
    }
}

proof fn lemma_line_end(s: Seq<char>, from: int)
    requires
        0 <= from <= s.len(),
    ensures
        from <= line_end(s, from) <= s.len(),
    decreases s.len() - from,
{
    if from < s.len() && !(s[from] == '\n' || s[from] == '\r') {
        lemma_line_end(s, from + 1);
    }
}

/// A comment always moves the reader forward and stays within the text.
pub proof fn lemma_comment_end(s: Seq<char>, pos: int)
    ensures
        comment_end(s, pos) matches Some(e) ==> pos < e <= s.len(),
{
    if 0 <= pos && pos + 1 < s.len() && s[pos] == '/' && s[pos + 1] == '*' {
        lemma_find_comment_close(s, pos + 2);
    } else if 0 <= pos && pos + 1 < s.len() && s[pos] == '/' && s[pos + 1] == '/' {
        lemma_line_end(s, pos + 2);
    }
}

/// The instructions of the text from `pos` on, in order: a character that
/// stands for an instruction gives it; a comment is skipped whole; any
/// other character is skipped.
pub open spec fn lex_from(s: Seq<char>, pos: int) -> Seq<Token>
    decreases s.len() - pos,
{
    if pos < 0 || pos >= s.len() {
        seq![]
    } else {
        match token_of(s[pos]) {
            Some(t) => seq![t] + lex_from(s, pos + 1),
            None => match comment_end(s, pos) {
                Some(e) => {
                    proof {
                        lemma_comment_end(s, pos);
                    }
                    lex_from(s, e)
                },
                None => lex_from(s, pos + 1),
            },
        }
    }
}

/// The instructions of a whole program text.
pub open spec fn lex(s: Seq<char>) -> Seq<Token> {
    lex_from(s, 0)
}

// ---------------------------------------------------------------------------
// Matching brackets and parentheses.
// ---------------------------------------------------------------------------

/// The state of the matching pass: the instructions so far, and the
/// positions of the `[` and `(` that are still open, innermost last.
pub struct ParseState {
    pub tokens: Seq<Token>,
    pub brackets: Seq<usize>,
    pub parens: Seq<usize>,
}

pub open spec fn empty_parse_state() -> ParseState {
    ParseState { tokens: seq![], brackets: seq![], parens: seq![] }
}

/// Every open position names an instruction already read.
pub open spec fn stacks_in_range(st: ParseState) -> bool {
    &&& forall|j: int| 0 <= j < st.brackets.len() ==> st.brackets[j] < st.tokens.len()
    &&& forall|j: int| 0 <= j < st.parens.len() ==> st.parens[j] < st.tokens.len()
}

/// One step of the matching pass. A `]` closes the innermost open `[`: the
/// two point at each other. A `)` closes the innermost open `(`, which then
/// points at it. A closer with nothing open stops the pass with the
/// message and the closer's position.
pub open spec fn fold_step(st: ParseState, t: Token) -> FoldWhile<ParseState, (Seq<char>, usize)> {
    let i = st.tokens.len() as usize;
    match t {
        Token::Jump { type_: JumpType::IfZero, index: _ } => FoldWhile::Continue(
            ParseState { tokens: st.tokens.push(t), brackets: st.brackets.push(i), parens: st.parens },
        ),
        Token::Spawn { index: _ } => FoldWhile::Continue(
            ParseState { tokens: st.tokens.push(t), brackets: st.brackets, parens: st.parens.push(i) },
        ),
        Token::Jump { type_: JumpType::IfNotZero, index: _ } => {
            if st.brackets.len() > 0 {
                let last = st.brackets.last();
                FoldWhile::Continue(
                    ParseState {
                        tokens: st.tokens.push(
                            Token::Jump { type_: JumpType::IfNotZero, index: last },
                        ).update(last as int, Token::Jump { type_: JumpType::IfZero, index: i }),
                        brackets: st.brackets.drop_last(),
                        parens: st.parens,
                    },
                )
            } else {
                FoldWhile::Throw(("unmatched bracket"@, i))
            }
        },
        Token::Kill => {
            if st.parens.len() > 0 {
                let last = st.parens.last();
                FoldWhile::Continue(
                    ParseState {
                        tokens: st.tokens.push(t).update(last as int, Token::Spawn { index: i }),
                        brackets: st.brackets,
                        parens: st.parens.drop_last(),
                    },
                )
            } else {
                FoldWhile::Throw(("unmatched parentheses"@, i))
            }
        },
        _ => FoldWhile::Continue(
            ParseState { tokens: st.tokens.push(t), brackets: st.brackets, parens: st.parens },
        ),
    }
}

/// The matching pass over a sequence of instructions.
pub open spec fn fold_tokens(raw: Seq<Token>) -> FoldWhile<ParseState, (Seq<char>, usize)>
    decreases raw.len(),
{
    if raw.len() == 0 {
        FoldWhile::Continue(empty_parse_state())
    } else {
        match fold_tokens(raw.drop_last()) {
            FoldWhile::Continue(st) => fold_step(st, raw.last()),
            other => other,
        }
    }
}

/// What parsing a program text gives: `None` where the parser stops with
/// a panic (a closer with nothing open, or a `[` left open while no `(` is),
/// an error for a `(` left open (at the innermost one), and the matched
/// instructions otherwise.
pub open spec fn parse_outcome(s: Seq<char>) -> Option<Result<Seq<Token>, (Seq<char>, usize)>> {
    match fold_tokens(lex(s)) {
        FoldWhile::Continue(st) => {
            if st.parens.len() > 0 {
                Some(Err(("unmatched parentheses"@, st.parens.last())))
            } else if st.brackets.len() > 0 {
                None
            } else {
                Some(Ok(st.tokens))
            }
        },
        _ => None,
    }
}

/// A token as the lexer gives it: jumps and spawns still carry index 0.
pub open spec fn unlinked(t: Token) -> bool {
    match t {
        Token::Jump { type_: _, index } => index == 0,
        Token::Spawn { index } => index == 0,
        _ => true,
    }
}

/// What the matching pass has established of the instruction at `k`: an
/// open `[` or `(` is on its stack; a closed `[` and its `]` point at each
/// other; a closed `(` points at a later `)`; each `)` is pointed at by an
/// earlier `(`.
pub open spec fn token_linked(st: ParseState, k: int) -> bool {
    let n = st.tokens.len();
    match st.tokens[k] {
        Token::Jump { type_: JumpType::IfZero, index: j } => st.brackets.contains(k as usize) || (k
            < j < n && st.tokens[j as int] == Token::Jump {
            type_: JumpType::IfNotZero,
            index: k as usize,
        }),
        Token::Jump { type_: JumpType::IfNotZero, index: j } => j < k && st.tokens[j as int]
            == Token::Jump { type_: JumpType::IfZero, index: k as usize },
        Token::Spawn { index: j } => st.parens.contains(k as usize) || (k < j < n
            && st.tokens[j as int] == Token::Kill),
        Token::Kill => exists|m: int|
            0 <= m < k && #[trigger] st.tokens[m] == Token::Spawn { index: k as usize },
        _ => true,
    }
}

/// The invariant of the matching pass.
pub open spec fn parse_state_wf(st: ParseState) -> bool {
    let n = st.tokens.len();
    &&& forall|j: int|
        0 <= j < st.brackets.len() ==> #[trigger] st.brackets[j] < n && st.tokens[st.brackets[j] as int]
            == Token::Jump { type_: JumpType::IfZero, index: 0 }
    &&& forall|j1: int, j2: int|
        0 <= j1 < j2 < st.brackets.len() ==> #[trigger] st.brackets[j1] < #[trigger] st.brackets[j2]
    &&& forall|j: int|
        0 <= j < st.parens.len() ==> #[trigger] st.parens[j] < n && st.tokens[st.parens[j] as int]
            == Token::Spawn { index: 0 }
    &&& forall|j1: int, j2: int|
        0 <= j1 < j2 < st.parens.len() ==> #[trigger] st.parens[j1] < #[trigger] st.parens[j2]
    &&& forall|k: int| 0 <= k < n ==> #[trigger] token_linked(st, k)
    &&& spawns_distinct(st.tokens)
}

/// No two `(` point at the same `)` (open ones still carry 0).
pub open spec fn spawns_distinct(ts: Seq<Token>) -> bool {
    forall|a: int, b: int|
        0 <= a < b < ts.len() && (#[trigger] ts[a]) is Spawn && (#[trigger] ts[b]) is Spawn
            && ts[a]->Spawn_index == ts[b]->Spawn_index ==> ts[a]->Spawn_index == 0
}

pub proof fn lemma_empty_state_wf()
    ensures
        parse_state_wf(empty_parse_state()),
{
}

/// One step of the matching pass keeps its invariant.
pub proof fn lemma_fold_step_wf(st: ParseState, t: Token)
    requires
        parse_state_wf(st),
        unlinked(t),
        st.tokens.len() < usize::MAX,
    ensures
        match fold_step(st, t) {
            FoldWhile::Continue(next) => parse_state_wf(next) && next.tokens.len() == st.tokens.len()
                + 1,
            FoldWhile::Throw(_) => true,
            FoldWhile::Done(_) => false,
        },
{
    let n = st.tokens.len();
    let i = n as usize;
    match fold_step(st, t) {
        FoldWhile::Continue(next) => {
            assert(next.tokens.len() == n + 1);
            match t {
                Token::Jump { type_: JumpType::IfNotZero, index: _ } => {
                    let last = st.brackets.last();
                    let bl = st.brackets.len() - 1;
                    assert(st.brackets[bl] == last);
                    assert(st.tokens[last as int] == Token::Jump {
                        type_: JumpType::IfZero,
                        index: 0,
                    });
                    assert forall|j: int| 0 <= j < next.brackets.len() implies #[trigger] next.brackets[j]
                        < n + 1 && next.tokens[next.brackets[j] as int] == Token::Jump {
                        type_: JumpType::IfZero,
                        index: 0,
                    } by {
                        assert(st.brackets[j] < st.brackets[bl]);
                    }
                    assert forall|j: int| 0 <= j < next.parens.len() implies #[trigger] next.parens[j]
                        < n + 1 && next.tokens[next.parens[j] as int] == Token::Spawn { index: 0 } by {
                        assert(st.tokens[st.parens[j] as int] == Token::Spawn { index: 0 });
                    }
                    assert forall|k: int| 0 <= k < n + 1 implies #[trigger] token_linked(next, k) by {
                        if k == n {
                        } else if k == last {
                        } else {
                            assert(token_linked(st, k));
                            assert(next.tokens[k] == st.tokens[k]);
                            match st.tokens[k] {
                                Token::Jump { type_: JumpType::IfZero, index: j } => {
                                    if st.brackets.contains(k as usize) {
                                        let w = choose|w: int|
                                            0 <= w < st.brackets.len() && st.brackets[w] == k as usize;
                                        assert(w != bl);
                                        assert(next.brackets[w] == k as usize);
                                    } else {
                                        assert(j != last);
                                    }
                                },
                                Token::Jump { type_: JumpType::IfNotZero, index: j } => {
                                    assert(j != last);
                                },
                                Token::Spawn { index: j } => {},
                                Token::Kill => {
                                    let m = choose|m: int|
                                        0 <= m < k && #[trigger] st.tokens[m] == Token::Spawn {
                                            index: k as usize,
                                        };
                                    assert(m != last);
                                    assert(next.tokens[m] == Token::Spawn { index: k as usize });
                                },
                                _ => {},
                            }
                        }
                    }
                    assert forall|a: int, b: int|
                        0 <= a < b < n + 1 && (#[trigger] next.tokens[a]) is Spawn
                            && (#[trigger] next.tokens[b]) is Spawn && next.tokens[a]->Spawn_index
                            == next.tokens[b]->Spawn_index implies next.tokens[a]->Spawn_index
                        == 0 by {
                        assert(next.tokens[a] == st.tokens[a]);
                        assert(next.tokens[b] == st.tokens[b]);
                    }
                },
                Token::Kill => {
                    let last = st.parens.last();
                    let pl = st.parens.len() - 1;
                    assert(st.parens[pl] == last);
                    assert(st.tokens[last as int] == Token::Spawn { index: 0 });
                    assert forall|j: int| 0 <= j < next.brackets.len() implies #[trigger] next.brackets[j]
                        < n + 1 && next.tokens[next.brackets[j] as int] == Token::Jump {
                        type_: JumpType::IfZero,
                        index: 0,
                    } by {
                        assert(st.tokens[st.brackets[j] as int] == Token::Jump {
                            type_: JumpType::IfZero,
                            index: 0,
                        });
                    }
                    assert forall|j: int| 0 <= j < next.parens.len() implies #[trigger] next.parens[j]
                        < n + 1 && next.tokens[next.parens[j] as int] == Token::Spawn { index: 0 } by {
                        assert(st.parens[j] < st.parens[pl]);
                    }
                    assert forall|k: int| 0 <= k < n + 1 implies #[trigger] token_linked(next, k) by {
                        if k == n {
                            assert(next.tokens[last as int] == Token::Spawn { index: k as usize });
                        } else if k == last {
                        } else {
                            assert(token_linked(st, k));
                            assert(next.tokens[k] == st.tokens[k]);
                            match st.tokens[k] {
                                Token::Jump { type_: JumpType::IfZero, index: j } => {
                                    if !st.brackets.contains(k as usize) {
                                        assert(j != last);
                                    }
                                },
                                Token::Jump { type_: JumpType::IfNotZero, index: j } => {
                                    assert(j != last);
                                },
                                Token::Spawn { index: j } => {
                                    if st.parens.contains(k as usize) {
                                        let w = choose|w: int|
                                            0 <= w < st.parens.len() && st.parens[w] == k as usize;
                                        assert(w != pl);
                                        assert(next.parens[w] == k as usize);
                                    } else {
                                        assert(j != last);
                                    }
                                },
                                Token::Kill => {
                                    let m = choose|m: int|
                                        0 <= m < k && #[trigger] st.tokens[m] == Token::Spawn {
                                            index: k as usize,
                                        };
                                    assert(m != last);
                                    assert(next.tokens[m] == Token::Spawn { index: k as usize });
                                },
                                _ => {},
                            }
                        }
                    }
                    assert forall|a: int, b: int|
                        0 <= a < b < n + 1 && (#[trigger] next.tokens[a]) is Spawn
                            && (#[trigger] next.tokens[b]) is Spawn && next.tokens[a]->Spawn_index
                            == next.tokens[b]->Spawn_index implies next.tokens[a]->Spawn_index
                        == 0 by {
                        if a == last as int || b == last as int {
                            let o = if a == last as int { b } else { a };
                            assert(o != last as int);
                            assert(next.tokens[o] == st.tokens[o]);
                            assert(token_linked(st, o));
                            if st.parens.contains(o as usize) {
                                let w = choose|w: int|
                                    0 <= w < st.parens.len() && st.parens[w] == o as usize;
                                assert(st.tokens[st.parens[w] as int] == Token::Spawn { index: 0 });
                            }
                        } else {
                            assert(next.tokens[a] == st.tokens[a]);
                            assert(next.tokens[b] == st.tokens[b]);
                        }
                    }
                },
                _ => {
                    assert forall|j: int| 0 <= j < next.brackets.len() implies #[trigger] next.brackets[j]
                        < n + 1 && next.tokens[next.brackets[j] as int] == Token::Jump {
                        type_: JumpType::IfZero,
                        index: 0,
                    } by {
                        if j < st.brackets.len() {
                            assert(st.tokens[st.brackets[j] as int] == Token::Jump {
                                type_: JumpType::IfZero,
                                index: 0,
                            });
                        }
                    }
                    assert forall|j: int| 0 <= j < next.parens.len() implies #[trigger] next.parens[j]
                        < n + 1 && next.tokens[next.parens[j] as int] == Token::Spawn { index: 0 } by {
                        if j < st.parens.len() {
                            assert(st.tokens[st.parens[j] as int] == Token::Spawn { index: 0 });
                        }
                    }
                    assert forall|j1: int, j2: int|
                        0 <= j1 < j2 < next.brackets.len() implies #[trigger] next.brackets[j1]
                        < #[trigger] next.brackets[j2] by {
                        if j2 < st.brackets.len() {
                            assert(st.brackets[j1] < st.brackets[j2]);
                        } else {
                            assert(st.brackets[j1] < n);
                        }
                    }
                    assert forall|j1: int, j2: int|
                        0 <= j1 < j2 < next.parens.len() implies #[trigger] next.parens[j1]
                        < #[trigger] next.parens[j2] by {
                        if j2 < st.parens.len() {
                            assert(st.parens[j1] < st.parens[j2]);
                        } else {
                            assert(st.parens[j1] < n);
                        }
                    }
                    assert forall|k: int| 0 <= k < n + 1 implies #[trigger] token_linked(next, k) by {
                        if k < n {
                            assert(token_linked(st, k));
                            assert(next.tokens[k] == st.tokens[k]);
                            match st.tokens[k] {
                                Token::Jump { type_: JumpType::IfZero, index: j } => {
                                    if st.brackets.contains(k as usize) {
                                        let w = choose|w: int|
                                            0 <= w < st.brackets.len() && st.brackets[w] == k as usize;
                                        assert(next.brackets[w] == k as usize);
                                    }
                                },
                                Token::Spawn { index: j } => {
                                    if st.parens.contains(k as usize) {
                                        let w = choose|w: int|
                                            0 <= w < st.parens.len() && st.parens[w] == k as usize;
                                        assert(next.parens[w] == k as usize);
                                    }
                                },
                                Token::Kill => {
                                    let m = choose|m: int|
                                        0 <= m < k && #[trigger] st.tokens[m] == Token::Spawn {
                                            index: k as usize,
                                        };
                                    assert(next.tokens[m] == Token::Spawn { index: k as usize });
                                },
                                _ => {},
                            }
                        } else {
                            match t {
                                Token::Jump { type_: JumpType::IfZero, index: _ } => {
                                    assert(next.brackets[next.brackets.len() - 1] == k as usize);
                                },
                                Token::Spawn { index: _ } => {
                                    assert(next.parens[next.parens.len() - 1] == k as usize);
                                },
                                _ => {},
                            }
                        }
                    }
                    assert forall|a: int, b: int|
                        0 <= a < b < n + 1 && (#[trigger] next.tokens[a]) is Spawn
                            && (#[trigger] next.tokens[b]) is Spawn && next.tokens[a]->Spawn_index
                            == next.tokens[b]->Spawn_index implies next.tokens[a]->Spawn_index
                        == 0 by {
                        if b < n {
                            assert(next.tokens[a] == st.tokens[a]);
                            assert(next.tokens[b] == st.tokens[b]);
                        }
                    }
                },
            }
        },
        _ => {},
    }
}

/// Once the matching pass has thrown, more tokens change nothing.
pub proof fn lemma_fold_tokens_throw_stays(raw: Seq<Token>, more: Seq<Token>)
    requires
        fold_tokens(raw) is Throw,
    ensures
        fold_tokens(raw + more) == fold_tokens(raw),
    decreases more.len(),
{
    if more.len() > 0 {
        lemma_fold_tokens_throw_stays(raw, more.drop_last());
        assert((raw + more).drop_last() =~= raw + more.drop_last());
    } else {
        assert(raw + more =~= raw);
    }
}

/// A token with its link taken out.
pub open spec fn erase_index(t: Token) -> Token {
    match t {
        Token::Jump { type_, index: _ } => Token::Jump { type_, index: 0 },
        Token::Spawn { index: _ } => Token::Spawn { index: 0 },
        _ => t,
    }
}

proof fn lemma_fold_step_erase(st: ParseState, t: Token)
    requires
        parse_state_wf(st),
        unlinked(t),
    ensures
        fold_step(st, t) matches FoldWhile::Continue(next) ==> forall|k: int|
            0 <= k < st.tokens.len() + 1 ==> erase_index(#[trigger] next.tokens[k]) == erase_index(
                st.tokens.push(t)[k],
            ),
{
    match fold_step(st, t) {
        FoldWhile::Continue(next) => {
            match t {
                Token::Jump { type_: JumpType::IfNotZero, index: _ } => {
                    let bl = st.brackets.len() - 1;
                    assert(st.tokens[st.brackets[bl] as int] == Token::Jump {
                        type_: JumpType::IfZero,
                        index: 0,
                    });
                },
                Token::Kill => {
                    let pl = st.parens.len() - 1;
                    assert(st.tokens[st.parens[pl] as int] == Token::Spawn { index: 0 });
                },
                _ => {},
            }
        },
        _ => {},
    }
}

/// The matching pass over tokens as the lexer gives them keeps its
/// invariant, never stops with `Done`, and changes no token but its link.
pub proof fn lemma_fold_tokens(raw: Seq<Token>)
    requires
        forall|k: int| 0 <= k < raw.len() ==> unlinked(#[trigger] raw[k]),
        raw.len() < usize::MAX,
    ensures
        !(fold_tokens(raw) is Done),
        fold_tokens(raw) matches FoldWhile::Continue(st) ==> {
            &&& parse_state_wf(st)
            &&& st.tokens.len() == raw.len()
            &&& forall|k: int| 0 <= k < raw.len() ==> erase_index(#[trigger] st.tokens[k]) == raw[k]
        },
    decreases raw.len(),
{
    if raw.len() > 0 {
        let prev = raw.drop_last();
        assert forall|k: int| 0 <= k < prev.len() implies unlinked(#[trigger] prev[k]) by {
            assert(unlinked(raw[k]));
        }
        lemma_fold_tokens(prev);
        match fold_tokens(prev) {
            FoldWhile::Continue(st) => {
                assert(unlinked(raw[raw.len() - 1]));
                lemma_fold_step_wf(st, raw.last());
                lemma_fold_step_erase(st, raw.last());
                match fold_step(st, raw.last()) {
                    FoldWhile::Continue(next) => {
                        assert forall|k: int| 0 <= k < raw.len() implies erase_index(
                            #[trigger] next.tokens[k],
                        ) == raw[k] by {
                            if k < prev.len() {
                                assert(erase_index(st.tokens[k]) == prev[k]);
                            } else {
                                assert(unlinked(raw[k]));
                            }
                        }
                    },
                    _ => {},
                }
            },
            _ => {},
        }
    } else {
        lemma_empty_state_wf();
    }
}

/// The lexer gives unlinked tokens, no more of them than there are
/// characters.
pub proof fn lemma_lex_from(s: Seq<char>, pos: int)
    requires
        0 <= pos <= s.len(),
    ensures
        lex_from(s, pos).len() <= s.len() - pos,
        forall|k: int| 0 <= k < lex_from(s, pos).len() ==> unlinked(#[trigger] lex_from(s, pos)[k]),
    decreases s.len() - pos,
{
    if pos < s.len() {
        match token_of(s[pos]) {
            Some(t) => {
                lemma_lex_from(s, pos + 1);
                let rest = lex_from(s, pos + 1);
                assert forall|k: int| 0 <= k < lex_from(s, pos).len() implies unlinked(
                    #[trigger] lex_from(s, pos)[k],
                ) by {
                    if k > 0 {
                        assert(lex_from(s, pos)[k] == rest[k - 1]);
                    }
                }
            },
            None => match comment_end(s, pos) {
                Some(e) => {
                    lemma_comment_end(s, pos);
                    lemma_lex_from(s, e);
                },
                None => {
                    lemma_lex_from(s, pos + 1);
                },
            },
        }
    }
}

// ---------------------------------------------------------------------------
// The parser.
// ---------------------------------------------------------------------------

impl Token {
    /// The instruction that `input` stands for, or `Err(())` for any other
    /// character.
    pub fn from(input: char) -> (r: Result<Token, ()>)
        ensures
            match token_of(input) {
                Some(t) => r == Ok::<Token, ()>(t),
                None => r == Err::<Token, ()>(()),
            },
    {
        match input {
            '<' => Ok(Token::Move(MoveDirection::Left)),
            '>' => Ok(Token::Move(MoveDirection::Right)),
            '^' => Ok(Token::Move(MoveDirection::Up)),
            'v' => Ok(Token::Move(MoveDirection::Down)),
            '+' => Ok(Token::Update(UpdateType::Increment)),
            '-' => Ok(Token::Update(UpdateType::Decrement)),
            '[' => Ok(Token::Jump { type_: JumpType::IfZero, index: 0 }),
            ']' => Ok(Token::Jump { type_: JumpType::IfNotZero, index: 0 }),
            '.' => Ok(Token::Write),
            ',' => Ok(Token::Read),
            '~' => Ok(Token::Rewind),
            '(' => Ok(Token::Spawn { index: 0 }),
            ')' => Ok(Token::Kill),
            '@' => Ok(Token::Await),
            _ => Err(()),
        }
    }
}

/// The characters of a string, in order.
fn chars_of(s: &str) -> (r: Vec<char>)
    ensures
        r@ == s@,
{
    let mut v: Vec<char> = Vec::new();
    for c in it: s.chars()
        invariant
            v@ == it.seq().take(it.index() as int),
    {
        v.push(c);
    }
    v
}

/// If a C-style comment starts at `pos` in `input`, the position just past it.
pub fn c_comment(input: &Vec<char>, pos: usize) -> (r: Option<usize>)
    ensures
        match comment_end(input@, pos as int) {
            Some(e) => r == Some(e as usize),
            None => r is None,
        },
{
    let len = input.len();
    if pos < len && len - pos >= 2 && input[pos] == '/' && input[pos + 1] == '*' {
        let mut k = pos + 2;
        while k < len - 1
            invariant
                len == input@.len(),
                len >= 2,
                pos + 2 <= k <= len,
                input@[pos as int] == '/' && input@[pos + 1] == '*',
                find_comment_close(input@, pos + 2) == find_comment_close(input@, k as int),
            decreases len - k,
        {
            if input[k] == '*' && input[k + 1] == '/' {
                assert(find_comment_close(input@, k as int) == k);
                return Some(k + 2);
            }
            k = k + 1;
        }
        None
    } else if pos < len && len - pos >= 2 && input[pos] == '/' && input[pos + 1] == '/' {
        let mut e = pos + 2;
        while e < len && input[e] != '\n' && input[e] != '\r'
            invariant
                len == input@.len(),
                pos + 2 <= e <= len,
                input@[pos as int] == '/' && input@[pos + 1] == '/',
                line_end(input@, pos + 2) == line_end(input@, e as int),
            decreases len - e,
        {
            e = e + 1;
        }
        if e > pos + 2 {
            Some(e)
        } else {
            None
        }
    } else {
        None
    }
}

/// The exec side of [`ParseState`].
struct ParserState {
    tokens: Vec<Token>,
    brackets: Vec<usize>,
    parens: Vec<usize>,
}

impl View for ParserState {
    type V = ParseState;

    closed spec fn view(&self) -> ParseState {
        ParseState { tokens: self.tokens@, brackets: self.brackets@, parens: self.parens@ }
    }
}

/// One step of the matching pass.
fn fold_step_exec(st: ParserState, t: Token) -> (r: FoldWhile<ParserState, BF5DParseError>)
    requires
        st.tokens.len() < usize::MAX,
        stacks_in_range(st@),
    ensures
        match (r, fold_step(st@, t)) {
            (FoldWhile::Continue(a), FoldWhile::Continue(b)) => a@ == b,
            (FoldWhile::Throw(e), FoldWhile::Throw(f)) => e.message_view() == f.0
                && e.location_view() == f.1,
            _ => false,
        },
{
    let ParserState { mut tokens, mut brackets, mut parens } = st;
    let i = tokens.len();
    match t {
        Token::Jump { type_: JumpType::IfZero, index: _ } => {
            brackets.push(i);
            tokens.push(t);
        },
        Token::Spawn { index: _ } => {
            parens.push(i);
            tokens.push(t);
        },
        Token::Jump { type_: JumpType::IfNotZero, index: _ } => {
            if let Some(last) = brackets.pop() {
                tokens.push(Token::Jump { type_: JumpType::IfNotZero, index: last });
                tokens.set(last, Token::Jump { type_: JumpType::IfZero, index: i });
            } else {
                return FoldWhile::Throw(BF5DParseError::new("unmatched bracket", i));
            }
        },
        Token::Kill => {
            if let Some(last) = parens.pop() {
                tokens.push(t);
                tokens.set(last, Token::Spawn { index: i });
            } else {
                return FoldWhile::Throw(BF5DParseError::new("unmatched parentheses", i));
            }
        },
        _ => {
            tokens.push(t);
        },
    }
    FoldWhile::Continue(ParserState { tokens, brackets, parens })
}


fn parse_chars(input: &str) -> (r: Option<Result<Vec<Token>, BF5DParseError>>)
    ensures
        match parse_outcome(input@) {
            None => r is None,
            Some(Ok(ts)) => r matches Some(Ok(v)) && v@ == ts,
            Some(Err(e)) => r matches Some(Err(err)) && err.message_view() == e.0
                && err.location_view() == e.1,
        },
{
    let chars = chars_of(input);
    let len = chars.len();
    let mut st = ParserState { tokens: Vec::new(), brackets: Vec::new(), parens: Vec::new() };
    let mut pos: usize = 0;
    let ghost mut raw: Seq<Token> = seq![];
    proof {
        lemma_empty_state_wf();
        assert(raw + lex_from(chars@, 0) =~= lex(chars@));
    }
    while pos < len
        invariant
            len == chars@.len(),
            chars@ == input@,
            pos <= len,
            raw + lex_from(chars@, pos as int) == lex(chars@),
            fold_tokens(raw) == FoldWhile::<ParseState, (Seq<char>, usize)>::Continue(st@),
            parse_state_wf(st@),
            st@.tokens.len() == raw.len(),
            raw.len() <= pos,
        decreases len - pos,
    {
        match Token::from(chars[pos]) {
            Ok(t) => {
                proof {
                    assert(lex_from(chars@, pos as int) == seq![t] + lex_from(chars@, pos + 1));
                    assert(raw.push(t) + lex_from(chars@, pos + 1) =~= raw + lex_from(
                        chars@,
                        pos as int,
                    ));
                    assert(raw.push(t).drop_last() =~= raw);
                    lemma_fold_step_wf(st@, t);
                    raw = raw.push(t);
                }
                match fold_step_exec(st, t) {
                    FoldWhile::Continue(next) => {
                        st = next;
                    },
                    FoldWhile::Done(next) => {
                        st = next;
                    },
                    FoldWhile::Throw(_) => {
                        // A closer with nothing open: the pass stops with a failure,
                        // which the parser does not turn into an error.
                        proof {
                            lemma_lex_from(chars@, pos + 1);
                            lemma_fold_tokens_throw_stays(raw, lex_from(chars@, pos + 1));
                        }
                        return None;
                    },
                }
                pos = pos + 1;
            },
            Err(()) => {
                match c_comment(&chars, pos) {
                    Some(e) => {
                        proof {
                            lemma_comment_end(chars@, pos as int);
                        }
                        pos = e;
                    },
                    None => {
                        pos = pos + 1;
                    },
                }
            },
        }
    }
    proof {
        assert(raw =~= lex(chars@));
    }
    let ParserState { tokens, brackets, parens } = st;
    match (!brackets.is_empty(), !parens.is_empty()) {
        (true, _) => {
            if parens.is_empty() {
                None
            } else {
                let l = parens[parens.len() - 1];
                Some(Err(BF5DParseError::new("unmatched parentheses", l)))
            }
        },
        (_, true) => {
            let l = parens[parens.len() - 1];
            Some(Err(BF5DParseError::new("unmatched parentheses", l)))
        },
        _ => Some(Ok(tokens)),
    }
}

/// Parses a program text into its instructions, with each `[` and `]`
/// pointing at its partner and each `(` at its `)`. Returns `None` exactly
/// where parsing would stop with a panic: a `]` or `)` with nothing open,
/// or a `[` left open while no `(` is.
pub fn parse_checked(input: &str) -> (r: Option<Result<Vec<Token>, BF5DParseError>>)
    ensures
        match parse_outcome(input@) {
            None => r is None,
            Some(Ok(ts)) => r matches Some(Ok(v)) && v@ == ts,
            Some(Err(e)) => r matches Some(Err(err)) && err.message_view() == e.0
                && err.location_view() == e.1,
        },
{
    parse_chars(input)
}

/// Parses a program text into its instructions. A `(` left open is an
/// error "unmatched parentheses" at the innermost one.
pub fn parse(input: &str) -> (r: Result<Vec<Token>, BF5DParseError>)
    requires
        parse_outcome(input@) is Some,
    ensures
        match parse_outcome(input@) {
            Some(Ok(ts)) => r matches Ok(v) && v@ == ts,
            Some(Err(e)) => r matches Err(err) && err.message_view() == e.0 && err.location_view()
                == e.1,
            None => false,
        },
{
    match parse_chars(input) {
        Some(r) => r,
        None => Err(BF5DParseError::new("", 0)),
    }
}

// ---------------------------------------------------------------------------
// Laws of the parser.
// ---------------------------------------------------------------------------

/// After a successful parse every `[` points forward at a `]` that points
/// back at it, every `]` points back at a `[` that points at it, every `(`
/// points forward at a `)`, no two `(` at the same one, and every `)` is
/// pointed at by an earlier `(`.
pub proof fn law_parse_links_partners(s: Seq<char>, ts: Seq<Token>)
    requires
        parse_outcome(s) == Some(Ok::<Seq<Token>, (Seq<char>, usize)>(ts)),
        s.len() < usize::MAX,
    ensures
        forall|k: int|
            0 <= k < ts.len() ==> match #[trigger] ts[k] {
                Token::Jump { type_: JumpType::IfZero, index: j } => k < j < ts.len() && ts[j as int]
                    == Token::Jump { type_: JumpType::IfNotZero, index: k as usize },
                Token::Jump { type_: JumpType::IfNotZero, index: j } => j < k && ts[j as int]
                    == Token::Jump { type_: JumpType::IfZero, index: k as usize },
                Token::Spawn { index: j } => k < j < ts.len() && ts[j as int] == Token::Kill,
                Token::Kill => exists|m: int|
                    0 <= m < k && #[trigger] ts[m] == Token::Spawn { index: k as usize },
                _ => true,
            },
        forall|a: int, b: int|
            0 <= a < b < ts.len() && (#[trigger] ts[a]) is Spawn && (#[trigger] ts[b]) is Spawn
                ==> ts[a]->Spawn_index != ts[b]->Spawn_index,
{
    lemma_lex_from(s, 0);
    lemma_fold_tokens(lex(s));
    let st = fold_tokens(lex(s))->Continue_0;
    assert(st.tokens == ts);
    assert forall|k: int| 0 <= k < ts.len() implies match #[trigger] ts[k] {
        Token::Jump { type_: JumpType::IfZero, index: j } => k < j < ts.len() && ts[j as int]
            == Token::Jump { type_: JumpType::IfNotZero, index: k as usize },
        Token::Jump { type_: JumpType::IfNotZero, index: j } => j < k && ts[j as int]
            == Token::Jump { type_: JumpType::IfZero, index: k as usize },
        Token::Spawn { index: j } => k < j < ts.len() && ts[j as int] == Token::Kill,
        Token::Kill => exists|m: int|
            0 <= m < k && #[trigger] ts[m] == Token::Spawn { index: k as usize },
        _ => true,
    } by {
        assert(token_linked(st, k));
    }
    assert forall|a: int, b: int|
        0 <= a < b < ts.len() && (#[trigger] ts[a]) is Spawn && (#[trigger] ts[b])
            is Spawn implies ts[a]->Spawn_index != ts[b]->Spawn_index by {
        assert(token_linked(st, a));
    }
}

/// A successful parse keeps the instructions of the text, in order, with
/// nothing added or dropped: only the links of jumps and spawns are set.
pub proof fn law_parse_keeps_instructions(s: Seq<char>, ts: Seq<Token>)
    requires
        parse_outcome(s) == Some(Ok::<Seq<Token>, (Seq<char>, usize)>(ts)),
        s.len() < usize::MAX,
    ensures
        ts.len() == lex(s).len(),
        forall|k: int| 0 <= k < ts.len() ==> erase_index(#[trigger] ts[k]) == lex(s)[k],
{
    lemma_lex_from(s, 0);
    lemma_fold_tokens(lex(s));
}

/// A text with no bracket or parenthesis among its instructions parses to
/// exactly its instructions.
pub proof fn law_parse_plain_program(s: Seq<char>)
    requires
        forall|k: int|
            0 <= k < lex(s).len() ==> !((#[trigger] lex(s)[k]) is Jump || lex(s)[k] is Spawn
                || lex(s)[k] is Kill),
        s.len() < usize::MAX,
    ensures
        parse_outcome(s) == Some(Ok::<Seq<Token>, (Seq<char>, usize)>(lex(s))),
{
    lemma_lex_from(s, 0);
    lemma_fold_tokens(lex(s));
    lemma_fold_plain(lex(s));
}

proof fn lemma_fold_plain(raw: Seq<Token>)
    requires
        forall|k: int|
            0 <= k < raw.len() ==> !((#[trigger] raw[k]) is Jump || raw[k] is Spawn || raw[k] is Kill),
    ensures
        fold_tokens(raw) == FoldWhile::<ParseState, (Seq<char>, usize)>::Continue(
            ParseState { tokens: raw, brackets: seq![], parens: seq![] },
        ),
    decreases raw.len(),
{
    if raw.len() > 0 {
        let prev = raw.drop_last();
        assert forall|k: int| 0 <= k < prev.len() implies !((#[trigger] prev[k]) is Jump
            || prev[k] is Spawn || prev[k] is Kill) by {
            assert(raw[k] == prev[k]);
        }
        lemma_fold_plain(prev);
        assert(!(raw[raw.len() - 1] is Jump || raw[raw.len() - 1] is Spawn || raw[raw.len() - 1] is Kill));
        assert(prev.push(raw.last()) =~= raw);
    } else {
        assert(raw =~= seq![]);
    }
}

} // verus!

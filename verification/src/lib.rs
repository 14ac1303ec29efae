//! A small glob-like pattern language: literal characters plus bracketed
//! character classes with optional contiguous ranges (for example `[0-9]` or
//! `[a-f]`), together with a matcher that tests a candidate string against a
//! compiled pattern, position by position, with prefix semantics.
//!
//! The two entry points are [`parse_pattern`], which compiles a pattern string
//! into a sequence of [`Character`] tokens, and [`match_pattern`], which walks
//! a compiled pattern and a candidate string in lock-step.

use vstd::prelude::*;

verus! {

// ----------------------------------------------------------------------------
// The mathematical model
// ----------------------------------------------------------------------------

/// One compiled unit of a pattern, as the contracts speak of it: either a
/// fixed literal character, or a class of acceptable characters at one
/// position (duplicates permitted but immaterial; membership test only).
pub enum Token {
    Equal(char),
    OneOf(Seq<char>),
}

/// The transient parser state, as the contracts speak of it: outside any
/// class, inside an open class (with the characters collected so far and an
/// optional pending character), or just past a `-` waiting for the end of a
/// range.
pub enum SpecState {
    Normal,
    StartRange(Seq<char>, Option<char>),
    EndRange(Seq<char>, char),
}

/// The decimal digits, one of the three fixed alphabets a range may span.
pub open spec fn is_digit(c: char) -> bool {
    '0' <= c && c <= '9'
}

/// The lowercase letters `a`-`z`, one of the three fixed alphabets.
pub open spec fn is_lowercase(c: char) -> bool {
    'a' <= c && c <= 'z'
}

/// The uppercase letters `A`-`Z`, one of the three fixed alphabets.
pub open spec fn is_uppercase(c: char) -> bool {
    'A' <= c && c <= 'Z'
}

/// What `char::is_alphanumeric` answers on a character beyond ASCII. The
/// Unicode letter and number categories take pages to state, so they keep
/// their name; inside ASCII, [`is_alphanum`] spells the answer out.
pub uninterp spec fn alphanumeric_beyond_ascii(c: char) -> bool;

/// Whether a character counts as alphanumeric for the pattern language: on
/// ASCII exactly the digits and the letters of the three fixed alphabets,
/// beyond ASCII whatever `char::is_alphanumeric` answers.
pub open spec fn is_alphanum(c: char) -> bool {
    if (c as u32) < 128 {
        is_digit(c) || is_lowercase(c) || is_uppercase(c)
    } else {
        alphanumeric_beyond_ascii(c)
    }
}

/// Relies on `char::is_alphanumeric`: its answer depends on the character
/// alone; on ASCII it accepts exactly the digits `0`-`9` and the letters
/// `a`-`z` and `A`-`Z`, and rejects punctuation such as `[`, `]`, `-`, `#`.
pub assume_specification[ char::is_alphanumeric ](c: char) -> (r: bool)
    ensures
        r == is_alphanum(c),
        (c as u32) >= 128 ==> r == alphanumeric_beyond_ascii(c),
;

/// Whether the two endpoints of a range fall into the same fixed alphabet
/// (digits, lowercase, or uppercase).
pub open spec fn same_alphabet(a: char, b: char) -> bool {
    ||| (is_digit(a) && is_digit(b))
    ||| (is_lowercase(a) && is_lowercase(b))
    ||| (is_uppercase(a) && is_uppercase(b))
}

/// The inclusive run of characters from `start` to `end`. Each of the three
/// fixed alphabets is a contiguous run of code points, so within one alphabet
/// positional order and code-point order agree. A descending pair produces
/// the empty run, not an error: a deliberate, preserved detail of the
/// language (see [`lemma_descending_range_is_empty`]).
pub open spec fn range_chars(start: char, end: char) -> Seq<char> {
    if start <= end {
        Seq::new(
            (end as int - start as int + 1) as nat,
            |i: int| (((start as int + i) as u8) as char),
        )
    } else {
        Seq::empty()
    }
}

/// The collected characters of an open class, with the pending character
/// folded in if one is present.
pub open spec fn flush(acc: Seq<char>, pending: Option<char>) -> Seq<char> {
    match pending {
        Some(c) => acc.push(c),
        None => acc,
    }
}

/// Why a pattern string fails to compile. Matching never errors.
#[derive(Clone, Copy, Debug, PartialEq, Eq, Structural)]
pub enum ParseError {
    /// A character appeared where only an alphanumeric, `[`, `]`, or `-` (in
    /// valid position) is permitted.
    InvalidCharacter,
    /// A `-` appeared with no preceding character inside an open class.
    DanglingRangeOperator,
    /// The two endpoints of a range do not fall into the same fixed alphabet.
    InvalidRange,
    /// The input ended while a class was still open, including mid-range.
    UnterminatedClass,
}

/// One step of the compiler's state machine: from the current state and the
/// tokens emitted so far, what one input character leads to.
pub open spec fn parse_step(state: SpecState, out: Seq<Token>, c: char) -> Result<
    (SpecState, Seq<Token>),
    ParseError,
> {
    match state {
        SpecState::Normal => {
            if c == '[' {
                Ok((SpecState::StartRange(Seq::empty(), None), out))
            } else if is_alphanum(c) {
                Ok((SpecState::Normal, out.push(Token::Equal(c))))
            } else {
                Err(ParseError::InvalidCharacter)
            }
        },
        SpecState::StartRange(acc, pending) => {
            if c == ']' {
                Ok((SpecState::Normal, out.push(Token::OneOf(flush(acc, pending)))))
            } else if is_alphanum(c) {
                Ok((SpecState::StartRange(flush(acc, pending), Some(c)), out))
            } else if c == '-' {
                match pending {
                    Some(last) => Ok((SpecState::EndRange(acc, last), out)),
                    None => Err(ParseError::DanglingRangeOperator),
                }
            } else {
                Err(ParseError::InvalidCharacter)
            }
        },
        SpecState::EndRange(acc, start) => {
            if is_alphanum(c) {
                if same_alphabet(start, c) {
                    Ok((SpecState::StartRange(acc + range_chars(start, c), None), out))
                } else {
                    Err(ParseError::InvalidRange)
                }
            } else {
                Err(ParseError::InvalidCharacter)
            }
        },
    }
}

/// The compiler's state machine run from position `i` of the pattern onward.
/// At end of input, a parse that is not back in the `Normal` state has an
/// unterminated class.
pub open spec fn parse_from(s: Seq<char>, i: int, state: SpecState, out: Seq<Token>) -> Result<
    Seq<Token>,
    ParseError,
>
    recommends
        0 <= i <= s.len(),
    decreases s.len() - i,
{
    if s.len() <= i {
        if state is Normal {
            Ok(out)
        } else {
            Err(ParseError::UnterminatedClass)
        }
    } else {
        match parse_step(state, out, s[i]) {
            Ok(next) => parse_from(s, i + 1, next.0, next.1),
            Err(e) => Err(e),
        }
    }
}

/// What compiling a whole pattern string yields: the token sequence, or the
/// error on which the compilation is discarded.
pub open spec fn parse(s: Seq<char>) -> Result<Seq<Token>, ParseError> {
    parse_from(s, 0, SpecState::Normal, Seq::empty())
}

/// Whether one candidate character satisfies one token: a literal requires
/// exactly that character, a class requires membership.
pub open spec fn token_matches(t: Token, c: char) -> bool {
    match t {
        Token::Equal(expected) => c == expected,
        Token::OneOf(expected) => expected.contains(c),
    }
}

/// Whether a candidate string matches a compiled pattern: the candidate must
/// be at least as long as the token sequence, and every position up to the
/// token count must satisfy its token. Trailing candidate characters are
/// ignored (prefix semantics).
pub open spec fn pattern_matches(tokens: Seq<Token>, s: Seq<char>) -> bool {
    &&& tokens.len() <= s.len()
    &&& forall|i: int| 0 <= i < tokens.len() ==> #[trigger] token_matches(tokens[i], s[i])
}

// ----------------------------------------------------------------------------
// The executable types
// ----------------------------------------------------------------------------

/// One compiled unit of a pattern: a fixed literal character, or a class of
/// acceptable characters at one position.
#[derive(Clone, Debug, Eq, PartialEq)]
pub enum Character {
    Equal(char),
    OneOf(Vec<char>),
}

impl View for Character {
    type V = Token;

    open spec fn view(&self) -> Token {
        match self {
            Character::Equal(c) => Token::Equal(*c),
            Character::OneOf(cs) => Token::OneOf(cs@),
        }
    }
}

/// The transient parser state: it exists only during compilation, starts as
/// `Normal`, and must be back to `Normal` at end of input for the parse to
/// succeed.
#[derive(Clone, Debug, Eq, PartialEq)]
pub enum ParseState {
    Normal,
    StartRange(Vec<char>, Option<char>),
    EndRange(Vec<char>, char),
}

impl View for ParseState {
    type V = SpecState;

    open spec fn view(&self) -> SpecState {
        match self {
            ParseState::Normal => SpecState::Normal,
            ParseState::StartRange(acc, pending) => SpecState::StartRange(acc@, *pending),
            ParseState::EndRange(acc, start) => SpecState::EndRange(acc@, *start),
        }
    }
}

/// The token sequence a compiled pattern stands for.
pub open spec fn tokens_view(tokens: Seq<Character>) -> Seq<Token> {
    tokens.map_values(|t: Character| t@)
}

// ----------------------------------------------------------------------------
// The compiler
// ----------------------------------------------------------------------------

/// Whether the two endpoints of a range fall into the same fixed alphabet.
fn in_same_alphabet(a: char, b: char) -> (r: bool)
    ensures
        r == same_alphabet(a, b),
{
    ('0' <= a && a <= '9' && '0' <= b && b <= '9') || ('a' <= a && a <= 'z' && 'a' <= b && b
        <= 'z') || ('A' <= a && a <= 'Z' && 'A' <= b && b <= 'Z')
}

/// The inclusive run of characters from `start` to `end`, in alphabet order;
/// empty when the pair is descending.
fn get_chars(start: char, end: char) -> (run: Vec<char>)
    requires
        same_alphabet(start, end),
    ensures
        run@ == range_chars(start, end),
{
    let mut run: Vec<char> = Vec::new();
    if end < start {
        return run;
    }
    let first: u8 = start as u8;
    let last: u8 = end as u8;
    let mut next: u8 = first;
    while next <= last
        invariant
            same_alphabet(start, end),
            start <= end,
            first == start as u8,
            last == end as u8,
            first <= next <= last + 1,
            run@ =~= range_chars(start, end).take(next - first),
        decreases last + 1 - next,
    {
        run.push(next as char);
        next = next + 1;
    }
    assert(run@ =~= range_chars(start, end));
    run
}

/// Compiles a pattern string into its token sequence, one character at a
/// time, left to right. Succeeds exactly when the state machine of
/// [`parse_step`] accepts the whole string and is back outside any class at
/// end of input; fails with the error that machine gives, and then no tokens
/// are handed out at all.
pub fn parse_pattern(pattern: &str) -> (r: Result<Vec<Character>, ParseError>)
    ensures
        match r {
            Ok(tokens) => parse(pattern@) == Ok::<Seq<Token>, ParseError>(tokens_view(tokens@)),
            Err(e) => parse(pattern@) == Err::<Seq<Token>, ParseError>(e),
        },
{
    let n = pattern.unicode_len();
    let mut state = ParseState::Normal;
    let mut res: Vec<Character> = Vec::new();
    let mut i: usize = 0;
    proof {
        assert(tokens_view(res@) =~= Seq::<Token>::empty());
    }
    while i < n
        invariant
            n == pattern@.len(),
            i <= n,
            parse(pattern@) == parse_from(pattern@, i as int, state@, tokens_view(res@)),
        decreases n - i,
    {
        let ghost prev_state = state@;
        let ghost prev_out = tokens_view(res@);
        let ghost i0 = i as int;
        let c = pattern.get_char(i);
        match state {
            ParseState::Normal => {
                if c == '[' {
                    state = ParseState::StartRange(Vec::new(), None);
                } else if c.is_alphanumeric() {
                    res.push(Character::Equal(c));
                    state = ParseState::Normal;
                    proof {
                        assert(tokens_view(res@) =~= prev_out.push(Token::Equal(c)));
                    }
                } else {
                    return Err(ParseError::InvalidCharacter);
                }
            },
            ParseState::StartRange(mut acc, pending) => {
                if c == ']' {
                    if let Some(last) = pending {
                        acc.push(last);
                    }
                    res.push(Character::OneOf(acc));
                    state = ParseState::Normal;
                    proof {
                        assert(tokens_view(res@) =~= prev_out.push(
                            Token::OneOf(flush(prev_state->StartRange_0, pending)),
                        ));
                    }
                } else if c.is_alphanumeric() {
                    if let Some(last) = pending {
                        acc.push(last);
                    }
                    state = ParseState::StartRange(acc, Some(c));
                } else if c == '-' {
                    match pending {
                        Some(last) => {
                            state = ParseState::EndRange(acc, last);
                        },
                        None => {
                            return Err(ParseError::DanglingRangeOperator);
                        },
                    }
                } else {
                    return Err(ParseError::InvalidCharacter);
                }
            },
            ParseState::EndRange(mut acc, start) => {
                if c.is_alphanumeric() {
                    if in_same_alphabet(start, c) {
                        let mut run = get_chars(start, c);
                        acc.append(&mut run);
                        state = ParseState::StartRange(acc, None);
                    } else {
                        return Err(ParseError::InvalidRange);
                    }
                } else {
                    return Err(ParseError::InvalidCharacter);
                }
            },
        }
        proof {
            assert(parse_step(prev_state, prev_out, c) == Ok::<(SpecState, Seq<Token>), ParseError>(
                (state@, tokens_view(res@)),
            ));
            assert(parse_from(pattern@, i0, prev_state, prev_out) == parse_from(
                pattern@,
                i0 + 1,
                state@,
                tokens_view(res@),
            ));
        }
        i = i + 1;
    }
    match state {
        ParseState::Normal => Ok(res),
        _ => Err(ParseError::UnterminatedClass),
    }
}

// ----------------------------------------------------------------------------
// The matcher
// ----------------------------------------------------------------------------

/// Whether a character class accepts a candidate character.
fn class_contains(class: &Vec<char>, c: char) -> (r: bool)
    ensures
        r == class@.contains(c),
{
    for j in 0..class.len()
        invariant
            forall|k: int| 0 <= k < j ==> class@[k] != c,
    {
        if class[j] == c {
            return true;
        }
    }
    false
}

/// Tests a candidate string against a compiled pattern: true exactly when the
/// candidate is at least as long as the pattern and every position up to the
/// token count satisfies its token. Trailing candidate characters are
/// ignored (prefix semantics, not full-string equality).
pub fn match_pattern(pattern: &[Character], s: &str) -> (r: bool)
    ensures
        r == pattern_matches(tokens_view(pattern@), s@),
{
    let n = pattern.len();
    if s.unicode_len() < n {
        return false;
    }
    for i in 0..n
        invariant
            n == pattern@.len() <= s@.len(),
            forall|j: int| 0 <= j < i ==> #[trigger] token_matches(
                tokens_view(pattern@)[j],
                s@[j],
            ),
    {
        let c = s.get_char(i);
        match &pattern[i] {
            Character::Equal(expected) => {
                if *expected != c {
                    assert(!token_matches(tokens_view(pattern@)[i as int], s@[i as int]));
                    return false;
                }
            },
            Character::OneOf(expected) => {
                if !class_contains(expected, c) {
                    assert(!token_matches(tokens_view(pattern@)[i as int], s@[i as int]));
                    return false;
                }
            },
        }
        assert(token_matches(tokens_view(pattern@)[i as int], s@[i as int]));
    }
    true
}

// ----------------------------------------------------------------------------
// Laws
// ----------------------------------------------------------------------------

/// Law: the empty pattern compiles to the empty token sequence, and the
/// empty token sequence matches every candidate string, vacuously.
pub proof fn lemma_empty_pattern_matches_everything(s: Seq<char>)
    ensures
        parse(Seq::<char>::empty()) == Ok::<Seq<Token>, ParseError>(Seq::<Token>::empty()),
        pattern_matches(Seq::<Token>::empty(), s),
{
}

/// Law: compilation is deterministic, so compiling the same pattern string
/// twice yields element-wise equal token sequences.
pub proof fn lemma_parse_deterministic(s: Seq<char>, first: Seq<Token>, second: Seq<Token>)
    requires
        parse(s) == Ok::<Seq<Token>, ParseError>(first),
        parse(s) == Ok::<Seq<Token>, ParseError>(second),
    ensures
        first == second,
        forall|i: int| 0 <= i < first.len() ==> first[i] == second[i],
{
}

/// Law: trailing candidate characters beyond the token count never change
/// the outcome of a match (prefix semantics).
pub proof fn lemma_match_ignores_trailing(tokens: Seq<Token>, s: Seq<char>, trailing: Seq<char>)
    requires
        tokens.len() <= s.len(),
    ensures
        pattern_matches(tokens, s + trailing) == pattern_matches(tokens, s),
{
    assert forall|i: int| 0 <= i < tokens.len() implies (s + trailing)[i] == s[i] by {}
}

/// Law: a descending range compiles to an empty character class — a
/// preserved quirk of the scan-based expansion, not an error — and a pattern
/// holding only such a class matches no candidate string at all.
pub proof fn lemma_descending_range_is_empty(s: Seq<char>)
    ensures
        parse("[c-a]"@) == Ok::<Seq<Token>, ParseError>(seq![Token::OneOf(Seq::<char>::empty())]),
        !pattern_matches(seq![Token::OneOf(Seq::<char>::empty())], s),
{
    reveal_strlit("[c-a]");
    let p = "[c-a]"@;
    assert(p.len() == 5);
    assert(p[0] == '[' && p[1] == 'c' && p[2] == '-' && p[3] == 'a' && p[4] == ']');
    let none = Seq::<char>::empty();
    let normal = SpecState::Normal;
    let in_class = SpecState::StartRange(none, None);
    let primed = SpecState::StartRange(none, Some('c'));
    let in_range = SpecState::EndRange(none, 'c');
    let out = Seq::<Token>::empty();
    assert(parse_from(p, 0, normal, out) == parse_from(p, 1, in_class, out));
    assert(parse_from(p, 1, in_class, out) == parse_from(p, 2, primed, out));
    assert(parse_from(p, 2, primed, out) == parse_from(p, 3, in_range, out));
    assert(range_chars('c', 'a') == none);
    assert(none + none =~= none);
    assert(parse_from(p, 3, in_range, out) == parse_from(p, 4, in_class, out));
    assert(parse_from(p, 4, in_class, out) == parse_from(
        p,
        5,
        normal,
        out.push(Token::OneOf(none)),
    ));
    assert(out.push(Token::OneOf(none)) =~= seq![Token::OneOf(none)]);
    if s.len() >= 1 {
        assert(!token_matches(seq![Token::OneOf(none)][0], s[0]));
    }
}

} // verus!

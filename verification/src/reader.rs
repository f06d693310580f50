//! The reader of the Lisp that describes a synth: from a text to the
//! expressions it is made of.
use vstd::prelude::*;
use vstd::slice::{slice_subrange, slice_to_vec};
use crate::sample::Sample;

verus! {

/// Why a script has been refused.
#[derive(Clone, Copy, Debug, PartialEq, Eq, Structural)]
#[allow(inconsistent_fields)]
pub enum LispError {
    /// The text ends where an expression or a character is expected.
    EndOfInput,
    /// Another character stands where `expected` is expected.
    UnexpectedCharacter { found: char, expected: char },
    /// A list is opened and never closed.
    UnterminatedList,
    /// An empty list stands where a call is expected.
    EmptyList,
    /// A number or a list stands where an identifier is expected.
    ExpectedIdentifier,
    /// A node stands where a constant is expected.
    ExpectedConstant,
    /// Something else stands where a node is expected.
    ExpectedNode,
    /// Something else stands where a register is expected.
    ExpectedStore,
    /// A function is given another number of arguments than it takes.
    WrongArgumentCount { expected: usize, received: usize },
    /// A function is given fewer arguments than it needs.
    TooFewArguments { at_least: usize, received: usize },
    /// No function has that name.
    UnknownFunction,
    /// Nothing is bound to that name.
    UnknownIdentifier,
    /// Something else than a list stands at the top level.
    UnexpectedTopLevel,
    /// A synth is to be baked into a buffer of no samples.
    ZeroLengthBake,
    /// The synth has no room for another node or register.
    SynthFull,
    /// A synth names something that is not there.
    MalformedSynth,
    /// The synth has no room for another buffer.
    TooManyBuffers,
    /// Every id of a synth has been issued.
    OutOfIds,
}

/// One expression as it is read.
#[derive(Debug)]
pub enum SExpression {
    Identifier(Vec<char>),
    Number(Sample),
    List(Vec<SExpression>),
}

/// One expression as plain values.
pub enum Tree {
    Identifier(Seq<char>),
    Number(Sample),
    List(Seq<Tree>),
}

impl SExpression {
    /// The expression as plain values.
    pub open spec fn tree(self) -> Tree
        decreases self,
    {
        match self {
            SExpression::Identifier(name) => Tree::Identifier(name@),
            SExpression::Number(value) => Tree::Number(value),
            SExpression::List(items) => Tree::List(
                Seq::new(
                    items@.len(),
                    |i: int|
                        if 0 <= i < items@.len() {
                            items@[i].tree()
                        } else {
                            Tree::Number(Sample(0))
                        },
                ),
            ),
        }
    }
}

/// The expressions of a list as plain values.
pub open spec fn trees(items: Seq<SExpression>) -> Seq<Tree> {
    Seq::new(items.len(), |i: int| items[i].tree())
}

/// What reads a word as a number: the number, or `None` where the word
/// is none.
pub type Lexicon = spec_fn(Seq<char>) -> Option<Sample>;

/// The reader of numbers accepts every word.
pub open spec fn accepts_all<N: Fn(Vec<char>) -> Option<Sample>>(numbers: &N) -> bool {
    forall|word: Vec<char>| #[trigger] numbers.requires((word,))
}

/// The reader of numbers is a function of the characters of the word.
pub open spec fn by_characters<N: Fn(Vec<char>) -> Option<Sample>>(numbers: &N) -> bool {
    forall|a: Vec<char>, b: Vec<char>, x: Option<Sample>, y: Option<Sample>|
        a@ == b@ && #[trigger] numbers.ensures((a,), x) && #[trigger] numbers.ensures((b,), y)
            ==> x == y
}

/// The reader of numbers may read the word `word` as `x`.
pub open spec fn reads<N: Fn(Vec<char>) -> Option<Sample>>(
    numbers: &N,
    word: Seq<char>,
    x: Option<Sample>,
) -> bool {
    exists|w: Vec<char>| w@ == word && #[trigger] numbers.ensures((w,), x)
}

/// The lexicon of a reader of numbers.
pub open spec fn lexicon<N: Fn(Vec<char>) -> Option<Sample>>(numbers: &N) -> Lexicon {
    |word: Seq<char>| choose|x: Option<Sample>| #[trigger] reads(numbers, word, x)
}

/// White space, as Unicode has it.
pub open spec fn is_space(c: char) -> bool {
    let code = c as u32;
    ||| 0x09 <= code <= 0x0d
    ||| code == 0x20
    ||| code == 0x85
    ||| code == 0xa0
    ||| code == 0x1680
    ||| 0x2000 <= code <= 0x200a
    ||| code == 0x2028
    ||| code == 0x2029
    ||| code == 0x202f
    ||| code == 0x205f
    ||| code == 0x3000
}

/// Whether the character is white space.
pub fn space(c: char) -> (b: bool)
    ensures
        b == is_space(c),
{
    let code = c as u32;
    (0x09 <= code && code <= 0x0d) || code == 0x20 || code == 0x85 || code == 0xa0 || code
        == 0x1680 || (0x2000 <= code && code <= 0x200a) || code == 0x2028 || code == 0x2029
        || code == 0x202f || code == 0x205f || code == 0x3000
}

/// Number of leading characters of `text` that are white space.
pub open spec fn blank_len(text: Seq<char>) -> nat
    decreases text.len(),
{
    if text.len() > 0 && is_space(text[0]) {
        1 + blank_len(text.skip(1))
    } else {
        0
    }
}

/// `text` without its leading white space.
pub open spec fn trimmed(text: Seq<char>) -> Seq<char> {
    text.skip(blank_len(text) as int)
}

/// Number of leading characters of `text` that are no white space: the
/// length of the word that `text` starts with.
pub open spec fn word_len(text: Seq<char>) -> nat
    decreases text.len(),
{
    if text.len() > 0 && !is_space(text[0]) {
        1 + word_len(text.skip(1))
    } else {
        0
    }
}

/// Where the list ends that `text` is inside of, `depth` levels deep: the
/// place of the closing bracket that brings the depth to 0, if there is
/// one.
pub open spec fn list_end(text: Seq<char>, depth: nat) -> Option<nat>
    decreases text.len(),
{
    if text.len() == 0 {
        None
    } else if text[0] == ')' && depth <= 1 {
        Some(0)
    } else {
        let inner = if text[0] == '(' {
            depth + 1
        } else if text[0] == ')' {
            (depth - 1) as nat
        } else {
            depth
        };
        match list_end(text.skip(1), inner) {
            Some(at) => Some(at + 1),
            None => None,
        }
    }
}

/// The leading white space of a text is part of the text.
pub proof fn lemma_blank_len(text: Seq<char>)
    ensures
        blank_len(text) <= text.len(),
        trimmed(text).len() == text.len() - blank_len(text),
        trimmed(text).len() > 0 ==> !is_space(trimmed(text)[0]),
        forall|i: int| 0 <= i < blank_len(text) ==> is_space(#[trigger] text[i]),
    decreases text.len(),
{
    if text.len() > 0 && is_space(text[0]) {
        let rest = text.skip(1);
        lemma_blank_len(rest);
        assert(trimmed(text) =~= trimmed(rest));
        assert forall|i: int| 0 <= i < blank_len(text) implies is_space(#[trigger] text[i]) by {
            if i > 0 {
                assert(text[i] == rest[i - 1]);
            }
        }
    }
}

/// The word that a text starts with is part of the text, holds no white
/// space, and ends at white space or with the text.
pub proof fn lemma_word_len(text: Seq<char>)
    ensures
        word_len(text) <= text.len(),
        forall|i: int| 0 <= i < word_len(text) ==> !is_space(#[trigger] text[i]),
        word_len(text) < text.len() ==> is_space(text[word_len(text) as int]),
    decreases text.len(),
{
    if text.len() > 0 && !is_space(text[0]) {
        let rest = text.skip(1);
        lemma_word_len(rest);
        assert forall|i: int| 0 <= i < word_len(text) implies !is_space(#[trigger] text[i]) by {
            if i > 0 {
                assert(text[i] == rest[i - 1]);
            }
        }
        if word_len(text) < text.len() {
            assert(text[word_len(text) as int] == rest[word_len(rest) as int]);
        }
    }
}

/// The end of a list is a closing bracket inside the text.
pub proof fn lemma_list_end(text: Seq<char>, depth: nat)
    ensures
        list_end(text, depth) matches Some(at) ==> at < text.len() && text[at as int] == ')',
    decreases text.len(),
{
    if text.len() > 0 && !(text[0] == ')' && depth <= 1) {
        let inner = if text[0] == '(' {
            depth + 1
        } else if text[0] == ')' {
            (depth - 1) as nat
        } else {
            depth
        };
        lemma_list_end(text.skip(1), inner);
    }
}

/// The expression that `text` starts with, and the text behind it.
///
/// A text that starts with an opening bracket starts with a list: the
/// expressions up to the bracket that closes it. Any other text starts
/// with a word, which runs up to the next white space: a number where the
/// lexicon reads it as one, an identifier elsewhere.
pub open spec fn expression(text: Seq<char>, words: Lexicon) -> (Result<Tree, LispError>, Seq<char>)
    decreases text.len(), 1nat,
{
    if text.len() == 0 {
        (Err(LispError::EndOfInput), text)
    } else if text[0] == '(' {
        match list_end(text.skip(1), 1) {
            Some(at) => {
                let inside = text.subrange(1, 1 + at as int);
                let behind = text.skip(at as int + 2);
                proof {
                    lemma_list_end(text.skip(1), 1);
                    lemma_blank_len(inside);
                }
                match expressions(trimmed(inside), words) {
                    Ok(items) => (Ok(Tree::List(items)), behind),
                    Err(e) => (Err(e), behind),
                }
            },
            None => (Err(LispError::UnterminatedList), text.skip(1)),
        }
    } else {
        let start = trimmed(text);
        let word = start.take(word_len(start) as int);
        let behind = start.skip(word_len(start) as int);
        match words(word) {
            Some(value) => (Ok(Tree::Number(value)), behind),
            None => (Ok(Tree::Identifier(word)), behind),
        }
    }
}

/// The expressions that `text` is made of, which starts with no white
/// space.
pub open spec fn expressions(text: Seq<char>, words: Lexicon) -> Result<Seq<Tree>, LispError>
    decreases text.len(), 2nat,
{
    if text.len() == 0 {
        Ok(Seq::empty())
    } else {
        match expression(text, words) {
            (Ok(first), behind) => {
                if trimmed(behind).len() < text.len() {
                    match expressions(trimmed(behind), words) {
                        Ok(others) => Ok(seq![first] + others),
                        Err(e) => Err(e),
                    }
                } else {
                    Ok(seq![first])
                }
            },
            (Err(e), _) => Err(e),
        }
    }
}

/// The reader refuses a text for one of three reasons: it ends too early,
/// a list is not closed, or a character stands where another is expected.
pub open spec fn reader_error(e: LispError) -> bool {
    ||| e == LispError::EndOfInput
    ||| e == LispError::UnterminatedList
    ||| e matches LispError::UnexpectedCharacter { .. }
}

/// Whatever the reader refuses, it refuses for a reason of its own.
pub proof fn lemma_reader_errors(text: Seq<char>, words: Lexicon)
    ensures
        expression(text, words).0 matches Err(e) ==> reader_error(e),
        expressions(text, words) matches Err(e) ==> reader_error(e),
    decreases text.len(),
{
    if text.len() > 0 {
        if text[0] == '(' {
            match list_end(text.skip(1), 1) {
                Some(at) => {
                    lemma_list_end(text.skip(1), 1);
                    let inside = text.subrange(1, 1 + at as int);
                    lemma_blank_len(inside);
                    lemma_reader_errors(trimmed(inside), words);
                },
                None => {},
            }
        }
        match expression(text, words) {
            (Ok(first), behind) => {
                if trimmed(behind).len() < text.len() {
                    lemma_reader_errors(trimmed(behind), words);
                }
            },
            _ => {},
        }
    }
}

/// An expression at the start of a text that starts with no white space
/// takes up at least one character of it.
pub proof fn lemma_expression_progress(text: Seq<char>, words: Lexicon)
    requires
        text.len() > 0,
        !is_space(text[0]),
    ensures
        expression(text, words).0 is Ok ==> trimmed(expression(text, words).1).len() < text.len(),
{
    lemma_blank_len(expression(text, words).1);
    if text[0] == '(' {
        lemma_list_end(text.skip(1), 1);
    } else {
        assert(blank_len(text) == 0);
        assert(trimmed(text) =~= text);
        lemma_word_len(text);
    }
}

/// `read` with the expressions `done` before it.
pub open spec fn behind_of(done: Seq<Tree>, read: Result<Seq<Tree>, LispError>) -> Result<
    Seq<Tree>,
    LispError,
> {
    match read {
        Ok(others) => Ok(done + others),
        Err(e) => Err(e),
    }
}

/// Asks the reader of numbers for one word.
pub fn read_number<N: Fn(Vec<char>) -> Option<Sample>>(numbers: &N, word: Vec<char>) -> (x: Option<
    Sample,
>)
    requires
        accepts_all(numbers),
    ensures
        reads(numbers, word@, x),
        by_characters(numbers) ==> x == lexicon(numbers)(word@),
{
    let x = numbers(word);
    proof {
        assert(reads(numbers, word@, x));
        if by_characters(numbers) {
            let chosen = lexicon(numbers)(word@);
            assert(reads(numbers, word@, chosen));
        }
    }
    x
}

/// A reader over a text: it holds what is left to read.
#[derive(Copy, Clone, Debug)]
pub struct ExprReader<'a> {
    pub input: &'a [char],
}

impl<'a> View for ExprReader<'a> {
    type V = Seq<char>;

    open spec fn view(&self) -> Seq<char> {
        self.input@
    }
}

impl<'a> ExprReader<'a> {
    /// A reader at the start of `input`.
    pub fn new(input: &'a [char]) -> (reader: ExprReader<'a>)
        ensures
            reader@ == input@,
    {
        ExprReader { input }
    }

    /// Whether nothing is left to read.
    pub fn is_empty(&self) -> (b: bool)
        ensures
            b == (self@.len() == 0),
    {
        self.input.len() == 0
    }

    /// The next character, which stays to be read.
    pub fn peek(&self) -> (next: Result<char, LispError>)
        ensures
            self@.len() == 0 <==> next == Err::<char, LispError>(LispError::EndOfInput),
            self@.len() > 0 ==> next == Ok::<char, LispError>(self@[0]),
    {
        if self.input.len() == 0 {
            Err(LispError::EndOfInput)
        } else {
            Ok(self.input[0])
        }
    }

    /// Skips white space and takes the character `c`. Where another
    /// character stands there, it stays to be read.
    pub fn expect(&mut self, c: char) -> (taken: Result<(), LispError>)
        ensures
            trimmed(old(self)@).len() == 0 ==> taken == Err::<(), LispError>(LispError::EndOfInput)
                && final(self)@ == trimmed(old(self)@),
            trimmed(old(self)@).len() > 0 && trimmed(old(self)@)[0] != c ==> taken == Err::<
                (),
                LispError,
            >(LispError::UnexpectedCharacter { found: trimmed(old(self)@)[0], expected: c })
                && final(self)@ == trimmed(old(self)@),
            trimmed(old(self)@).len() > 0 && trimmed(old(self)@)[0] == c ==> taken == Ok::<
                (),
                LispError,
            >(()) && final(self)@ == trimmed(old(self)@).skip(1),
    {
        self.skip_whitespace();
        let next = self.peek()?;

        if next != c {
            return Err(LispError::UnexpectedCharacter { found: next, expected: c });
        }
        self.input = slice_subrange(self.input, 1, self.input.len());
        Ok(())
    }

    /// Skips the white space that the text starts with.
    pub fn skip_whitespace(&mut self)
        ensures
            final(self)@ == trimmed(old(self)@),
    {
        let len = self.input.len();
        let mut at: usize = 0;
        proof {
            lemma_blank_len(self@);
            assert(self@.skip(0) =~= self@);
        }
        while at < len && space(self.input[at])
            invariant
                at <= len,
                len == self@.len(),
                self@ == old(self)@,
                at + blank_len(self@.skip(at as int)) == blank_len(self@),
            decreases len - at,
        {
            proof {
                assert(self@.skip(at as int).skip(1) =~= self@.skip(at + 1));
            }
            at = at + 1;
        }
        proof {
            if at < len {
                assert(self@.skip(at as int)[0] == self@[at as int]);
            }
        }
        self.input = slice_subrange(self.input, at, len);
    }

    /// Skips white space and takes the word that follows: the characters up
    /// to the next white space.
    pub fn parse_word(&mut self) -> (word: &'a [char])
        ensures
            word@ == trimmed(old(self)@).take(word_len(trimmed(old(self)@)) as int),
            final(self)@ == trimmed(old(self)@).skip(word_len(trimmed(old(self)@)) as int),
    {
        self.skip_whitespace();

        let len = self.input.len();
        let mut word_end: usize = 0;
        proof {
            lemma_word_len(self@);
            assert(self@.skip(0) =~= self@);
        }
        while word_end < len && !space(self.input[word_end])
            invariant
                word_end <= len,
                len == self@.len(),
                self@ == trimmed(old(self)@),
                word_end + word_len(self@.skip(word_end as int)) == word_len(self@),
            decreases len - word_end,
        {
            proof {
                assert(self@.skip(word_end as int).skip(1) =~= self@.skip(word_end + 1));
            }
            word_end = word_end + 1;
        }
        proof {
            if word_end < len {
                assert(self@.skip(word_end as int)[0] == self@[word_end as int]);
            }
        }

        let word = slice_subrange(self.input, 0, word_end);
        self.input = slice_subrange(self.input, word_end, len);
        word
    }

    /// Takes a list from its opening bracket to the bracket that closes it,
    /// and returns a reader over what stands between the two.
    pub fn list_parser(&mut self) -> (inside: Result<ExprReader<'a>, LispError>)
        requires
            old(self)@.len() > 0,
            old(self)@[0] == '(',
        ensures
            match list_end(old(self)@.skip(1), 1) {
                Some(at) => {
                    &&& inside matches Ok(reader) && reader@ == old(self)@.subrange(
                        1,
                        1 + at as int,
                    )
                    &&& at + 1 < old(self)@.len()
                    &&& final(self)@ == old(self)@.skip(at as int + 2)
                },
                None => {
                    &&& inside == Err::<ExprReader<'a>, LispError>(LispError::UnterminatedList)
                    &&& final(self)@ == old(self)@.skip(1)
                },
            },
    {
        proof {
            assert(blank_len(self@) == 0);
            assert(trimmed(self@) =~= self@);
        }
        let opened = self.expect('(');
        assert(opened is Ok);

        let len = self.input.len();
        let ghost body = self@;
        let mut open: usize = 0;
        let mut pos: usize = 0;
        let mut found = false;
        proof {
            assert(body.skip(0) =~= body);
        }
        while pos < len
            invariant_except_break
                !found,
            invariant
                pos <= len,
                len == body.len(),
                self@ == body,
                open <= pos,
                list_end(body, 1) == match list_end(body.skip(pos as int), (open + 1) as nat) {
                    Some(at) => Some(at + pos as nat),
                    None => None,
                },
            ensures
                pos <= len,
                found ==> pos < len && list_end(body, 1) == Some(pos as nat),
                !found ==> list_end(body, 1) is None,
            decreases len - pos,
        {
            let c = self.input[pos];
            proof {
                assert(body.skip(pos as int)[0] == body[pos as int]);
                assert(body.skip(pos as int).skip(1) =~= body.skip(pos + 1));
            }
            if c == ')' && open == 0 {
                found = true;
                break;
            }
            if c == '(' {
                open = open + 1;
            } else if c == ')' {
                open = open - 1;
            }
            pos = pos + 1;
        }

        if found {
            let list_str = slice_subrange(self.input, 0, pos);
            self.input = slice_subrange(self.input, pos, len);
            proof {
                lemma_list_end(body, 1);
                assert(self@[0] == ')');
                assert(blank_len(self@) == 0);
                assert(trimmed(self@) =~= self@);
                assert(body.subrange(0, pos as int) =~= old(self)@.subrange(1, 1 + pos as int));
                assert(body.subrange(pos as int, len as int).skip(1) =~= old(self)@.skip(pos + 2));
            }
            let closed = self.expect(')');
            assert(closed is Ok);

            Ok(ExprReader::new(list_str))
        } else {
            Err(LispError::UnterminatedList)
        }
    }

    /// Takes a list and reads the expressions that it holds.
    pub fn parse_list<N: Fn(Vec<char>) -> Option<Sample>>(&mut self, numbers: &N) -> (list: Result<
        Vec<SExpression>,
        LispError,
    >)
        requires
            accepts_all(numbers),
            old(self)@.len() > 0,
            old(self)@[0] == '(',
        ensures
            final(self)@.len() < old(self)@.len(),
            by_characters(numbers) ==> match list {
                Ok(items) => (Ok::<Tree, LispError>(Tree::List(trees(items@))), final(self)@)
                    == expression(old(self)@, lexicon(numbers)),
                Err(e) => (Err::<Tree, LispError>(e), final(self)@) == expression(
                    old(self)@,
                    lexicon(numbers),
                ),
            },
        decreases old(self)@.len(), 0nat,
    {
        let ghost words = lexicon(numbers);
        let ghost whole = expression(old(self)@, words);
        let mut list_parser = match self.list_parser() {
            Ok(reader) => reader,
            Err(e) => {
                assert(whole == (
                    Err::<Tree, LispError>(LispError::UnterminatedList),
                    old(self)@.skip(1),
                ));
                return Err(e);
            },
        };
        let mut ret: Vec<SExpression> = Vec::new();
        let ghost behind = self@;
        let ghost inside = list_parser@;

        list_parser.skip_whitespace();
        let ghost start = list_parser@;
        proof {
            lemma_list_end(old(self)@.skip(1), 1);
            lemma_blank_len(inside);
            assert(whole == match expressions(start, words) {
                Ok(items) => (Ok::<Tree, LispError>(Tree::List(items)), behind),
                Err(e) => (Err::<Tree, LispError>(e), behind),
            });
            assert(trees(ret@) =~= Seq::<Tree>::empty());
            assert(behind_of(trees(ret@), expressions(start, words)) == expressions(start, words))
                by {
                match expressions(start, words) {
                    Ok(others) => {
                        assert(Seq::<Tree>::empty() + others =~= others);
                    },
                    Err(_) => {},
                }
            }
        }

        while !list_parser.is_empty()
            invariant
                accepts_all(numbers),
                words == lexicon(numbers),
                self@ == behind,
                behind.len() < old(self)@.len(),
                whole == expression(old(self)@, words),
                whole == match expressions(start, words) {
                    Ok(items) => (Ok::<Tree, LispError>(Tree::List(items)), behind),
                    Err(e) => (Err::<Tree, LispError>(e), behind),
                },
                list_parser@.len() <= start.len(),
                start.len() < old(self)@.len(),
                list_parser@.len() > 0 ==> !is_space(list_parser@[0]),
                by_characters(numbers) ==> expressions(start, words) == behind_of(
                    trees(ret@),
                    expressions(list_parser@, words),
                ),
            decreases list_parser@.len(),
        {
            let ghost before = list_parser@;
            let ghost done = trees(ret@);
            proof {
                lemma_expression_progress(before, words);
            }
            let item = match list_parser.parse_sexpression(numbers) {
                Ok(item) => item,
                Err(e) => {
                    proof {
                        if by_characters(numbers) {
                            assert(expression(before, words).0 == Err::<Tree, LispError>(e));
                            assert(expressions(before, words) == Err::<Seq<Tree>, LispError>(e));
                        }
                    }
                    return Err(e);
                },
            };
            ret.push(item);
            proof {
                lemma_blank_len(list_parser@);
            }
            list_parser.skip_whitespace();
            proof {
                assert(trees(ret@) =~= done.push(item.tree()));
                if by_characters(numbers) {
                    match expressions(list_parser@, words) {
                        Ok(others) => {
                            assert(done + (seq![item.tree()] + others) =~= done.push(item.tree())
                                + others);
                        },
                        Err(_) => {},
                    }
                }
            }
        }

        proof {
            if by_characters(numbers) {
                assert(trees(ret@) + Seq::<Tree>::empty() =~= trees(ret@));
            }
        }
        Ok(ret)
    }

    /// Reads one expression: a list, or a word that is a number or an
    /// identifier.
    pub fn parse_sexpression<N: Fn(Vec<char>) -> Option<Sample>>(
        &mut self,
        numbers: &N,
    ) -> (read: Result<SExpression, LispError>)
        requires
            accepts_all(numbers),
        ensures
            final(self)@.len() <= old(self)@.len(),
            old(self)@.len() > 0 && !is_space(old(self)@[0]) && read is Ok ==> final(self)@.len()
                < old(self)@.len(),
            by_characters(numbers) ==> match read {
                Ok(item) => (Ok::<Tree, LispError>(item.tree()), final(self)@) == expression(
                    old(self)@,
                    lexicon(numbers),
                ),
                Err(e) => (Err::<Tree, LispError>(e), final(self)@) == expression(
                    old(self)@,
                    lexicon(numbers),
                ),
            },
        decreases old(self)@.len(), 1nat,
    {
        let first = self.peek()?;
        if first == '(' {
            let list = self.parse_list(numbers)?;
            let read = SExpression::List(list);
            proof {
                assert(read.tree() == Tree::List(trees(list@))) by {
                    assert(read.tree()->List_0 =~= trees(list@));
                }
            }
            Ok(read)
        } else {
            proof {
                lemma_blank_len(self@);
                lemma_word_len(trimmed(self@));
            }
            let word = self.parse_word();

            match read_number(numbers, slice_to_vec(word)) {
                Some(value) => Ok(SExpression::Number(value)),
                None => Ok(SExpression::Identifier(slice_to_vec(word))),
            }
        }
    }

    /// Reads every expression of the text.
    pub fn parse_toplevel<N: Fn(Vec<char>) -> Option<Sample>>(&mut self, numbers: &N) -> (read:
        Result<Vec<SExpression>, LispError>)
        requires
            accepts_all(numbers),
        ensures
            by_characters(numbers) ==> match read {
                Ok(items) => Ok::<Seq<Tree>, LispError>(trees(items@)) == expressions(
                    trimmed(old(self)@),
                    lexicon(numbers),
                ),
                Err(e) => Err::<Seq<Tree>, LispError>(e) == expressions(
                    trimmed(old(self)@),
                    lexicon(numbers),
                ),
            },
    {
        let mut top_level_exprs: Vec<SExpression> = Vec::new();

        self.skip_whitespace();
        let ghost start = self@;
        let ghost words = lexicon(numbers);
        proof {
            lemma_blank_len(old(self)@);
            assert(trees(top_level_exprs@) =~= Seq::<Tree>::empty());
            match expressions(start, words) {
                Ok(others) => {
                    assert(Seq::<Tree>::empty() + others =~= others);
                },
                Err(_) => {},
            }
        }

        while !self.is_empty()
            invariant
                accepts_all(numbers),
                words == lexicon(numbers),
                start == trimmed(old(self)@),
                self@.len() > 0 ==> !is_space(self@[0]),
                by_characters(numbers) ==> expressions(start, words) == behind_of(
                    trees(top_level_exprs@),
                    expressions(self@, words),
                ),
            decreases self@.len(),
        {
            let ghost before = self@;
            let ghost done = trees(top_level_exprs@);
            proof {
                lemma_expression_progress(before, words);
            }
            let item = match self.parse_sexpression(numbers) {
                Ok(item) => item,
                Err(e) => {
                    proof {
                        if by_characters(numbers) {
                            assert(expression(before, words).0 == Err::<Tree, LispError>(e));
                            assert(expressions(before, words) == Err::<Seq<Tree>, LispError>(e));
                        }
                    }
                    return Err(e);
                },
            };
            top_level_exprs.push(item);
            proof {
                lemma_blank_len(self@);
            }
            self.skip_whitespace();
            proof {
                assert(trees(top_level_exprs@) =~= done.push(item.tree()));
                if by_characters(numbers) {
                    match expressions(self@, words) {
                        Ok(others) => {
                            assert(done + (seq![item.tree()] + others) =~= done.push(item.tree())
                                + others);
                        },
                        Err(_) => {},
                    }
                }
            }
        }

        proof {
            if by_characters(numbers) {
                assert(trees(top_level_exprs@) + Seq::<Tree>::empty() =~= trees(top_level_exprs@));
            }
        }
        Ok(top_level_exprs)
    }
}

} // verus!

//! Front-end lexer: turns source text into an ordered operation sequence.
//!
//! The eight control symbols are recognized; every other character is
//! ignored. A loop close with no preceding unmatched loop open is rejected
//! with the zero-based index of the offending character.

use crate::text::{dec_str, usize_to_string};
use vstd::prelude::*;
use vstd::string::*;

verus! {

/// Rejection of a source text by [`parse`].
#[derive(Debug, PartialEq, Eq, Structural)]
pub enum ParseError {
    /// A `]` appeared with no preceding unmatched `[`; carries the
    /// zero-based character index of the offending `]`.
    UnexpectedLoopClose(usize),
}

impl ParseError {
    /// The rendering of this error: it names the position of the
    /// offending character.
    pub fn message(&self) -> (r: String)
        ensures
            (match *self {
                ParseError::UnexpectedLoopClose(p) => r@ == "Unexpected loop close at character: "@
                    + dec_str(p as nat),
            }),
    {
        match self {
            ParseError::UnexpectedLoopClose(num) => {
                let mut s = String::new();
                s.append("Unexpected loop close at character: ");
                let t = usize_to_string(*num);
                s.append(t.as_str());
                proof {
                    assert(s@ =~= "Unexpected loop close at character: "@ + dec_str(
                        *num as nat,
                    ));
                }
                s
            },
        }
    }
}

/// One instruction of the eight-symbol language.
#[derive(Clone, Copy, Debug, PartialEq, Eq, Structural)]
pub enum Ops {
    IncrementPtr,
    DecrementPtr,
    Increment,
    Decrement,
    PutChar,
    GetChar,
    OpenLoop,
    CloseLoop,
}

/// Whether `c` is one of the eight control symbols.
pub open spec fn is_bf_char(c: char) -> bool {
    c == '>' || c == '<' || c == '+' || c == '-' || c == '.' || c == ',' || c == '[' || c == ']'
}

/// The operation denoted by the control symbol `c`.
pub open spec fn char_op(c: char) -> Ops
    recommends
        is_bf_char(c),
{
    if c == '>' {
        Ops::IncrementPtr
    } else if c == '<' {
        Ops::DecrementPtr
    } else if c == '+' {
        Ops::Increment
    } else if c == '-' {
        Ops::Decrement
    } else if c == '.' {
        Ops::PutChar
    } else if c == ',' {
        Ops::GetChar
    } else if c == '[' {
        Ops::OpenLoop
    } else {
        Ops::CloseLoop
    }
}

/// The control symbol that denotes the operation `op`.
pub open spec fn op_symbol(op: Ops) -> char {
    match op {
        Ops::IncrementPtr => '>',
        Ops::DecrementPtr => '<',
        Ops::Increment => '+',
        Ops::Decrement => '-',
        Ops::PutChar => '.',
        Ops::GetChar => ',',
        Ops::OpenLoop => '[',
        Ops::CloseLoop => ']',
    }
}

/// The result of scanning `s` from position `i` onward with `depth` loops
/// currently open: either the operations for the remaining text, or the
/// index of the first `]` that closes no open loop.
pub open spec fn parse_from(s: Seq<char>, i: int, depth: nat) -> Result<Seq<Ops>, int>
    decreases s.len() - i,
{
    if i < 0 || i >= s.len() {
        Ok(Seq::empty())
    } else {
        let c = s[i];
        if c == ']' {
            if depth == 0 {
                Err(i)
            } else {
                match parse_from(s, i + 1, (depth - 1) as nat) {
                    Ok(rest) => Ok(seq![Ops::CloseLoop] + rest),
                    Err(p) => Err(p),
                }
            }
        } else if c == '[' {
            match parse_from(s, i + 1, depth + 1) {
                Ok(rest) => Ok(seq![Ops::OpenLoop] + rest),
                Err(p) => Err(p),
            }
        } else if is_bf_char(c) {
            match parse_from(s, i + 1, depth) {
                Ok(rest) => Ok(seq![char_op(c)] + rest),
                Err(p) => Err(p),
            }
        } else {
            parse_from(s, i + 1, depth)
        }
    }
}

/// What [`parse`] returns on the text `s`: the full operation sequence, or
/// the index of the first unmatched `]`.
pub open spec fn spec_parse(s: Seq<char>) -> Result<Seq<Ops>, int> {
    parse_from(s, 0, 0)
}

/// Scans `input` left to right, mapping each recognized control symbol to
/// its operation in order and skipping all other characters. Fails at the
/// first `]` that closes no open loop, with that character's index.
pub fn parse(input: &str) -> (r: Result<Vec<Ops>, ParseError>)
    ensures
        (match r {
            Ok(ops) => spec_parse(input@) == Ok::<Seq<Ops>, int>(ops@),
            Err(ParseError::UnexpectedLoopClose(p)) => spec_parse(input@) == Err::<Seq<Ops>, int>(
                p as int,
            ),
        }),
{
    let n: usize = input.unicode_len();
    let mut loops: Vec<usize> = Vec::new();
    let mut loop_counter: usize = 0;
    let mut ops: Vec<Ops> = Vec::new();
    let mut i: usize = 0;
    while i < n
        invariant
            n == input@.len(),
            i <= n,
            loops@.len() <= i,
            loop_counter <= i,
            spec_parse(input@) == (match parse_from(input@, i as int, loops@.len() as nat) {
                Ok(rest) => Ok::<Seq<Ops>, int>(ops@ + rest),
                Err(p) => Err::<Seq<Ops>, int>(p),
            }),
        decreases n - i,
    {
        let ghost prev_ops = ops@;
        let c = input.get_char(i);
        match c {
            '>' => ops.push(Ops::IncrementPtr),
            '<' => ops.push(Ops::DecrementPtr),
            '+' => ops.push(Ops::Increment),
            '-' => ops.push(Ops::Decrement),
            '.' => ops.push(Ops::PutChar),
            ',' => ops.push(Ops::GetChar),
            '[' => {
                loops.push(loop_counter);
                loop_counter = loop_counter + 1;
                ops.push(Ops::OpenLoop);
            },
            ']' => {
                if loops.pop().is_none() {
                    return Err(ParseError::UnexpectedLoopClose(i));
                }
                ops.push(Ops::CloseLoop);
            },
            _ => {},
        }
        proof {
            if is_bf_char(c) {
                assert(ops@ =~= prev_ops + seq![char_op(c)]);
                match parse_from(input@, i + 1, loops@.len() as nat) {
                    Ok(rest) => {
                        assert(prev_ops + (seq![char_op(c)] + rest) =~= ops@ + rest);
                    },
                    Err(p) => {},
                }
            }
        }
        i = i + 1;
    }
    proof {
        assert(ops@ + Seq::<Ops>::empty() =~= ops@);
    }
    Ok(ops)
}

/// The subsequence of control symbols of `s` from position `i` onward, in
/// their original order, with all other characters removed.
pub open spec fn bf_symbols(s: Seq<char>, i: int) -> Seq<char>
    decreases s.len() - i,
{
    if i < 0 || i >= s.len() {
        Seq::empty()
    } else if is_bf_char(s[i]) {
        seq![s[i]] + bf_symbols(s, i + 1)
    } else {
        bf_symbols(s, i + 1)
    }
}

/// The control symbols that denote the operations of `ops`, in order.
pub open spec fn op_symbols(ops: Seq<Ops>) -> Seq<char>
    decreases ops.len(),
{
    if ops.len() == 0 {
        Seq::empty()
    } else {
        seq![op_symbol(ops[0])] + op_symbols(ops.drop_first())
    }
}

proof fn lemma_op_symbols_cons(op: Ops, rest: Seq<Ops>)
    ensures
        op_symbols(seq![op] + rest) == seq![op_symbol(op)] + op_symbols(rest),
{
    let whole = seq![op] + rest;
    assert(whole.len() > 0);
    assert(whole[0] == op);
    assert(whole.drop_first() =~= rest);
}

proof fn lemma_parse_from_symbols(s: Seq<char>, i: int, depth: nat)
    requires
        0 <= i,
        parse_from(s, i, depth) is Ok,
    ensures
        op_symbols(parse_from(s, i, depth)->Ok_0) == bf_symbols(s, i),
    decreases s.len() - i,
{
    if i >= s.len() {
        assert(op_symbols(Seq::empty()) =~= Seq::<char>::empty());
    } else {
        let c = s[i];
        if c == ']' {
            lemma_parse_from_symbols(s, i + 1, (depth - 1) as nat);
            lemma_op_symbols_cons(Ops::CloseLoop, parse_from(s, i + 1, (depth - 1) as nat)->Ok_0);
        } else if c == '[' {
            lemma_parse_from_symbols(s, i + 1, depth + 1);
            lemma_op_symbols_cons(Ops::OpenLoop, parse_from(s, i + 1, depth + 1)->Ok_0);
        } else if is_bf_char(c) {
            lemma_parse_from_symbols(s, i + 1, depth);
            lemma_op_symbols_cons(char_op(c), parse_from(s, i + 1, depth)->Ok_0);
            assert(op_symbol(char_op(c)) == c);
        } else {
            lemma_parse_from_symbols(s, i + 1, depth);
        }
    }
}

/// Parsing is order-preserving on recognized symbols and ignores all
/// others: re-deriving the symbol list from a successfully parsed operation
/// sequence yields the source's control symbols in their original order,
/// with non-control characters removed.
pub proof fn lemma_parse_preserves_symbols(s: Seq<char>)
    requires
        spec_parse(s) is Ok,
    ensures
        op_symbols(spec_parse(s)->Ok_0) == bf_symbols(s, 0),
{
    lemma_parse_from_symbols(s, 0, 0);
}

} // verus!

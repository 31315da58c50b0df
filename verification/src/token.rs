use vstd::prelude::*;

verus! {

// The bytes the tokenizer decides by.
pub const B_TAB: u8 = 9;

pub const B_LF: u8 = 10;

pub const B_FF: u8 = 12;

pub const B_CR: u8 = 13;

pub const B_SPACE: u8 = 32;

pub const B_BANG: u8 = 33;

pub const B_HASH: u8 = 35;

pub const B_AMP: u8 = 38;

pub const B_STAR: u8 = 42;

pub const B_PLUS: u8 = 43;

pub const B_COMMA: u8 = 44;

pub const B_MINUS: u8 = 45;

pub const B_SLASH: u8 = 47;

pub const B_ZERO: u8 = 48;

pub const B_NINE: u8 = 57;

pub const B_COLON: u8 = 58;

pub const B_EQUAL: u8 = 61;

pub const B_AT: u8 = 64;

pub const B_BACKSLASH: u8 = 92;

pub const B_LOWER_A: u8 = 97;

pub const B_LOWER_Z: u8 = 122;

pub const B_PIPE: u8 = 124;

pub const B_TILDE: u8 = 126;

/// A lexical token of one input line.  Tokens are produced per line and
/// consumed by the evaluator at once.
#[derive(Clone, Copy, PartialEq, Eq, Structural, Debug)]
pub enum Token {
    /// A literal integer, possibly negative.
    Number(i64),
    /// A global variable, one of the 26 letters `a` to `z`.
    Global(u8),
    /// A verb or adverb character (legality is decided later by table
    /// lookup, not here).
    Symbol(u8),
    /// The assignment marker.
    Colon,
}

/// A `Global` token carries a lowercase letter; the tokenizer produces no
/// other kind.
pub open spec fn token_wf(t: Token) -> bool {
    match t {
        Token::Global(g) => B_LOWER_A <= g <= B_LOWER_Z,
        _ => true,
    }
}

/// The verb table order: blank sentinel, then `+ - ! # , @ = ~ & | *`.
/// Index 0 stands for "not a verb".
pub open spec fn verb_index_model(b: u8) -> int {
    if b == B_PLUS {
        1
    } else if b == B_MINUS {
        2
    } else if b == B_BANG {
        3
    } else if b == B_HASH {
        4
    } else if b == B_COMMA {
        5
    } else if b == B_AT {
        6
    } else if b == B_EQUAL {
        7
    } else if b == B_TILDE {
        8
    } else if b == B_AMP {
        9
    } else if b == B_PIPE {
        10
    } else if b == B_STAR {
        11
    } else {
        0
    }
}

/// The adverb table order: blank sentinel, then `/` (fold) and `\`
/// (scan).  Index 0 stands for "not an adverb".
pub open spec fn adverb_index_model(b: u8) -> int {
    if b == B_SLASH {
        1
    } else if b == B_BACKSLASH {
        2
    } else {
        0
    }
}

pub fn verb_index(token: u8) -> (r: usize)
    ensures
        r == verb_index_model(token),
{
    if token == B_PLUS {
        1
    } else if token == B_MINUS {
        2
    } else if token == B_BANG {
        3
    } else if token == B_HASH {
        4
    } else if token == B_COMMA {
        5
    } else if token == B_AT {
        6
    } else if token == B_EQUAL {
        7
    } else if token == B_TILDE {
        8
    } else if token == B_AMP {
        9
    } else if token == B_PIPE {
        10
    } else if token == B_STAR {
        11
    } else {
        0
    }
}

pub fn adverb_index(token: u8) -> (r: usize)
    ensures
        r == adverb_index_model(token),
{
    if token == B_SLASH {
        1
    } else if token == B_BACKSLASH {
        2
    } else {
        0
    }
}

/// Whether a `-` straight after this token opens a negative literal:
/// only after the assignment marker or a known verb or adverb
/// character.  After a noun — a number or a global — the `-` is the
/// subtraction verb.
pub open spec fn can_start_negative_model(t: Token) -> bool {
    match t {
        Token::Colon => true,
        Token::Symbol(s) => verb_index_model(s) != 0 || adverb_index_model(s) != 0,
        _ => false,
    }
}

impl Token {
    pub fn can_start_negative(&self) -> (r: bool)
        ensures
            r == can_start_negative_model(*self),
    {
        match self {
            Token::Colon => true,
            Token::Symbol(s) => verb_index(*s) != 0 || adverb_index(*s) != 0,
            _ => false,
        }
    }
}

pub open spec fn is_digit(b: u8) -> bool {
    B_ZERO <= b <= B_NINE
}

pub open spec fn is_blank(b: u8) -> bool {
    b == B_SPACE || b == B_TAB || b == B_LF || b == B_FF || b == B_CR
}

pub open spec fn is_lower(b: u8) -> bool {
    B_LOWER_A <= b <= B_LOWER_Z
}

/// Accumulate the decimal digit run that begins at `i` onto `acc`.
/// `None` reports an accumulation that would pass `i64::MAX`; otherwise
/// the result carries the value read and the first position past the run.
pub open spec fn scan_digits(bytes: Seq<u8>, i: int, acc: i64) -> Option<(i64, int)>
    recommends
        0 <= i <= bytes.len(),
        acc >= 0,
    decreases bytes.len() - i when 0 <= i <= bytes.len()
{
    if i == bytes.len() || !is_digit(bytes[i]) {
        Some((acc, i))
    } else if acc * 10 + (bytes[i] - B_ZERO) > i64::MAX {
        None
    } else {
        scan_digits(bytes, i + 1, (acc * 10 + (bytes[i] - B_ZERO)) as i64)
    }
}

pub proof fn lemma_scan_digits_bounds(bytes: Seq<u8>, i: int, acc: i64)
    requires
        0 <= i <= bytes.len(),
        acc >= 0,
    ensures
        match scan_digits(bytes, i, acc) {
            Some(p) => i <= p.1 <= bytes.len() && p.0 >= 0 && ((i < bytes.len() && is_digit(
                bytes[i],
            )) ==> p.1 >= i + 1),
            None => true,
        },
    decreases bytes.len() - i,
{
    if i == bytes.len() || !is_digit(bytes[i]) {
    } else if acc * 10 + (bytes[i] - B_ZERO) > i64::MAX {
    } else {
        lemma_scan_digits_bounds(bytes, i + 1, (acc * 10 + (bytes[i] - B_ZERO)) as i64);
    }
}

/// Whether a negative literal may begin where the token sequence read so
/// far ends: at the start of the line, or after a token that can start
/// one.
pub open spec fn next_can_start_negative(acc: Seq<Token>) -> bool {
    acc.len() == 0 || can_start_negative_model(acc.last())
}

/// Whether position `i` opens a number: a digit, or a `-` that the
/// preceding token lets open a negative literal and that a digit
/// follows.
pub open spec fn starts_number(bytes: Seq<u8>, i: int, acc: Seq<Token>) -> bool
    recommends
        0 <= i < bytes.len(),
{
    is_digit(bytes[i]) || (bytes[i] == B_MINUS && next_can_start_negative(acc) && i + 1
        < bytes.len() && is_digit(bytes[i + 1]))
}

/// The tokens of the line from position `i` on, appended to `acc`:
/// blanks are skipped, `:` is the assignment marker, a digit run (with an
/// optional leading `-` where one may open a negative literal) is a
/// number, a lowercase letter is a global, and any other byte is carried
/// verbatim as a symbol.  `None` reports a literal too large for 64 bits.
pub open spec fn tokens_model(bytes: Seq<u8>, i: int, acc: Seq<Token>) -> Option<Seq<Token>>
    decreases bytes.len() - i when 0 <= i <= bytes.len() via tokens_model_decreases
{
    if i >= bytes.len() {
        Some(acc)
    } else if is_blank(bytes[i]) {
        tokens_model(bytes, i + 1, acc)
    } else if bytes[i] == B_COLON {
        tokens_model(bytes, i + 1, acc.push(Token::Colon))
    } else if starts_number(bytes, i, acc) {
        let start = if bytes[i] == B_MINUS {
            i + 1
        } else {
            i
        };
        match scan_digits(bytes, start, 0) {
            None => None,
            Some(p) => tokens_model(
                bytes,
                p.1,
                acc.push(
                    Token::Number(
                        if bytes[i] == B_MINUS {
                            (-p.0) as i64
                        } else {
                            p.0
                        },
                    ),
                ),
            ),
        }
    } else if is_lower(bytes[i]) {
        tokens_model(bytes, i + 1, acc.push(Token::Global(bytes[i])))
    } else {
        tokens_model(bytes, i + 1, acc.push(Token::Symbol(bytes[i])))
    }
}

#[via_fn]
proof fn tokens_model_decreases(bytes: Seq<u8>, i: int, acc: Seq<Token>) {
    if 0 <= i < bytes.len() && !is_blank(bytes[i]) && bytes[i] != B_COLON && starts_number(
        bytes,
        i,
        acc,
    ) {
        let start = if bytes[i] == B_MINUS {
            i + 1
        } else {
            i
        };
        lemma_scan_digits_bounds(bytes, start, 0);
    }
}

/// Turn one line of input into its token sequence, left to right.
/// `Err` reports a literal that overflows a 64-bit integer.
pub fn tokenize_line(line: &[u8]) -> (r: Result<Vec<Token>, ()>)
    ensures
        match r {
            Ok(tokens) => Some(tokens@) == tokens_model(line@, 0, Seq::empty())
                && forall|k: int| 0 <= k < tokens@.len() ==> token_wf(#[trigger] tokens@[k]),
            Err(_) => tokens_model(line@, 0, Seq::empty()) is None,
        },
{
    let n = line.len();
    let mut tokens: Vec<Token> = Vec::new();
    let mut index: usize = 0;

    while index < n
        invariant
            index <= n,
            n == line@.len(),
            tokens_model(line@, 0, Seq::empty()) == tokens_model(line@, index as int, tokens@),
            forall|k: int| 0 <= k < tokens@.len() ==> token_wf(#[trigger] tokens@[k]),
        decreases n - index,
    {
        let byte = line[index];

        // Skip whitespace.
        if byte == B_SPACE || byte == B_TAB || byte == B_LF || byte == B_FF || byte == B_CR {
            index += 1;
            continue;
        }

        // The assignment marker.
        if byte == B_COLON {
            tokens.push(Token::Colon);
            index += 1;
            continue;
        }

        // Whether a `-` here would open a negative literal.
        let can_negative = if tokens.len() == 0 {
            true
        } else {
            tokens[tokens.len() - 1].can_start_negative()
        };

        // Read a number.
        if (byte == B_MINUS && can_negative && index + 1 < n && B_ZERO <= line[index + 1]
            && line[index + 1] <= B_NINE) || (B_ZERO <= byte && byte <= B_NINE) {
            let ghost idx0 = index as int;
            let ghost tokens0 = tokens@;
            let negative = byte == B_MINUS;
            if negative {
                index += 1;
            }
            let ghost start = index as int;

            let mut value: i64 = 0;
            while index < n && B_ZERO <= line[index] && line[index] <= B_NINE
                invariant
                    0 <= idx0 <= start <= index <= n,
                    n == line@.len(),
                    value >= 0,
                    tokens@ == tokens0,
                    tokens_model(line@, 0, Seq::empty()) == tokens_model(line@, idx0, tokens0),
                    idx0 < n,
                    !is_blank(line@[idx0]),
                    line@[idx0] != B_COLON,
                    starts_number(line@, idx0, tokens0),
                    negative == (line@[idx0] == B_MINUS),
                    start == if negative {
                        idx0 + 1
                    } else {
                        idx0
                    },
                    scan_digits(line@, start, 0) == scan_digits(line@, index as int, value),
                decreases n - index,
            {
                let digit = (line[index] - B_ZERO) as i64;
                let stepped = match value.checked_mul(10) {
                    Some(v) => v.checked_add(digit),
                    None => None,
                };
                match stepped {
                    Some(v) => {
                        value = v;
                    },
                    None => {
                        // The literal passes `i64::MAX`: the line fails to
                        // tokenize.
                        proof {
                            assert(value * 10 + (line@[index as int] - B_ZERO) > i64::MAX);
                            assert(scan_digits(line@, index as int, value) is None);
                            assert(tokens_model(line@, idx0, tokens0) is None);
                        }
                        return Err(());
                    },
                }
                index += 1;
            }
            proof {
                assert(scan_digits(line@, start, 0) == Some((value, index as int)));
            }
            let number = if negative {
                -value
            } else {
                value
            };
            tokens.push(Token::Number(number));
            proof {
                assert(tokens@ =~= tokens0.push(Token::Number(number)));
                assert(tokens_model(line@, idx0, tokens0) == tokens_model(
                    line@,
                    index as int,
                    tokens@,
                ));
            }
            continue;
        }

        // Read a global variable.
        if B_LOWER_A <= byte && byte <= B_LOWER_Z {
            tokens.push(Token::Global(byte));
            index += 1;
            continue;
        }

        // Any other byte is carried verbatim as a symbol.
        tokens.push(Token::Symbol(byte));
        index += 1;
    }

    Ok(tokens)
}

} // verus!

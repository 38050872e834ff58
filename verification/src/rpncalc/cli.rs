//! The command parser: one raw input line becomes an ordered sequence of
//! commands.
//!
//! A zero-length read means the input has ended and yields `[Quit]`.  Any
//! other line is split on runs of whitespace; a line with no tokens yields
//! `[Empty]`, and otherwise every token, in order, is classified on its own:
//! a 64-bit float literal pushes its value, a mnemonic from the fixed table
//! names its operation, and anything else is `Unknown`.

use vstd::prelude::*;

use crate::rpncalc::numbers;

verus! {

/// One requested action, carrying a value only for `Push`.
///
/// The number pushed is an IEEE-754 binary64 value, carried as its 64-bit
/// pattern.
#[derive(Debug, Clone, Copy, PartialEq, Eq, Structural)]
pub enum CliOperation {
    Push(u64),
    Add,
    Subtract,
    Multiply,
    Divide,
    SquareRoot,
    AddAll,
    MultAll,
    Clear,
    List,
    Quit,
    Unknown,
    Help,
    ClearScreen,
    Empty,
}

/// One parsed command.
pub struct CliCmd {
    pub oper: CliOperation,
}

/// `c` is one of the White_Space characters, those that `char::is_whitespace`
/// accepts; a line of input splits on runs of them.
pub open spec fn is_space_char(c: char) -> bool {
    ||| c as u32 == 0x20
    ||| (0x09 <= c as u32 && c as u32 <= 0x0D)
    ||| c as u32 == 0x85
    ||| c as u32 == 0xA0
    ||| c as u32 == 0x1680
    ||| (0x2000 <= c as u32 && c as u32 <= 0x200A)
    ||| c as u32 == 0x2028
    ||| c as u32 == 0x2029
    ||| c as u32 == 0x202F
    ||| c as u32 == 0x205F
    ||| c as u32 == 0x3000
}

/// Whether `c` is a whitespace character.
fn space_char(c: char) -> (r: bool)
    ensures
        r == is_space_char(c),
{
    c as u32 == 0x20 || (0x09 <= c as u32 && c as u32 <= 0x0D) || c as u32 == 0x85 || c as u32
        == 0xA0 || c as u32 == 0x1680 || (0x2000 <= c as u32 && c as u32 <= 0x200A) || c as u32
        == 0x2028 || c as u32 == 0x2029 || c as u32 == 0x202F || c as u32 == 0x205F || c as u32
        == 0x3000
}

/// The token gathered so far, as a sequence of tokens: none if it is empty.
pub open spec fn pending_token(cur: Seq<char>) -> Seq<Seq<char>> {
    if cur.len() == 0 {
        Seq::empty()
    } else {
        seq![cur]
    }
}

/// The tokens of `s` when the characters of `cur` have just been read as the
/// start of a token: whitespace closes the gathered token, anything else
/// extends it.
pub open spec fn tokens_from(cur: Seq<char>, s: Seq<char>) -> Seq<Seq<char>>
    decreases s.len(),
{
    if s.len() == 0 {
        pending_token(cur)
    } else if is_space_char(s[0]) {
        pending_token(cur) + tokens_from(Seq::empty(), s.drop_first())
    } else {
        tokens_from(cur.push(s[0]), s.drop_first())
    }
}

/// The maximal whitespace-free tokens of the line, in order.
pub open spec fn tokens_of(s: Seq<char>) -> Seq<Seq<char>> {
    tokens_from(Seq::empty(), s)
}

/// Splits the line into its whitespace-separated tokens.
///
/// The result is stated index by index: it has exactly the tokens of the
/// line, in order.
pub fn tokenize(line: &Vec<char>) -> (r: Vec<Vec<char>>)
    ensures
        r@.len() == tokens_of(line@).len(),
        forall|k: int| 0 <= k < r@.len() ==> #[trigger] r@[k]@ == tokens_of(line@)[k],
{
    let mut toks: Vec<Vec<char>> = Vec::new();
    let mut cur: Vec<char> = Vec::new();
    let ghost mut done = Seq::<Seq<char>>::empty();
    let mut i: usize = 0;
    proof {
        assert(cur@ =~= Seq::<char>::empty());
        assert(line@.skip(0) =~= line@);
        assert(done + tokens_from(cur@, line@.skip(0)) =~= tokens_from(cur@, line@.skip(0)));
    }
    while i < line.len()
        invariant
            i <= line@.len(),
            toks@.len() == done.len(),
            forall|k: int| 0 <= k < toks@.len() ==> #[trigger] toks@[k]@ == done[k],
            tokens_of(line@) == done + tokens_from(cur@, line@.skip(i as int)),
        decreases line@.len() - i,
    {
        let c = line[i];
        let ghost rest = line@.skip(i as int);
        proof {
            assert(rest[0] == line@[i as int]);
            assert(rest.drop_first() =~= line@.skip(i as int + 1));
        }
        if space_char(c) {
            proof {
                assert(tokens_from(cur@, rest) == pending_token(cur@) + tokens_from(
                    Seq::empty(),
                    line@.skip(i as int + 1),
                ));
            }
            if cur.len() > 0 {
                let ghost cur_view = cur@;
                proof {
                    assert(pending_token(cur_view) =~= seq![cur_view]);
                    assert((done + (pending_token(cur_view) + tokens_from(
                        Seq::empty(),
                        line@.skip(i as int + 1),
                    ))) =~= (done.push(cur_view) + tokens_from(
                        Seq::empty(),
                        line@.skip(i as int + 1),
                    )));
                }
                toks.push(cur);
                cur = Vec::new();
                proof {
                    done = done.push(cur_view);
                    assert(cur@ =~= Seq::<char>::empty());
                }
            } else {
                proof {
                    assert(cur@ =~= Seq::<char>::empty());
                    assert((done + (pending_token(cur@) + tokens_from(
                        Seq::empty(),
                        line@.skip(i as int + 1),
                    ))) =~= (done + tokens_from(Seq::empty(), line@.skip(i as int + 1))));
                }
            }
        } else {
            proof {
                assert(tokens_from(cur@, rest) == tokens_from(
                    cur@.push(line@[i as int]),
                    line@.skip(i as int + 1),
                ));
            }
            cur.push(c);
        }
        i += 1;
    }
    proof {
        assert(line@.skip(line@.len() as int) =~= Seq::<char>::empty());
        assert(tokens_from(cur@, line@.skip(line@.len() as int)) == pending_token(cur@));
    }
    if cur.len() > 0 {
        proof {
            assert(pending_token(cur@) =~= seq![cur@]);
            assert((done + pending_token(cur@)) =~= done.push(cur@));
        }
        toks.push(cur);
    } else {
        proof {
            assert((done + pending_token(cur@)) =~= done);
        }
    }
    toks
}

/// The token names Add: `+`, `a` or `add`, letters in any case.
pub open spec fn is_add_token(t: Seq<char>) -> bool {
    ||| (t.len() == 1 && (t[0] == '+' || numbers::ci_char(t[0], 'a', 'A')))
    ||| (t.len() == 3 && numbers::ci_char(t[0], 'a', 'A') && numbers::ci_char(t[1], 'd', 'D')
        && numbers::ci_char(t[2], 'd', 'D'))
}

/// The token names Subtract: `-`, `s` or `sub`, letters in any case.
pub open spec fn is_subtract_token(t: Seq<char>) -> bool {
    ||| (t.len() == 1 && (t[0] == '-' || numbers::ci_char(t[0], 's', 'S')))
    ||| (t.len() == 3 && numbers::ci_char(t[0], 's', 'S') && numbers::ci_char(t[1], 'u', 'U')
        && numbers::ci_char(t[2], 'b', 'B'))
}

/// The token names Multiply: `*`, `x` or `mul`, letters in any case.
pub open spec fn is_multiply_token(t: Seq<char>) -> bool {
    ||| (t.len() == 1 && (t[0] == '*' || numbers::ci_char(t[0], 'x', 'X')))
    ||| (t.len() == 3 && numbers::ci_char(t[0], 'm', 'M') && numbers::ci_char(t[1], 'u', 'U')
        && numbers::ci_char(t[2], 'l', 'L'))
}

/// The token names Divide: `/`, `d` or `div`, letters in any case.
pub open spec fn is_divide_token(t: Seq<char>) -> bool {
    ||| (t.len() == 1 && (t[0] == '/' || numbers::ci_char(t[0], 'd', 'D')))
    ||| (t.len() == 3 && numbers::ci_char(t[0], 'd', 'D') && numbers::ci_char(t[1], 'i', 'I')
        && numbers::ci_char(t[2], 'v', 'V'))
}

/// The token names SquareRoot: `sqrt`, letters in any case.
pub open spec fn is_square_root_token(t: Seq<char>) -> bool {
    t.len() == 4 && numbers::ci_char(t[0], 's', 'S') && numbers::ci_char(t[1], 'q', 'Q')
        && numbers::ci_char(t[2], 'r', 'R') && numbers::ci_char(t[3], 't', 'T')
}

/// The token names AddAll: `++` or `aa`, letters in any case.
pub open spec fn is_add_all_token(t: Seq<char>) -> bool {
    t.len() == 2 && ((t[0] == '+' && t[1] == '+') || (numbers::ci_char(t[0], 'a', 'A')
        && numbers::ci_char(t[1], 'a', 'A')))
}

/// The token names MultAll: `**` or `xx`, letters in any case.
pub open spec fn is_mult_all_token(t: Seq<char>) -> bool {
    t.len() == 2 && ((t[0] == '*' && t[1] == '*') || (numbers::ci_char(t[0], 'x', 'X')
        && numbers::ci_char(t[1], 'x', 'X')))
}

/// The token names Clear: `c` or `clear`, letters in any case.
pub open spec fn is_clear_token(t: Seq<char>) -> bool {
    ||| (t.len() == 1 && numbers::ci_char(t[0], 'c', 'C'))
    ||| (t.len() == 5 && numbers::ci_char(t[0], 'c', 'C') && numbers::ci_char(t[1], 'l', 'L')
        && numbers::ci_char(t[2], 'e', 'E') && numbers::ci_char(t[3], 'a', 'A')
        && numbers::ci_char(t[4], 'r', 'R'))
}

/// The token names List: `p` or `print`, letters in any case.
pub open spec fn is_list_token(t: Seq<char>) -> bool {
    ||| (t.len() == 1 && numbers::ci_char(t[0], 'p', 'P'))
    ||| (t.len() == 5 && numbers::ci_char(t[0], 'p', 'P') && numbers::ci_char(t[1], 'r', 'R')
        && numbers::ci_char(t[2], 'i', 'I') && numbers::ci_char(t[3], 'n', 'N')
        && numbers::ci_char(t[4], 't', 'T'))
}

/// The token names Help: `h` or `help`, letters in any case.
pub open spec fn is_help_token(t: Seq<char>) -> bool {
    ||| (t.len() == 1 && numbers::ci_char(t[0], 'h', 'H'))
    ||| (t.len() == 4 && numbers::ci_char(t[0], 'h', 'H') && numbers::ci_char(t[1], 'e', 'E')
        && numbers::ci_char(t[2], 'l', 'L') && numbers::ci_char(t[3], 'p', 'P'))
}

/// The token names Quit: `q` or `quit`, letters in any case.
pub open spec fn is_quit_token(t: Seq<char>) -> bool {
    ||| (t.len() == 1 && numbers::ci_char(t[0], 'q', 'Q'))
    ||| (t.len() == 4 && numbers::ci_char(t[0], 'q', 'Q') && numbers::ci_char(t[1], 'u', 'U')
        && numbers::ci_char(t[2], 'i', 'I') && numbers::ci_char(t[3], 't', 'T'))
}

/// The token names ClearScreen: `cls`, letters in any case.
pub open spec fn is_clear_screen_token(t: Seq<char>) -> bool {
    t.len() == 3 && numbers::ci_char(t[0], 'c', 'C') && numbers::ci_char(t[1], 'l', 'L')
        && numbers::ci_char(t[2], 's', 'S')
}

/// The token names some operation of the mnemonic table.
pub open spec fn is_mnemonic_token(t: Seq<char>) -> bool {
    ||| is_add_token(t)
    ||| is_subtract_token(t)
    ||| is_multiply_token(t)
    ||| is_divide_token(t)
    ||| is_square_root_token(t)
    ||| is_add_all_token(t)
    ||| is_mult_all_token(t)
    ||| is_clear_token(t)
    ||| is_list_token(t)
    ||| is_help_token(t)
    ||| is_quit_token(t)
    ||| is_clear_screen_token(t)
}

/// The command one token names.  A 64-bit float literal pushes its value;
/// otherwise the mnemonic table decides, and a token that names nothing is
/// `Unknown`.
pub open spec fn classify_token(t: Seq<char>) -> CliOperation {
    if numbers::is_float_literal(t) {
        CliOperation::Push(numbers::literal_bits(t))
    } else if is_add_token(t) {
        CliOperation::Add
    } else if is_subtract_token(t) {
        CliOperation::Subtract
    } else if is_multiply_token(t) {
        CliOperation::Multiply
    } else if is_divide_token(t) {
        CliOperation::Divide
    } else if is_square_root_token(t) {
        CliOperation::SquareRoot
    } else if is_add_all_token(t) {
        CliOperation::AddAll
    } else if is_mult_all_token(t) {
        CliOperation::MultAll
    } else if is_clear_token(t) {
        CliOperation::Clear
    } else if is_list_token(t) {
        CliOperation::List
    } else if is_help_token(t) {
        CliOperation::Help
    } else if is_quit_token(t) {
        CliOperation::Quit
    } else if is_clear_screen_token(t) {
        CliOperation::ClearScreen
    } else {
        CliOperation::Unknown
    }
}

/// The commands of one raw line: `[Quit]` for a zero-length read, `[Empty]`
/// for a line with no tokens, and otherwise one command per token, in order.
pub open spec fn parse_line(s: Seq<char>) -> Seq<CliOperation> {
    if s.len() == 0 {
        seq![CliOperation::Quit]
    } else if tokens_of(s).len() == 0 {
        seq![CliOperation::Empty]
    } else {
        Seq::new(tokens_of(s).len(), |k: int| classify_token(tokens_of(s)[k]))
    }
}

/// The tokens joined into one line, with a single space between every two.
pub open spec fn join_tokens(ts: Seq<Seq<char>>) -> Seq<char>
    decreases ts.len(),
{
    if ts.len() == 0 {
        Seq::empty()
    } else if ts.len() == 1 {
        ts[0]
    } else {
        ts[0] + seq![' '] + join_tokens(ts.drop_first())
    }
}

/// Reading on through whitespace-free characters only grows the gathered
/// token.
proof fn lemma_tokens_from_extend(cur: Seq<char>, a: Seq<char>, b: Seq<char>)
    requires
        forall|i: int| 0 <= i < a.len() ==> !is_space_char(#[trigger] a[i]),
    ensures
        tokens_from(cur, a + b) == tokens_from(cur + a, b),
    decreases a.len(),
{
    if a.len() == 0 {
        assert(a + b =~= b);
        assert(cur + a =~= cur);
    } else {
        assert((a + b)[0] == a[0]);
        assert((a + b).drop_first() =~= a.drop_first() + b);
        lemma_tokens_from_extend(cur.push(a[0]), a.drop_first(), b);
        assert(cur.push(a[0]) + a.drop_first() =~= cur + a);
    }
}

/// A run of whitespace-free characters ends as one token: the gathered one,
/// extended by them all.
proof fn lemma_tokens_from_no_space(cur: Seq<char>, s: Seq<char>)
    requires
        forall|i: int| 0 <= i < s.len() ==> !is_space_char(#[trigger] s[i]),
        cur.len() + s.len() > 0,
    ensures
        tokens_from(cur, s) =~= seq![cur + s],
    decreases s.len(),
{
    if s.len() == 0 {
        assert(cur + s =~= cur);
    } else {
        lemma_tokens_from_no_space(cur.push(s[0]), s.drop_first());
        assert(cur.push(s[0]) + s.drop_first() =~= cur + s);
    }
}

/// A line that is exactly one token, with no whitespace in it, has that one
/// token.
pub proof fn lemma_tokens_of_single(t: Seq<char>)
    requires
        t.len() > 0,
        forall|i: int| 0 <= i < t.len() ==> !is_space_char(#[trigger] t[i]),
    ensures
        tokens_of(t) =~= seq![t],
{
    lemma_tokens_from_no_space(Seq::empty(), t);
    assert(Seq::empty() + t =~= t);
}

/// Tokenizing undoes joining: the tokens of a line joined from non-empty,
/// whitespace-free tokens are exactly those tokens, in order.
pub proof fn lemma_tokens_of_join(ts: Seq<Seq<char>>)
    requires
        forall|k: int| 0 <= k < ts.len() ==> (#[trigger] ts[k]).len() > 0,
        forall|k: int, i: int|
            0 <= k < ts.len() && 0 <= i < ts[k].len() ==> !is_space_char(#[trigger] ts[k][i]),
    ensures
        tokens_of(join_tokens(ts)) =~= ts,
    decreases ts.len(),
{
    if ts.len() == 0 {
        assert(tokens_of(Seq::empty()) =~= Seq::<Seq<char>>::empty());
    } else if ts.len() == 1 {
        lemma_tokens_of_single(ts[0]);
        assert(tokens_of(join_tokens(ts)) =~= seq![ts[0]]);
        assert(seq![ts[0]] =~= ts);
    } else {
        let rest = ts.drop_first();
        let j = join_tokens(rest);
        assert forall|k: int, i: int|
            0 <= k < rest.len() && 0 <= i < rest[k].len() implies !is_space_char(
            #[trigger] rest[k][i],
        ) by {
            assert(rest[k] == ts[k + 1]);
        }
        assert forall|k: int| 0 <= k < rest.len() implies (#[trigger] rest[k]).len() > 0 by {
            assert(rest[k] == ts[k + 1]);
        }
        lemma_tokens_of_join(rest);
        let tail = seq![' '] + j;
        assert(join_tokens(ts) =~= ts[0] + tail);
        lemma_tokens_from_extend(Seq::empty(), ts[0], tail);
        assert(Seq::empty() + ts[0] =~= ts[0]);
        assert(tail[0] == ' ');
        assert(is_space_char(' '));
        assert(tokens_from(ts[0], tail) == pending_token(ts[0]) + tokens_from(
            Seq::empty(),
            tail.drop_first(),
        ));
        assert(tail.drop_first() =~= j);
        assert(pending_token(ts[0]) =~= seq![ts[0]]);
        assert(tokens_of(join_tokens(ts)) =~= seq![ts[0]] + tokens_of(j));
        assert(seq![ts[0]] + rest =~= ts);
    }
}

/// A float literal is one whole token: it is not empty, and none of its
/// characters is whitespace — each is a digit, a point, an exponent marker,
/// a sign, or a letter of `inf`, `infinity` or `nan`.
pub proof fn lemma_literal_no_space(t: Seq<char>)
    requires
        numbers::is_float_literal(t),
    ensures
        t.len() > 0,
        forall|i: int| 0 <= i < t.len() ==> !is_space_char(#[trigger] t[i]),
{
    let m = numbers::magnitude_part(t);
    assert forall|i: int| 0 <= i < m.len() implies !is_space_char(#[trigger] m[i]) by {
        if numbers::is_number(m) {
            let k = choose|k: int| numbers::is_number_split_at(m, k);
            if i < k {
                assert(m.take(k)[i] == m[i]);
                assert(numbers::is_digit_char(m[i]) || m[i] == '.');
            } else if i == k {
                assert(m[k] == 'e' || m[k] == 'E');
            } else {
                let e = m.skip(k + 1);
                let d = numbers::exponent_digits(e);
                assert(e[i - k - 1] == m[i]);
                if e.len() > 0 && numbers::is_sign_char(e[0]) {
                    if i == k + 1 {
                        assert(numbers::is_sign_char(m[i]));
                    } else {
                        assert(d[i - k - 2] == e[i - k - 1]);
                        assert(numbers::is_digit_char(m[i]));
                    }
                } else {
                    assert(d[i - k - 1] == e[i - k - 1]);
                    assert(numbers::is_digit_char(m[i]));
                }
            }
        } else if numbers::is_inf_word(m) || numbers::is_nan_word(m) {
            assert(i == 0 || i == 1 || i == 2);
        } else {
            assert(numbers::is_infinity_word(m));
            assert(0 <= i < 8);
        }
    }
    if numbers::is_number(m) {
        let k = choose|k: int| numbers::is_number_split_at(m, k);
        assert(m.take(k).len() >= 1);
        assert(m.len() > 0);
    } else {
        assert(m.len() > 0);
    }
    if numbers::has_sign(t) {
        assert(t[0] == '+' || t[0] == '-');
        assert forall|i: int| 0 <= i < t.len() implies !is_space_char(#[trigger] t[i]) by {
            if i >= 1 {
                assert(m[i - 1] == t[i]);
            }
        }
    }
}

/// The command the token names, decided over its characters.
fn classify_chars(t: &Vec<char>) -> (r: CliOperation)
    ensures
        r == classify_token(t@),
{
    if numbers::is_float_token(t) {
        return CliOperation::Push(numbers::parse_float_token(t));
    }
    let n = t.len();
    if n == 1 {
        let c = t[0];
        if c == '+' || c == 'a' || c == 'A' {
            CliOperation::Add
        } else if c == '-' || c == 's' || c == 'S' {
            CliOperation::Subtract
        } else if c == '*' || c == 'x' || c == 'X' {
            CliOperation::Multiply
        } else if c == '/' || c == 'd' || c == 'D' {
            CliOperation::Divide
        } else if c == 'c' || c == 'C' {
            CliOperation::Clear
        } else if c == 'p' || c == 'P' {
            CliOperation::List
        } else if c == 'h' || c == 'H' {
            CliOperation::Help
        } else if c == 'q' || c == 'Q' {
            CliOperation::Quit
        } else {
            CliOperation::Unknown
        }
    } else if n == 2 {
        if (t[0] == '+' && t[1] == '+') || (numbers::ci(t[0], 'a', 'A') && numbers::ci(
            t[1],
            'a',
            'A',
        )) {
            CliOperation::AddAll
        } else if (t[0] == '*' && t[1] == '*') || (numbers::ci(t[0], 'x', 'X') && numbers::ci(
            t[1],
            'x',
            'X',
        )) {
            CliOperation::MultAll
        } else {
            CliOperation::Unknown
        }
    } else if n == 3 {
        if numbers::ci(t[0], 'a', 'A') && numbers::ci(t[1], 'd', 'D') && numbers::ci(
            t[2],
            'd',
            'D',
        ) {
            CliOperation::Add
        } else if numbers::ci(t[0], 's', 'S') && numbers::ci(t[1], 'u', 'U') && numbers::ci(
            t[2],
            'b',
            'B',
        ) {
            CliOperation::Subtract
        } else if numbers::ci(t[0], 'm', 'M') && numbers::ci(t[1], 'u', 'U') && numbers::ci(
            t[2],
            'l',
            'L',
        ) {
            CliOperation::Multiply
        } else if numbers::ci(t[0], 'd', 'D') && numbers::ci(t[1], 'i', 'I') && numbers::ci(
            t[2],
            'v',
            'V',
        ) {
            CliOperation::Divide
        } else if numbers::ci(t[0], 'c', 'C') && numbers::ci(t[1], 'l', 'L') && numbers::ci(
            t[2],
            's',
            'S',
        ) {
            CliOperation::ClearScreen
        } else {
            CliOperation::Unknown
        }
    } else if n == 4 {
        if numbers::ci(t[0], 's', 'S') && numbers::ci(t[1], 'q', 'Q') && numbers::ci(
            t[2],
            'r',
            'R',
        ) && numbers::ci(t[3], 't', 'T') {
            CliOperation::SquareRoot
        } else if numbers::ci(t[0], 'h', 'H') && numbers::ci(t[1], 'e', 'E') && numbers::ci(
            t[2],
            'l',
            'L',
        ) && numbers::ci(t[3], 'p', 'P') {
            CliOperation::Help
        } else if numbers::ci(t[0], 'q', 'Q') && numbers::ci(t[1], 'u', 'U') && numbers::ci(
            t[2],
            'i',
            'I',
        ) && numbers::ci(t[3], 't', 'T') {
            CliOperation::Quit
        } else {
            CliOperation::Unknown
        }
    } else if n == 5 {
        if numbers::ci(t[0], 'c', 'C') && numbers::ci(t[1], 'l', 'L') && numbers::ci(
            t[2],
            'e',
            'E',
        ) && numbers::ci(t[3], 'a', 'A') && numbers::ci(t[4], 'r', 'R') {
            CliOperation::Clear
        } else if numbers::ci(t[0], 'p', 'P') && numbers::ci(t[1], 'r', 'R') && numbers::ci(
            t[2],
            'i',
            'I',
        ) && numbers::ci(t[3], 'n', 'N') && numbers::ci(t[4], 't', 'T') {
            CliOperation::List
        } else {
            CliOperation::Unknown
        }
    } else {
        CliOperation::Unknown
    }
}

/// Relies on str::chars: it yields exactly the characters of the string, in
/// order, and those characters are the string's view.
#[verifier::external_body]
fn chars_of(s: &str) -> (r: Vec<char>)
    ensures
        r@ == s@,
{
    s.chars().collect()
}

impl CliCmd {
    /// Classifies one whitespace-free token into its command.
    pub fn parse_individual_raw_command(s: &str) -> (r: CliCmd)
        ensures
            r.oper == classify_token(s@),
    {
        let cs = chars_of(s);
        CliCmd { oper: classify_chars(&cs) }
    }

    /// Parses one raw line into its sequence of commands, never empty.
    pub fn from_raw_command(s: String) -> (r: Vec<CliCmd>)
        ensures
            r@.map_values(|c: CliCmd| c.oper) == parse_line(s@),
            r@.len() >= 1,
    {
        if s.as_str().is_empty() {
            // A zero-length read: the input has ended.
            let r = vec![CliCmd { oper: CliOperation::Quit }];
            proof {
                assert(r@.map_values(|c: CliCmd| c.oper) =~= parse_line(s@));
            }
            return r;
        }
        let cs = chars_of(s.as_str());
        let toks = tokenize(&cs);
        if toks.len() == 0 {
            let r = vec![CliCmd { oper: CliOperation::Empty }];
            proof {
                assert(r@.map_values(|c: CliCmd| c.oper) =~= parse_line(s@));
            }
            return r;
        }
        let mut cmds: Vec<CliCmd> = Vec::new();
        let mut i: usize = 0;
        while i < toks.len()
            invariant
                i <= toks@.len(),
                cmds@.len() == i,
                toks@.len() == tokens_of(cs@).len(),
                forall|k: int| 0 <= k < toks@.len() ==> #[trigger] toks@[k]@ == tokens_of(cs@)[k],
                forall|k: int|
                    0 <= k < i ==> (#[trigger] cmds@[k]).oper == classify_token(tokens_of(cs@)[k]),
            decreases toks@.len() - i,
        {
            let op = classify_chars(&toks[i]);
            cmds.push(CliCmd { oper: op });
            i += 1;
        }
        proof {
            assert(cmds@.map_values(|c: CliCmd| c.oper) =~= parse_line(s@));
        }
        cmds
    }

    /// A command that pushes `number` onto the stack.
    pub fn new_push_command(number: u64) -> (r: CliCmd)
        ensures
            r.oper == CliOperation::Push(number),
    {
        CliCmd { oper: CliOperation::Push(number) }
    }

    /// The Add command.
    pub fn new_add_command() -> (r: CliCmd)
        ensures
            r.oper == CliOperation::Add,
    {
        CliCmd { oper: CliOperation::Add }
    }

    /// The Multiply command.
    pub fn new_multiply_command() -> (r: CliCmd)
        ensures
            r.oper == CliOperation::Multiply,
    {
        CliCmd { oper: CliOperation::Multiply }
    }

    /// The Divide command.
    pub fn new_divide_command() -> (r: CliCmd)
        ensures
            r.oper == CliOperation::Divide,
    {
        CliCmd { oper: CliOperation::Divide }
    }

    /// The Subtract command.
    pub fn new_subtract_command() -> (r: CliCmd)
        ensures
            r.oper == CliOperation::Subtract,
    {
        CliCmd { oper: CliOperation::Subtract }
    }

    /// The SquareRoot command.
    pub fn new_square_root_command() -> (r: CliCmd)
        ensures
            r.oper == CliOperation::SquareRoot,
    {
        CliCmd { oper: CliOperation::SquareRoot }
    }

    /// The AddAll command.
    pub fn new_add_all_command() -> (r: CliCmd)
        ensures
            r.oper == CliOperation::AddAll,
    {
        CliCmd { oper: CliOperation::AddAll }
    }

    /// The MultAll command.
    pub fn new_mult_all_command() -> (r: CliCmd)
        ensures
            r.oper == CliOperation::MultAll,
    {
        CliCmd { oper: CliOperation::MultAll }
    }

    /// The Clear command.
    pub fn new_clear_command() -> (r: CliCmd)
        ensures
            r.oper == CliOperation::Clear,
    {
        CliCmd { oper: CliOperation::Clear }
    }

    /// The List command.
    pub fn new_list_command() -> (r: CliCmd)
        ensures
            r.oper == CliOperation::List,
    {
        CliCmd { oper: CliOperation::List }
    }

    /// The Help command.
    pub fn new_help_command() -> (r: CliCmd)
        ensures
            r.oper == CliOperation::Help,
    {
        CliCmd { oper: CliOperation::Help }
    }

    /// The Quit command.
    pub fn new_quit_command() -> (r: CliCmd)
        ensures
            r.oper == CliOperation::Quit,
    {
        CliCmd { oper: CliOperation::Quit }
    }

    /// The ClearScreen command.
    pub fn new_clear_screen_command() -> (r: CliCmd)
        ensures
            r.oper == CliOperation::ClearScreen,
    {
        CliCmd { oper: CliOperation::ClearScreen }
    }

    /// The Unknown command.
    pub fn new_unknown_command() -> (r: CliCmd)
        ensures
            r.oper == CliOperation::Unknown,
    {
        CliCmd { oper: CliOperation::Unknown }
    }

    /// The Empty command.
    pub fn new_empty_command() -> (r: CliCmd)
        ensures
            r.oper == CliOperation::Empty,
    {
        CliCmd { oper: CliOperation::Empty }
    }
}

/// The interactive session's state: whether it keeps running, and the prompt
/// glyph it shows.  Reading the terminal and printing belong to the program
/// around the library; this type owns the decisions.
pub struct Cli {
    keep_running: bool,
    cursor_character: char,
}

impl Cli {
    /// Whether the session keeps running.
    pub closed spec fn is_running(&self) -> bool {
        self.keep_running
    }

    /// The prompt glyph.
    pub closed spec fn cursor(&self) -> char {
        self.cursor_character
    }

    /// A session that is running and prompts with `>`.
    pub fn new() -> (r: Cli)
        ensures
            r.is_running(),
            r.cursor() == '>',
    {
        Cli { keep_running: true, cursor_character: '>' }
    }

    /// Whether the session keeps running.
    pub fn keep_running(&self) -> (r: bool)
        ensures
            r == self.is_running(),
    {
        self.keep_running
    }

    /// The prompt glyph to show before a read.
    pub fn cursor_character(&self) -> (r: char)
        ensures
            r == self.cursor(),
    {
        self.cursor_character
    }

    /// Parses one raw line, read from the terminal by the caller, into its
    /// commands, and stops the session when the line's first command is
    /// Quit.
    pub fn read_new_command(&mut self, raw_cmd: &str) -> (cmds: Vec<CliCmd>)
        ensures
            cmds@.map_values(|c: CliCmd| c.oper) == parse_line(raw_cmd@),
            cmds@.len() >= 1,
            final(self).is_running() == (old(self).is_running() && !(cmds@[0].oper
                == CliOperation::Quit)),
            final(self).cursor() == old(self).cursor(),
    {
        let cmds = CliCmd::from_raw_command(raw_cmd.to_owned());
        if cmds[0].oper == CliOperation::Quit {
            self.keep_running = false;
        }
        cmds
    }
}

impl Default for Cli {
    /// A fresh session, as `new` makes it.
    fn default() -> (r: Self)
        ensures
            r.is_running(),
            r.cursor() == '>',
    {
        Self::new()
    }
}

} // verus!

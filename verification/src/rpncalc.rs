//! The calculator: a stack of binary64 numbers and the commands that drive
//! it.
//!
//! The stack holds IEEE-754 binary64 values, each carried as its 64-bit
//! pattern; the top of the stack is the last element.  `cli` parses one raw
//! line into commands, `calculator` applies them in order.

pub mod calculator;
pub mod cli;
pub mod numbers;

use vstd::prelude::*;

verus! {

/// A calculator session: its stack, created empty, owned for the whole
/// session and changed only by the evaluator's commands.
pub struct RpnCalc {
    pub(crate) stack: Vec<u64>,
}

impl View for RpnCalc {
    type V = Seq<u64>;

    /// A calculator is its stack, bottom first.
    closed spec fn view(&self) -> Seq<u64> {
        self.stack@
    }
}

impl RpnCalc {
    /// A calculator with an empty stack.
    pub fn new() -> (r: RpnCalc)
        ensures
            r@ == Seq::<u64>::empty(),
    {
        RpnCalc { stack: Vec::new() }
    }

    /// A fresh interactive session for this calculator.
    pub fn cli() -> (r: cli::Cli)
        ensures
            r.is_running(),
            r.cursor() == '>',
    {
        cli::Cli::new()
    }

    /// Applies the commands of one parsed line to the stack, in order.
    pub fn process(&mut self, cmds: Vec<cli::CliCmd>)
        ensures
            final(self)@ == calculator::steps(
                old(self)@,
                cmds@.map_values(|c: cli::CliCmd| c.oper),
            ),
    {
        let ghost s0 = self@;
        let ghost ops = cmds@.map_values(|c: cli::CliCmd| c.oper);
        let mut i: usize = 0;
        proof {
            assert(ops.take(0) =~= Seq::<cli::CliOperation>::empty());
        }
        while i < cmds.len()
            invariant
                i <= cmds@.len(),
                ops == cmds@.map_values(|c: cli::CliCmd| c.oper),
                ops.len() == cmds@.len(),
                self@ == calculator::steps(s0, ops.take(i as int)),
            decreases cmds@.len() - i,
        {
            proof {
                assert(ops.take(i as int + 1).drop_last() =~= ops.take(i as int));
                assert(ops.take(i as int + 1).last() == ops[i as int]);
            }
            calculator::process(self, &cmds[i]);
            i += 1;
        }
        proof {
            assert(ops.take(ops.len() as int) =~= ops);
        }
    }

    /// The stack, bottom first; each element is the bit pattern of one
    /// binary64 number.
    pub fn stack(&self) -> (r: &Vec<u64>)
        ensures
            r@ == self@,
    {
        &self.stack
    }
}

/// A valid float literal, given as a whole line, parses to exactly one Push
/// of its value, and applying that Push appends exactly that value to the
/// stack.
pub proof fn lemma_push_literal(s: Seq<u64>, t: Seq<char>)
    requires
        numbers::is_float_literal(t),
    ensures
        cli::parse_line(t) == seq![cli::CliOperation::Push(numbers::literal_bits(t))],
        calculator::steps(s, cli::parse_line(t)) == s.push(numbers::literal_bits(t)),
{
    reveal_with_fuel(calculator::steps, 2);
    cli::lemma_literal_no_space(t);
    cli::lemma_tokens_of_single(t);
    assert(cli::parse_line(t) =~= seq![cli::classify_token(t)]);
    let ops = seq![cli::CliOperation::Push(numbers::literal_bits(t))];
    assert(ops.drop_last() =~= Seq::<cli::CliOperation>::empty());
}

/// A token that is neither a float literal nor a mnemonic of the table,
/// given as a whole line, parses to exactly one Unknown, and Unknown never
/// changes the stack.
pub proof fn lemma_unknown_token(s: Seq<u64>, t: Seq<char>)
    requires
        t.len() > 0,
        forall|i: int| 0 <= i < t.len() ==> !cli::is_space_char(#[trigger] t[i]),
        !numbers::is_float_literal(t),
        !cli::is_mnemonic_token(t),
    ensures
        cli::parse_line(t) == seq![cli::CliOperation::Unknown],
        calculator::steps(s, cli::parse_line(t)) == s,
{
    reveal_with_fuel(calculator::steps, 2);
    cli::lemma_tokens_of_single(t);
    assert(cli::parse_line(t) =~= seq![cli::classify_token(t)]);
    let ops = seq![cli::CliOperation::Unknown];
    assert(ops.drop_last() =~= Seq::<cli::CliOperation>::empty());
}

/// The stack after feeding each token as its own line, in order.
pub open spec fn steps_of_lines(s: Seq<u64>, ts: Seq<Seq<char>>) -> Seq<u64>
    decreases ts.len(),
{
    if ts.len() == 0 {
        s
    } else {
        calculator::steps(steps_of_lines(s, ts.drop_last()), cli::parse_line(ts.last()))
    }
}

/// One line holding many tokens ends in the same stack as the same tokens
/// given as one single-token line each, in the same order.
pub proof fn lemma_line_equals_token_lines(s: Seq<u64>, ts: Seq<Seq<char>>)
    requires
        ts.len() > 0,
        forall|k: int| 0 <= k < ts.len() ==> (#[trigger] ts[k]).len() > 0,
        forall|k: int, i: int|
            0 <= k < ts.len() && 0 <= i < ts[k].len() ==> !cli::is_space_char(
                #[trigger] ts[k][i],
            ),
    ensures
        calculator::steps(s, cli::parse_line(cli::join_tokens(ts))) == steps_of_lines(s, ts),
    decreases ts.len(),
{
    cli::lemma_tokens_of_join(ts);
    let line = cli::join_tokens(ts);
    assert(line.len() > 0) by {
        if line.len() == 0 {
            assert(cli::tokens_of(line) =~= Seq::<Seq<char>>::empty());
        }
    }
    let cmds = cli::parse_line(line);
    assert(cmds =~= Seq::new(ts.len(), |k: int| cli::classify_token(ts[k])));
    if ts.len() == 1 {
        cli::lemma_tokens_of_single(ts[0]);
        assert(cli::parse_line(ts[0]) =~= Seq::new(
            ts.len(),
            |k: int| cli::classify_token(ts[k]),
        ));
        assert(steps_of_lines(s, ts.drop_last()) == s);
    } else {
        let front = ts.drop_last();
        assert forall|k: int| 0 <= k < front.len() implies (#[trigger] front[k]).len() > 0 by {
            assert(front[k] == ts[k]);
        }
        assert forall|k: int, i: int|
            0 <= k < front.len() && 0 <= i < front[k].len() implies !cli::is_space_char(
            #[trigger] front[k][i],
        ) by {
            assert(front[k] == ts[k]);
        }
        lemma_line_equals_token_lines(s, front);
        cli::lemma_tokens_of_join(front);
        let front_cmds = cli::parse_line(cli::join_tokens(front));
        assert(front_cmds =~= Seq::new(front.len(), |k: int| cli::classify_token(front[k])));
        let last_cmd = cli::classify_token(ts.last());
        assert(cmds =~= front_cmds + seq![last_cmd]);
        calculator::lemma_steps_append(s, front_cmds, seq![last_cmd]);
        assert(seq![last_cmd].drop_last() =~= Seq::<cli::CliOperation>::empty());
        cli::lemma_tokens_of_single(ts.last());
        assert(cli::parse_line(ts.last()) =~= seq![last_cmd]);
        assert(calculator::steps(steps_of_lines(s, front), cli::parse_line(ts.last()))
            == steps_of_lines(s, ts));
    }
}

impl Default for RpnCalc {
    /// A calculator with an empty stack, as `new` makes it.
    fn default() -> (r: Self)
        ensures
            r@ == Seq::<u64>::empty(),
    {
        Self::new()
    }
}

} // verus!

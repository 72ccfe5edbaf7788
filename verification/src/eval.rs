//! The evaluator: one loop that classifies each token as a literal, a
//! variable or a command, and executes it against the operand stack and the
//! variable store. Its contract is a big-step relation over the interpreter's
//! model: exact for every literal and for each command that does not
//! re-enter the evaluator, and a frame condition for the re-entrant ones.
use crate::env::{env_insert, env_lookup, env_remove, Env, EnvModel};
use crate::host;
use crate::num;
use crate::num::{lt_bits_m, num_add, num_div, num_i32, num_mul, num_of_nat, num_rem, num_sub};
use crate::strings::{dup_str, str_eq, views_of};
use crate::tokenize;
use crate::tokenize::{tokenize, unescape};
use crate::value::{models, to_bool_m, to_list_m, to_num_m, to_text_m, ValModel, Value};
use vstd::prelude::*;

verus! {

broadcast use
    vstd::std_specs::vec::axiom_vec_index_decreases,
    vstd::std_specs::vec::axiom_vec_decreases_to_view,
    vstd::seq::axiom_seq_index_decreases;

/// How deep nested evaluations may go before the guard trips; a bound the
/// host's own call stack could not outlive anyway.
pub const DEFAULT_FUEL: u64 = 300;

/// The execution mode: Debug traces each step, Script stays silent. It has
/// no effect on what programs compute.
#[derive(Clone, Copy, PartialEq, Eq, Structural)]
pub enum Mode {
    Script,
    Debug,
}

/// The model of one interpreter instance: the operand stack, the variable
/// store, the mode, the launch arguments, and the exit status once the
/// program has asked to stop.
#[verifier::ext_equal]
pub struct SM {
    /// The operand stack, top last.
    pub stack: Seq<ValModel>,
    /// The variable store.
    pub mem: EnvModel,
    /// The tracing mode.
    pub mode: Mode,
    /// The process launch arguments.
    pub args: Seq<Seq<char>>,
    /// The status the `exit` command asked for, if it ran.
    pub halt: Option<i32>,
}

/// Popping with the underflow recovery rule: an empty stack yields an empty
/// text instead of failing.
pub open spec fn pop_v(s: Seq<ValModel>) -> (Seq<ValModel>, ValModel) {
    if s.len() == 0 {
        (s, ValModel::Text(Seq::<char>::empty()))
    } else {
        (s.drop_last(), s.last())
    }
}

/// Two pops: the top, then the value under it.
pub open spec fn pop2_v(s: Seq<ValModel>) -> (Seq<ValModel>, ValModel, ValModel) {
    let (t1, b) = pop_v(s);
    let (t2, a) = pop_v(t1);
    (t2, a, b)
}

/// Three pops, top first.
pub open spec fn pop3_v(s: Seq<ValModel>) -> (Seq<ValModel>, ValModel, ValModel, ValModel) {
    let (t1, c) = pop_v(s);
    let (t2, b) = pop_v(t1);
    let (t3, a) = pop_v(t2);
    (t3, a, b, c)
}

/// What never changes under one token: the mode and the launch arguments.
pub open spec fn frame_ok(s0: SM, s1: SM) -> bool {
    s1.mode == s0.mode && s1.args == s0.args
}

/// The models of a sequence of texts, each wrapped as a Text value.
pub open spec fn texts_of(l: Seq<Seq<char>>) -> Seq<ValModel> {
    Seq::new(l.len(), |i: int| ValModel::Text(l[i]))
}

/// The bits of the Number at position `i` of `l`.
pub open spec fn num_at(l: Seq<ValModel>, i: int) -> u64 {
    l[i]->Number_0
}

/// What the `range` command builds: the arithmetic sequence from `mn` in
/// steps of `st`, each element below `mx`, stopped where the next candidate
/// reaches `mx` or the step stops making forward progress — so a step that
/// never progresses gives the empty list. The iteration-count guard is the
/// only other way out, after more elements than any run will see.
pub open spec fn range_seq_ok(l: Seq<ValModel>, mn: u64, mx: u64, st: u64) -> bool {
    &&& (l.len() > 0 ==> l[0] == ValModel::Number(mn))
    &&& (forall|i: int|
        0 <= i < l.len() - 1 ==> l[i + 1] == ValModel::Number(
            crate::num::num_add(#[trigger] num_at(l, i), st),
        ))
    &&& (forall|i: int| 0 <= i < l.len() ==> lt_bits_m(#[trigger] num_at(l, i), mx))
    &&& (l.len() == 0 ==> !lt_bits_m(mn, mx) || !lt_bits_m(mn, crate::num::num_add(mn, st)))
    &&& (l.len() > 0 ==> {
        let nx = crate::num::num_add(num_at(l, l.len() - 1), st);
        ||| !lt_bits_m(nx, mx)
        ||| !lt_bits_m(nx, crate::num::num_add(nx, st))
        ||| l.len() == 0xFFFF_FFFF_FFFF_FFFFu64 as int
    })
}

/// The interpreter.
pub struct Executor {
    stack: Vec<Value>,
    memory: Env,
    mode: Mode,
    args: Vec<String>,
    halt: Option<i32>,
}

impl Executor {
    /// The model of this interpreter.
    pub closed spec fn sm(&self) -> SM {
        SM {
            stack: models(self.stack@),
            mem: self.memory.model(),
            mode: self.mode,
            args: views_of(self.args@),
            halt: self.halt,
        }
    }

    /// A fresh interpreter: empty stack, empty store, no arguments, running.
    pub fn new(mode: Mode) -> (r: Executor)
        ensures
            r.sm() == (SM {
                stack: Seq::<ValModel>::empty(),
                mem: Seq::<(Seq<char>, ValModel)>::empty(),
                mode,
                args: Seq::<Seq<char>>::empty(),
                halt: None::<i32>,
            }),
    {
        let e = Executor {
            stack: Vec::new(),
            memory: Env::new(),
            mode,
            args: Vec::new(),
            halt: None,
        };
        proof {
            assert(e.sm() =~~= (SM {
                stack: Seq::<ValModel>::empty(),
                mem: Seq::<(Seq<char>, ValModel)>::empty(),
                mode,
                args: Seq::<Seq<char>>::empty(),
                halt: None::<i32>,
            }));
        }
        e
    }

    /// Hands the interpreter the process launch arguments that the
    /// `args-cmd` command reports.
    pub fn set_args(&mut self, args: Vec<String>)
        ensures
            final(self).sm() == (SM { args: views_of(args@), ..old(self).sm() }),
    {
        self.args = args;
        proof {
            assert(self.sm() =~~= (SM { args: views_of(self.args@), ..old(self).sm() }));
        }
    }

    /// The operand stack, for callers that inspect results.
    pub fn stack(&self) -> (r: &Vec<Value>)
        ensures
            models(r@) == self.sm().stack,
    {
        &self.stack
    }

    /// The exit status the program asked for, if any.
    pub fn halt_status(&self) -> (r: Option<i32>)
        ensures
            r == self.sm().halt,
    {
        self.halt
    }

    /// Writes a message to standard output in Debug mode, and nothing in
    /// Script mode.
    fn log_print(&self, msg: &str) {
        if matches!(self.mode, Mode::Debug) {
            host::emit(msg);
        }
    }

    /// Pops the top of the stack; on an empty stack it logs a diagnostic and
    /// substitutes an empty text, the universal recovery rule.
    pub fn pop_stack(&mut self) -> (r: Value)
        ensures
            final(self).sm() == (SM { stack: pop_v(old(self).sm().stack).0, ..old(self).sm() }),
            r.model() == pop_v(old(self).sm().stack).1,
    {
        let popped = self.stack.pop();
        match popped {
            Some(v) => {
                proof {
                    assert(models(self.stack@) =~= pop_v(old(self).sm().stack).0);
                    assert(self.sm() =~~= (SM {
                        stack: pop_v(old(self).sm().stack).0,
                        ..old(self).sm()
                    }));
                }
                v
            },
            None => {
                self.log_print(
                    "Error! There are not enough values on the stack. returns default value\n",
                );
                let r = String::from_str("");
                proof {
                    reveal_strlit("");
                    assert(r@ =~= Seq::<char>::empty());
                    assert(models(self.stack@) =~= pop_v(old(self).sm().stack).0);
                    assert(self.sm() =~~= (SM {
                        stack: pop_v(old(self).sm().stack).0,
                        ..old(self).sm()
                    }));
                }
                Value::Text(r)
            },
        }
    }

    /// Pushes one value.
    fn push_val(&mut self, v: Value)
        ensures
            final(self).sm() == (SM { stack: old(self).sm().stack.push(v.model()), ..old(self).sm() }),
    {
        let ghost vm = v.model();
        self.stack.push(v);
        proof {
            assert(models(self.stack@) =~= old(self).sm().stack.push(vm));
            assert(self.sm() =~~= (SM {
                stack: old(self).sm().stack.push(vm),
                ..old(self).sm()
            }));
        }
    }
}


/// The renderings `parts`, joined by `sep`.
pub open spec fn joined(parts: Seq<Seq<char>>, sep: Seq<char>) -> Seq<char>
    decreases parts.len(),
{
    if parts.len() == 0 {
        Seq::<char>::empty()
    } else if parts.len() == 1 {
        parts[0]
    } else {
        parts[0] + sep + joined(parts.subrange(1, parts.len() as int), sep)
    }
}

/// Joining one more part at the end.
pub proof fn lemma_joined_push(parts: Seq<Seq<char>>, sep: Seq<char>, x: Seq<char>)
    ensures
        joined(parts.push(x), sep) == if parts.len() == 0 {
            x
        } else {
            joined(parts, sep) + sep + x
        },
    decreases parts.len(),
{
    if parts.len() == 0 {
        assert(parts.push(x) =~= seq![x]);
    } else {
        let lp = parts.push(x);
        assert(lp.subrange(1, lp.len() as int) =~= parts.subrange(1, parts.len() as int).push(x));
        lemma_joined_push(parts.subrange(1, parts.len() as int), sep, x);
        if parts.len() == 1 {
            assert(parts.subrange(1, parts.len() as int) =~= Seq::<Seq<char>>::empty());
            assert(joined(lp, sep) == parts[0] + sep + x);
        } else {
            assert(joined(lp, sep) =~= joined(parts, sep) + sep + x);
        }
    }
}

/// The text the `repeat` command builds: `s`, `n` times over.
pub open spec fn repeat_m(s: Seq<char>, n: nat) -> Seq<char>
    decreases n,
{
    if n == 0 {
        Seq::<char>::empty()
    } else {
        repeat_m(s, (n - 1) as nat) + s
    }
}

/// The first position at or after `i` whose element reads as the text `t`,
/// or the length when none does.
pub open spec fn find_text_at(l: Seq<ValModel>, t: Seq<char>, i: int) -> int
    decreases l.len() - i,
{
    if i < 0 || i >= l.len() {
        l.len() as int
    } else if to_text_m(l[i]) == t {
        i
    } else {
        find_text_at(l, t, i + 1)
    }
}

/// A code point that names a character: not a surrogate and not past the
/// last plane.
pub open spec fn valid_code(c: u32) -> bool {
    c < 0xD800 || (0xE000 <= c && c <= 0x10FFFF)
}

/// Sorted weakly ascending in the lexicographic order.
pub open spec fn sorted_lex(p: Seq<Seq<char>>) -> bool {
    forall|i: int, j: int| 0 <= i < j < p.len() ==> !crate::strings::lex_lt(#[trigger] p[j], #[trigger] p[i])
}

/// One token's effect: what the evaluator does with `tok` between the
/// states `s0` and `s1`. Exact for every literal, variable, comment and
/// non-re-entrant command; a token that re-enters the evaluator (a list
/// literal evaluates its interior) promises the frame.
pub open spec fn token_rel(s0: SM, tok: Seq<char>, s1: SM) -> bool {
    if s0.halt is Some {
        s1 == s0
    } else if num::parse_literal_m(tok) is Some {
        s1 == (SM { stack: s0.stack.push(ValModel::Number(num::parse_literal_m(tok)->Some_0)), ..s0 })
    } else if tok == "true"@ || tok == "false"@ {
        s1 == (SM { stack: s0.stack.push(ValModel::Bool(tok == "true"@)), ..s0 })
    } else if tok.len() >= 1 && tok[0] == '(' && tok.last() == ')' {
        s1 == (SM {
            stack: s0.stack.push(ValModel::Text(unescape(tok.subrange(1, tok.len() - 1)))),
            ..s0
        })
    } else if tok.len() >= 1 && tok[0] == '[' && tok.last() == ']' {
        frame_ok(s0, s1) && (s1.stack.len() > 0 && s1.halt is None ==> s1.stack.last() is List)
    } else if tok.len() >= 6 && tok.subrange(0, 6) == "error:"@ {
        s1 == (SM {
            stack: s0.stack.push(
                ValModel::Error(crate::strings::replace_of(tok, "error:"@, Seq::<char>::empty())),
            ),
            ..s0
        })
    } else if env_lookup(s0.mem, tok) is Some {
        s1 == (SM { stack: s0.stack.push(env_lookup(s0.mem, tok)->Some_0), ..s0 })
    } else if tok.len() >= 1 && tok[0] == '#' && tok.last() == '#' {
        s1 == s0
    } else {
        cmd_rel(s0, tok, s1)
    }
}

/// One step of `chain`: position `i` relates to `i + 1` under token `i`.
pub open spec fn chain_ok(trace: Seq<SM>, toks: Seq<Seq<char>>) -> bool {
    &&& trace.len() == toks.len() + 1
    &&& forall|i: int| 0 <= i < toks.len() ==> token_rel(trace[i], toks[i], #[trigger] trace[i + 1])
}

/// A whole token sequence's effect: some chain of intermediate states joins
/// `s0` to `s1`, one `token_rel` step per token.
pub open spec fn tokens_rel(s0: SM, toks: Seq<Seq<char>>, s1: SM) -> bool {
    exists|trace: Seq<SM>|
        #[trigger] chain_ok(trace, toks) && trace[0] == s0 && trace[toks.len() as int] == s1
}

/// One command's effect between the states `s0` and `s1`: the arms mirror
/// the command table in its dispatch order. Arguments pop from the top of
/// the stack in right-to-left order, coerced by the value model's total
/// coercions; every failure is an Error value pushed back. The commands that
/// re-evaluate code (`eval`, `if` with its branch, and the loop and
/// combinator commands) re-enter the evaluator and promise the frame: the
/// mode and the launch arguments never change.
pub open spec fn cmd_rel(s0: SM, cmd: Seq<char>, s1: SM) -> bool {
    if cmd == "add"@ {
        let (t, a, b) = pop2_v(s0.stack);
        s1 == (SM { stack: t.push(ValModel::Number(num_add(to_num_m(a), to_num_m(b)))), ..s0 })
    } else if cmd == "sub"@ {
        let (t, a, b) = pop2_v(s0.stack);
        s1 == (SM { stack: t.push(ValModel::Number(num_sub(to_num_m(a), to_num_m(b)))), ..s0 })
    } else if cmd == "mul"@ {
        let (t, a, b) = pop2_v(s0.stack);
        s1 == (SM { stack: t.push(ValModel::Number(num_mul(to_num_m(a), to_num_m(b)))), ..s0 })
    } else if cmd == "div"@ {
        let (t, a, b) = pop2_v(s0.stack);
        s1 == (SM { stack: t.push(ValModel::Number(num_div(to_num_m(a), to_num_m(b)))), ..s0 })
    } else if cmd == "mod"@ {
        let (t, a, b) = pop2_v(s0.stack);
        s1 == (SM { stack: t.push(ValModel::Number(num_rem(to_num_m(a), to_num_m(b)))), ..s0 })
    } else if cmd == "pow"@ {
        let (t, a, b) = pop2_v(s0.stack);
        s1 == (SM { stack: t.push(ValModel::Number(num::num_pow(to_num_m(a), to_num_m(b)))), ..s0 })
    } else if cmd == "round"@ {
        let (t, a) = pop_v(s0.stack);
        s1 == (SM { stack: t.push(ValModel::Number(num::num_round(to_num_m(a)))), ..s0 })
    } else if cmd == "sin"@ {
        let (t, a) = pop_v(s0.stack);
        s1 == (SM { stack: t.push(ValModel::Number(num::num_sin(to_num_m(a)))), ..s0 })
    } else if cmd == "cos"@ {
        let (t, a) = pop_v(s0.stack);
        s1 == (SM { stack: t.push(ValModel::Number(num::num_cos(to_num_m(a)))), ..s0 })
    } else if cmd == "tan"@ {
        let (t, a) = pop_v(s0.stack);
        s1 == (SM { stack: t.push(ValModel::Number(num::num_tan(to_num_m(a)))), ..s0 })
    } else if cmd == "exp"@ {
        let (t, a) = pop_v(s0.stack);
        s1 == (SM { stack: t.push(ValModel::Number(num::num_exp(to_num_m(a)))), ..s0 })
    } else if cmd == "and"@ {
        let (t, a, b) = pop2_v(s0.stack);
        s1 == (SM { stack: t.push(ValModel::Bool(to_bool_m(a) && to_bool_m(b))), ..s0 })
    } else if cmd == "or"@ {
        let (t, a, b) = pop2_v(s0.stack);
        s1 == (SM { stack: t.push(ValModel::Bool(to_bool_m(a) || to_bool_m(b))), ..s0 })
    } else if cmd == "not"@ {
        let (t, a) = pop_v(s0.stack);
        s1 == (SM { stack: t.push(ValModel::Bool(!to_bool_m(a))), ..s0 })
    } else if cmd == "equal"@ {
        let (t, a, b) = pop2_v(s0.stack);
        s1 == (SM { stack: t.push(ValModel::Bool(to_text_m(a) == to_text_m(b))), ..s0 })
    } else if cmd == "less"@ {
        let (t, a, b) = pop2_v(s0.stack);
        s1 == (SM { stack: t.push(ValModel::Bool(lt_bits_m(to_num_m(a), to_num_m(b)))), ..s0 })
    } else if cmd == "rand"@ {
        let (t, a) = pop_v(s0.stack);
        let l = to_list_m(a);
        if l.len() == 0 {
            s1 == (SM { stack: t.push(ValModel::List(l)), ..s0 })
        } else {
            exists|i: int|
                0 <= i < l.len() && s1 == (SM { stack: t.push(#[trigger] l[i]), ..s0 })
        }
    } else if cmd == "shuffle"@ {
        let (t, a) = pop_v(s0.stack);
        exists|l2: Seq<ValModel>|
            (#[trigger] l2.to_multiset()) == to_list_m(a).to_multiset() && s1 == (SM {
                stack: t.push(ValModel::List(l2)),
                ..s0
            })
    } else if cmd == "repeat"@ {
        let (t, a, b) = pop2_v(s0.stack);
        s1 == (SM {
            stack: t.push(
                ValModel::Text(repeat_m(to_text_m(a), num::num_usize(to_num_m(b)) as nat)),
            ),
            ..s0
        })
    } else if cmd == "decode"@ {
        let (t, a) = pop_v(s0.stack);
        let code = num::num_u32(to_num_m(a));
        if valid_code(code) {
            &&& s1.stack.len() == t.len() + 1
            &&& s1.stack.drop_last() == t
            &&& (s1.stack.last() matches ValModel::Text(cs) && cs.len() == 1 && cs[0] as u32
                == code)
            &&& s1 == (SM { stack: s1.stack, ..s0 })
        } else {
            s1 == (SM { stack: t.push(ValModel::Error("number-decoding"@)), ..s0 })
        }
    } else if cmd == "encode"@ {
        let (t, a) = pop_v(s0.stack);
        let txt = to_text_m(a);
        if txt.len() > 0 {
            s1 == (SM {
                stack: t.push(ValModel::Number(num_of_nat((txt[0] as u32) as nat))),
                ..s0
            })
        } else {
            s1 == (SM { stack: t.push(ValModel::Error("string-encoding"@)), ..s0 })
        }
    } else if cmd == "concat"@ {
        let (t, a, b) = pop2_v(s0.stack);
        s1 == (SM { stack: t.push(ValModel::Text(to_text_m(a) + to_text_m(b))), ..s0 })
    } else if cmd == "replace"@ {
        let (t, text, before, after) = pop3_v(s0.stack);
        s1 == (SM {
            stack: t.push(
                ValModel::Text(
                    crate::strings::replace_of(to_text_m(text), to_text_m(before), to_text_m(after)),
                ),
            ),
            ..s0
        })
    } else if cmd == "split"@ {
        let (t, a, b) = pop2_v(s0.stack);
        s1 == (SM {
            stack: t.push(
                ValModel::List(texts_of(crate::strings::split_of(to_text_m(a), to_text_m(b)))),
            ),
            ..s0
        })
    } else if cmd == "case"@ {
        let (t, a, b) = pop2_v(s0.stack);
        let txt = to_text_m(a);
        let style = to_text_m(b);
        let out = if style == "lower"@ {
            crate::strings::lower_of(txt)
        } else if style == "upper"@ {
            crate::strings::upper_of(txt)
        } else {
            txt
        };
        s1 == (SM { stack: t.push(ValModel::Text(out)), ..s0 })
    } else if cmd == "join"@ {
        let (t, a, b) = pop2_v(s0.stack);
        let l = to_list_m(a);
        let parts = Seq::new(l.len(), |i: int| to_text_m(l[i]));
        s1 == (SM { stack: t.push(ValModel::Text(joined(parts, to_text_m(b)))), ..s0 })
    } else if cmd == "find"@ {
        let (t, a, b) = pop2_v(s0.stack);
        s1 == (SM {
            stack: t.push(ValModel::Bool(crate::strings::has_sub(to_text_m(a), to_text_m(b)))),
            ..s0
        })
    } else {
        cmd_rel_b(s0, cmd, s1)
    }
}

/// The command relation, continued: search, the shims, control flow.
pub open spec fn cmd_rel_b(s0: SM, cmd: Seq<char>, s1: SM) -> bool {
    if cmd == "regex"@ {
        let (t, a, b) = pop2_v(s0.stack);
        let pat = to_text_m(b);
        if host::regex_ok(pat) {
            s1 == (SM {
                stack: t.push(ValModel::List(texts_of(host::regex_found(pat, to_text_m(a))))),
                ..s0
            })
        } else {
            s1 == (SM { stack: t.push(ValModel::Error("regex"@)), ..s0 })
        }
    } else if cmd == "write-file"@ {
        let (t, a) = pop_v(s0.stack);
        s1 == (SM { stack: t.push(ValModel::Error("create-file"@)), ..s0 })
    } else if cmd == "read-file"@ {
        let (t, a) = pop_v(s0.stack);
        s1 == (SM { stack: t.push(ValModel::Error("read-file"@)), ..s0 })
    } else if cmd == "input"@ {
        let (t, a) = pop_v(s0.stack);
        exists|line: Seq<char>| s1 == (SM { stack: #[trigger] t.push(ValModel::Text(line)), ..s0 })
    } else if cmd == "print"@ || cmd == "println"@ {
        s1 == (SM { stack: pop_v(s0.stack).0, ..s0 })
    } else if cmd == "args-cmd"@ {
        s1 == (SM { stack: s0.stack.push(ValModel::List(texts_of(s0.args))), ..s0 })
    } else if cmd == "eval"@ || cmd == "if"@ {
        frame_ok(s0, s1)
    } else if cmd == "while"@ {
        frame_ok(s0, s1)
    } else if cmd == "thread"@ {
        s1 == (SM { stack: pop_v(s0.stack).0, ..s0 })
    } else if cmd == "exit"@ {
        let (t, a) = pop_v(s0.stack);
        s1 == (SM { stack: t, halt: Some(num_i32(to_num_m(a))), ..s0 })
    } else {
        cmd_rel_c(s0, cmd, s1)
    }
}

/// The command relation, continued: the list commands.
pub open spec fn cmd_rel_c(s0: SM, cmd: Seq<char>, s1: SM) -> bool {
    if cmd == "get"@ {
        let (t, a, b) = pop2_v(s0.stack);
        let l = to_list_m(a);
        let i = num::num_usize(to_num_m(b)) as int;
        if l.len() > i {
            s1 == (SM { stack: t.push(l[i]), ..s0 })
        } else {
            s1 == (SM { stack: t.push(ValModel::Error("index-out-range"@)), ..s0 })
        }
    } else if cmd == "set"@ {
        let (t, a, b, v) = pop3_v(s0.stack);
        let l = to_list_m(a);
        let i = num::num_usize(to_num_m(b)) as int;
        if l.len() > i {
            s1 == (SM { stack: t.push(ValModel::List(l.update(i, v))), ..s0 })
        } else {
            s1 == (SM { stack: t.push(ValModel::Error("index-out-range"@)), ..s0 })
        }
    } else if cmd == "del"@ {
        let (t, a, b) = pop2_v(s0.stack);
        let l = to_list_m(a);
        let i = num::num_usize(to_num_m(b)) as int;
        if l.len() > i {
            s1 == (SM {
                stack: t.push(ValModel::List(l.subrange(0, i) + l.subrange(i + 1, l.len() as int))),
                ..s0
            })
        } else {
            s1 == (SM { stack: t.push(ValModel::Error("index-out-range"@)), ..s0 })
        }
    } else if cmd == "append"@ {
        let (t, a, b) = pop2_v(s0.stack);
        s1 == (SM { stack: t.push(ValModel::List(to_list_m(a).push(b))), ..s0 })
    } else if cmd == "insert"@ {
        let (t, a, b, v) = pop3_v(s0.stack);
        let l = to_list_m(a);
        let i = num::num_usize(to_num_m(b)) as int;
        if i <= l.len() {
            s1 == (SM {
                stack: t.push(ValModel::List(l.subrange(0, i).push(v) + l.subrange(i, l.len() as int))),
                ..s0
            })
        } else {
            s1 == (SM { stack: t.push(ValModel::Error("index-out-range"@)), ..s0 })
        }
    } else if cmd == "index"@ {
        let (t, a, b) = pop2_v(s0.stack);
        let l = to_list_m(a);
        let i = find_text_at(l, to_text_m(b), 0);
        if i < l.len() {
            s1 == (SM { stack: t.push(ValModel::Number(num_of_nat(i as nat))), ..s0 })
        } else {
            s1 == (SM { stack: t.push(ValModel::Error("item-not-found"@)), ..s0 })
        }
    } else if cmd == "sort"@ {
        let (t, a) = pop_v(s0.stack);
        let l = to_list_m(a);
        let strs = Seq::new(l.len(), |i: int| to_text_m(l[i]));
        exists|p: Seq<Seq<char>>|
            {
                &&& (#[trigger] p.to_multiset()) == strs.to_multiset()
                &&& sorted_lex(p)
                &&& s1 == (SM { stack: t.push(ValModel::List(texts_of(p))), ..s0 })
            }
    } else if cmd == "reverse"@ {
        let (t, a) = pop_v(s0.stack);
        let l = to_list_m(a);
        s1 == (SM {
            stack: t.push(ValModel::List(Seq::new(l.len(), |i: int| l[l.len() - 1 - i]))),
            ..s0
        })
    } else if cmd == "for"@ {
        frame_ok(s0, s1)
    } else if cmd == "range"@ {
        let (t, mn, mx, st) = pop3_v(s0.stack);
        let mnb = to_num_m(mn);
        let mxb = to_num_m(mx);
        let stb = to_num_m(st);
        exists|l: Seq<ValModel>|
            {
                &&& (forall|i: int| 0 <= i < l.len() ==> (#[trigger] l[i]) is Number)
                &&& range_seq_ok(l, mnb, mxb, stb)
                &&& s1 == (SM { stack: t.push(ValModel::List(l)), ..s0 })
            }
    } else if cmd == "len"@ {
        let (t, a) = pop_v(s0.stack);
        s1 == (SM {
            stack: t.push(ValModel::Number(num_of_nat(to_list_m(a).len()))),
            ..s0
        })
    } else if cmd == "map"@ || cmd == "filter"@ {
        frame_ok(s0, s1)
    } else if cmd == "reduce"@ {
        &&& frame_ok(s0, s1)
        &&& ({
            let acc_name = to_text_m(pop_v(pop_v(pop_v(pop_v(s0.stack).0).0).0).1);
            env_lookup(s1.mem, acc_name) == Some(ValModel::Text(Seq::<char>::empty()))
        })
    } else {
        cmd_rel_d(s0, cmd, s1)
    }
}

/// The command relation, continued: the stack, store, time and image
/// commands, and the fallback that turns an unknown name into text.
pub open spec fn cmd_rel_d(s0: SM, cmd: Seq<char>, s1: SM) -> bool {
    if cmd == "pop"@ {
        s1 == (SM { stack: pop_v(s0.stack).0, ..s0 })
    } else if cmd == "size-stack"@ {
        s1 == (SM { stack: s0.stack.push(ValModel::Number(num_of_nat(s0.stack.len()))), ..s0 })
    } else if cmd == "get-stack"@ {
        s1 == (SM { stack: s0.stack.push(ValModel::List(s0.stack)), ..s0 })
    } else if cmd == "var"@ {
        let (t, a, b) = pop2_v(s0.stack);
        s1 == (SM { stack: t, mem: env_insert(s0.mem, to_text_m(b), a), ..s0 })
    } else if cmd == "type"@ {
        let (t, a) = pop_v(s0.stack);
        s1 == (SM { stack: t.push(ValModel::Text(crate::value::kind_name_m(a))), ..s0 })
    } else if cmd == "cast"@ {
        let (t, a, b) = pop2_v(s0.stack);
        let style = to_text_m(b);
        let out = if style == "number"@ {
            ValModel::Number(to_num_m(a))
        } else if style == "string"@ {
            ValModel::Text(to_text_m(a))
        } else if style == "bool"@ {
            ValModel::Bool(to_bool_m(a))
        } else if style == "list"@ {
            ValModel::List(to_list_m(a))
        } else if style == "error"@ {
            ValModel::Error(to_text_m(a))
        } else {
            a
        };
        s1 == (SM { stack: t.push(out), ..s0 })
    } else if cmd == "mem"@ {
        s1 == (SM {
            stack: s0.stack.push(ValModel::List(texts_of(crate::env::env_keys(s0.mem)))),
            ..s0
        })
    } else if cmd == "free"@ {
        let (t, a) = pop_v(s0.stack);
        s1 == (SM { stack: t, mem: env_remove(s0.mem, to_text_m(a)), ..s0 })
    } else if cmd == "copy"@ {
        let (t, a) = pop_v(s0.stack);
        s1 == (SM { stack: t.push(a).push(a), ..s0 })
    } else if cmd == "swap"@ {
        let (t, a, b) = pop2_v(s0.stack);
        s1 == (SM { stack: t.push(b).push(a), ..s0 })
    } else if cmd == "now-time"@ {
        exists|b: u64| s1 == (SM { stack: #[trigger] s0.stack.push(ValModel::Number(b)), ..s0 })
    } else if cmd == "sleep"@ {
        s1 == (SM { stack: pop_v(s0.stack).0, ..s0 })
    } else if cmd == "open-image"@ {
        let (t, a) = pop_v(s0.stack);
        s1 == (SM { stack: t.push(ValModel::Resource), ..s0 })
    } else if cmd == "show-image"@ {
        s1 == (SM { stack: pop_v(s0.stack).0, ..s0 })
    } else if cmd == "to-grayscale"@ || cmd == "invert-color"@ || cmd == "edge-detect"@ || cmd
        == "color-map"@ || cmd == "histogram-equalization"@ {
        let (t, a) = pop_v(s0.stack);
        s1 == (SM { stack: t.push(ValModel::Resource), ..s0 })
    } else if cmd == "flip-image"@ {
        let (t, a) = pop_v(s0.stack);
        let dir = to_text_m(a);
        if dir == "vertical"@ || dir == "horizontal"@ {
            s1 == (SM { stack: pop_v(t).0.push(ValModel::Resource), ..s0 })
        } else {
            s1 == (SM { stack: t.push(ValModel::Error("flip-image"@)), ..s0 })
        }
    } else if cmd == "gaussian-blur"@ {
        let (t, a, b) = pop2_v(s0.stack);
        s1 == (SM { stack: t.push(ValModel::Resource), ..s0 })
    } else if cmd == "resize-image"@ {
        let (t, a, b, c) = pop3_v(s0.stack);
        s1 == (SM { stack: t.push(ValModel::Resource), ..s0 })
    } else if cmd == "morphology-operation"@ {
        let (t, a, b) = pop2_v(s0.stack);
        let op = to_text_m(a);
        if op == "dilate"@ || op == "erode"@ || op == "open"@ || op == "close"@ {
            s1 == (SM { stack: pop_v(t).0.push(ValModel::Resource), ..s0 })
        } else {
            s1 == (SM { stack: t.push(ValModel::Error("morphology-operation"@)), ..s0 })
        }
    } else if cmd == "save-image"@ {
        let (t, a, b) = pop2_v(s0.stack);
        s1 == (SM { stack: t, ..s0 })
    } else if cmd == "to-sharpe"@ {
        let (t, a, b) = pop2_v(s0.stack);
        s1 == (SM { stack: t.push(ValModel::Resource), ..s0 })
    } else {
        s1 == (SM { stack: s0.stack.push(ValModel::Text(cmd)), ..s0 })
    }
}









/// The rendering of the whole stack that the Debug trace prints.
pub open spec fn show_stack_m(stack: Seq<ValModel>) -> Seq<char> {
    "Stack〔 "@ + joined(Seq::new(stack.len(), |i: int| crate::value::display_m(stack[i])), " | "@)
        + " 〕"@
}

/// Relies on rayon's `spawn`: starts the moved interpreter evaluating the
/// code on a thread of the global pool, detached from the caller; the pool's
/// threads die with the process, so ending the process ends the spawned
/// work. Nothing is promised of the spawned copy, and the caller's own state
/// is out of its reach. The pool holds one thread per core: enough spawned
/// blocks that never finish can delay later spawns, where spawning a fresh
/// host thread each time would not.
#[verifier::external_body]
fn spawn_eval(ex: Executor, code: String) {
    rayon::spawn(move || {
        let mut e = ex;
        e.evaluate_program(code);
    });
}

/// The texts of `parts`, each wrapped as a Text value.
fn texts_vec(parts: &Vec<String>) -> (r: Vec<Value>)
    ensures
        models(r@) == texts_of(views_of(parts@)),
{
    let mut out: Vec<Value> = Vec::new();
    let mut i: usize = 0;
    while i < parts.len()
        invariant
            i <= parts@.len(),
            out@.len() == i,
            models(out@) =~= texts_of(views_of(parts@)).subrange(0, i as int),
        decreases parts@.len() - i,
    {
        out.push(Value::Text(dup_str(&parts[i])));
        proof {
            assert(models(out@) =~= texts_of(views_of(parts@)).subrange(0, i as int + 1));
        }
        i = i + 1;
    }
    proof {
        assert(models(out@) =~= texts_of(views_of(parts@)));
    }
    out
}

/// A copy of each value of `l`, models unchanged.
fn dup_values(l: &Vec<Value>) -> (r: Vec<Value>)
    ensures
        models(r@) == models(l@),
{
    let mut out: Vec<Value> = Vec::new();
    let mut i: usize = 0;
    while i < l.len()
        invariant
            i <= l@.len(),
            out@.len() == i,
            models(out@) =~= models(l@).subrange(0, i as int),
        decreases l@.len() - i,
    {
        out.push(l[i].duplicate());
        proof {
            assert(models(out@) =~= models(l@).subrange(0, i as int + 1));
        }
        i = i + 1;
    }
    proof {
        assert(models(out@) =~= models(l@));
    }
    out
}

impl Executor {
    /// Pops the right then the left operand and reads both as numbers.
    fn bin_num(&mut self) -> (r: (u64, u64))
        ensures
            final(self).sm() == (SM { stack: pop2_v(old(self).sm().stack).0, ..old(self).sm() }),
            r.0 == to_num_m(pop2_v(old(self).sm().stack).1),
            r.1 == to_num_m(pop2_v(old(self).sm().stack).2),
    {
        let b = self.pop_stack();
        let a = self.pop_stack();
        (a.get_number(), b.get_number())
    }

    /// Pops the right then the left operand and reads both as booleans.
    fn bin_bool(&mut self) -> (r: (bool, bool))
        ensures
            final(self).sm() == (SM { stack: pop2_v(old(self).sm().stack).0, ..old(self).sm() }),
            r.0 == to_bool_m(pop2_v(old(self).sm().stack).1),
            r.1 == to_bool_m(pop2_v(old(self).sm().stack).2),
    {
        let b = self.pop_stack();
        let a = self.pop_stack();
        (a.get_bool(), b.get_bool())
    }

    /// Pops the right then the left operand and reads both as texts.
    fn bin_text(&mut self) -> (r: (String, String))
        ensures
            final(self).sm() == (SM { stack: pop2_v(old(self).sm().stack).0, ..old(self).sm() }),
            r.0@ == to_text_m(pop2_v(old(self).sm().stack).1),
            r.1@ == to_text_m(pop2_v(old(self).sm().stack).2),
    {
        let b = self.pop_stack();
        let a = self.pop_stack();
        (a.get_string(), b.get_string())
    }

    /// A deep, independent copy of the whole interpreter state.
    pub fn deep_copy(&self) -> (r: Executor)
        ensures
            r.sm() == self.sm(),
    {
        let stack = dup_values(&self.stack);
        let memory = self.memory.duplicate();
        let mut args: Vec<String> = Vec::new();
        let mut i: usize = 0;
        while i < self.args.len()
            invariant
                i <= self.args@.len(),
                args@.len() == i,
                views_of(args@) =~= views_of(self.args@).subrange(0, i as int),
            decreases self.args@.len() - i,
        {
            args.push(dup_str(&self.args[i]));
            proof {
                assert(views_of(args@) =~= views_of(self.args@).subrange(0, i as int + 1));
            }
            i = i + 1;
        }
        let r = Executor { stack, memory, mode: self.mode, args, halt: self.halt };
        proof {
            assert(views_of(r.args@) =~= views_of(self.args@));
            assert(r.sm() =~~= self.sm());
        }
        r
    }

    /// The Debug rendering of the whole stack.
    pub fn show_stack(&self) -> (r: String)
        ensures
            r@ == show_stack_m(self.sm().stack),
    {
        let ghost parts = Seq::new(
            self.sm().stack.len(),
            |i: int| crate::value::display_m(self.sm().stack[i]),
        );
        let mut acc = String::from_str("");
        proof {
            reveal_strlit("");
            assert(acc@ =~= joined(parts.subrange(0, 0), " | "@));
        }
        let mut i: usize = 0;
        while i < self.stack.len()
            invariant
                i <= self.stack@.len(),
                parts == Seq::new(
                    self.sm().stack.len(),
                    |j: int| crate::value::display_m(self.sm().stack[j]),
                ),
                acc@ == joined(parts.subrange(0, i as int), " | "@),
            decreases self.stack@.len() - i,
        {
            if i > 0 {
                acc.append(" | ");
            }
            let piece = self.stack[i].display_text();
            acc.append(piece.as_str());
            proof {
                let pre = parts.subrange(0, i as int);
                lemma_joined_push(pre, " | "@, parts[i as int]);
                assert(pre.push(parts[i as int]) =~= parts.subrange(0, i as int + 1));
                assert(acc@ =~= joined(parts.subrange(0, i as int + 1), " | "@));
            }
            i = i + 1;
        }
        let mut r = String::from_str("Stack〔 ");
        r.append(acc.as_str());
        r.append(" 〕");
        proof {
            assert(parts.subrange(0, parts.len() as int) =~= parts);
        }
        r
    }

    /// Prints the variable store in Debug mode, each name padded to the
    /// longest, as the `var` and `free` commands do.
    fn show_variables(&self) {
        let mut widest: usize = 0;
        let mut i: usize = 0;
        while i < self.memory.len()
            invariant
                i <= self.memory.model().len(),
            decreases self.memory.model().len() - i,
        {
            let (name, _) = self.memory.entry_at(i);
            let w = name.as_str().unicode_len();
            if w > widest {
                widest = w;
            }
            i = i + 1;
        }
        self.log_print("Variables {\n");
        let mut j: usize = 0;
        while j < self.memory.len()
            invariant
                j <= self.memory.model().len(),
            decreases self.memory.model().len() - j,
        {
            let (name, value) = self.memory.entry_at(j);
            let w = name.as_str().unicode_len();
            let mut line = String::from_str(" ");
            let mut p: usize = 0;
            let pad = if w <= widest {
                widest - w
            } else {
                0
            };
            while p < pad
                invariant
                    p <= pad,
                decreases pad - p,
            {
                line.append(" ");
                p = p + 1;
            }
            line.append(name.as_str());
            line.append(": ");
            let shown = value.display_text();
            line.append(shown.as_str());
            line.append("\n");
            self.log_print(line.as_str());
            j = j + 1;
        }
        self.log_print("}\n");
    }

    /// Evaluates a source text as a program against this interpreter's stack
    /// and store: each token in order, as `token_rel` describes, leaving the
    /// stack and the store as the chained relation says. Nested evaluations
    /// deeper than the fuel guard are cut off with an Error value.
    pub fn evaluate_program(&mut self, code: String)
        ensures
            frame_ok(old(self).sm(), final(self).sm()),
            tokens_rel(old(self).sm(), tokenize(code@), final(self).sm()),
    {
        self.eval_fuel(code.as_str(), DEFAULT_FUEL);
    }

    /// The evaluation loop at a given remaining nesting depth.
    fn eval_fuel(&mut self, code: &str, fuel: u64)
        ensures
            frame_ok(old(self).sm(), final(self).sm()),
            fuel > 0 ==> tokens_rel(old(self).sm(), tokenize(code@), final(self).sm()),
        decreases fuel, 2int,
    {
        if fuel == 0 {
            if self.halt.is_none() {
                let e = String::from_str("recursion-limit");
                self.push_val(Value::Error(e));
            }
            return ;
        }
        let toks = tokenize::analyze_syntax(code);
        let ghost toks_m = tokenize(code@);
        proof {
            assert(views_of(toks@) == toks_m);
        }
        let ghost start = self.sm();
        let ghost mut trace: Seq<SM> = seq![start];
        let mut i: usize = 0;
        while i < toks.len()
            invariant
                i <= toks@.len(),
                fuel >= 1,
                views_of(toks@) == toks_m,
                trace.len() == i + 1,
                trace[0] == start,
                trace[i as int] == self.sm(),
                forall|j: int|
                    0 <= j < i ==> token_rel(trace[j], toks_m[j], #[trigger] trace[j + 1]),
                frame_ok(start, self.sm()),
            decreases toks@.len() - i,
        {
            proof {
                assert(toks@[i as int]@ == toks_m[i as int]);
            }
            let shown = self.show_stack();
            let mut line = shown;
            line.append(" ←  ");
            line.append(toks[i].as_str());
            line.append("\n");
            self.log_print(line.as_str());
            if self.halt.is_some() {
                proof {
                    assert(token_rel(self.sm(), toks_m[i as int], self.sm()));
                    trace = trace.push(self.sm());
                }
            } else {
                self.eval_token(&toks[i], fuel);
                proof {
                    trace = trace.push(self.sm());
                }
            }
            i = i + 1;
        }
        let shown = self.show_stack();
        let mut line = shown;
        line.append("\n");
        self.log_print(line.as_str());
        proof {
            assert(chain_ok(trace, toks_m));
            assert(trace[toks_m.len() as int] == self.sm());
            assert(tokens_rel(start, toks_m, self.sm()));
        }
    }

    /// Classifies and executes one token: a literal push, a variable read, a
    /// comment, or a command.
    #[verifier::rlimit(100)]
    #[verifier::spinoff_prover]
    fn eval_token(&mut self, tok: &String, fuel: u64)
        requires
            fuel >= 1,
            old(self).sm().halt is None,
        ensures
            token_rel(old(self).sm(), tok@, final(self).sm()),
            frame_ok(old(self).sm(), final(self).sm()),
        decreases fuel, 1int,
    {
        proof {
            reveal_strlit("error:");
            reveal_strlit("");
            assert("error:"@ =~= seq!['e', 'r', 'r', 'o', 'r', ':']);
            assert(""@ =~= Seq::<char>::empty());
        }
        let cs = crate::strings::to_chars(tok.as_str());
        let n = cs.len();
        if let Some(b) = num::parse_literal(tok.as_str()) {
            self.push_val(Value::Number(b));
        } else if str_eq(tok.as_str(), "true") || str_eq(tok.as_str(), "false") {
            self.push_val(Value::Bool(str_eq(tok.as_str(), "true")));
        } else if n >= 1 && cs[0] == '(' && cs[n - 1] == ')' {
            proof {
                assert(cs@[0] != cs@[n - 1]);
                assert(n >= 2);
            }
            let t = tokenize::unescape_interior(&cs, 1, n - 1);
            self.push_val(Value::Text(t));
        } else if n >= 1 && cs[0] == '[' && cs[n - 1] == ']' {
            proof {
                assert(cs@[0] != cs@[n - 1]);
                assert(n >= 2);
            }
            let interior = crate::strings::sub_chars(&cs, 1, n - 1);
            let istr = crate::strings::chars_string(&interior);
            let n0 = self.stack.len();
            self.eval_fuel(istr.as_str(), fuel - 1);
            let n1 = self.stack.len();
            let d = if n1 > n0 {
                n1 - n0
            } else {
                0
            };
            let mut lst: Vec<Value> = Vec::new();
            let mut k: usize = 0;
            while k < d
                invariant
                    k <= d,
                    d <= n1,
                    n1 == self.stack@.len(),
                    n1 - d <= n1,
                    lst@.len() == k,
                    models(lst@) =~= models(self.stack@).subrange(
                        n1 - d,
                        n1 - d + k,
                    ),
                decreases d - k,
            {
                lst.push(self.stack[n1 - d + k].duplicate());
                proof {
                    assert(models(lst@) =~= models(self.stack@).subrange(
                        n1 - d,
                        n1 - d + k + 1,
                    ));
                }
                k = k + 1;
            }
            let ghost pre_trunc = self.sm();
            self.stack.truncate(n1 - d);
            proof {
                assert(models(self.stack@) =~= pre_trunc.stack.subrange(0, n1 - d));
                assert(self.sm() =~~= (SM {
                    stack: pre_trunc.stack.subrange(0, n1 - d),
                    ..pre_trunc
                }));
            }
            self.push_val(Value::List(lst));
        } else if n >= 6 && cs[0] == 'e' && cs[1] == 'r' && cs[2] == 'r' && cs[3] == 'o' && cs[4]
            == 'r' && cs[5] == ':' {
            proof {
                assert(tok@.subrange(0, 6) =~= "error:"@);
            }
            let v = crate::strings::replace_text(tok.as_str(), "error:", "");
            self.push_val(Value::Error(v));
        } else {
            let found = self.memory.lookup(tok.as_str());
            match found {
                Some(v) => {
                    self.push_val(v);
                },
                None => {
                    if n >= 1 && cs[0] == '#' && cs[n - 1] == '#' {
                        let c = crate::strings::replace_text(tok.as_str(), "#", "");
                        let mut line = String::from_str("* Comment \"");
                        line.append(c.as_str());
                        line.append("\"\n");
                        self.log_print(line.as_str());
                    } else {
                        self.execute_command(tok, fuel);
                    }
                },
            }
        }
    }
}


impl Executor {
    /// Dispatches one command by name against the stack and the store, as
    /// `cmd_rel` describes arm by arm; a name that is no command becomes a
    /// Text value, the permissive fallback of the language.
    #[verifier::rlimit(100)]
    #[verifier::spinoff_prover]
    pub fn execute_command(&mut self, command: &String, fuel: u64)
        requires
            fuel >= 1,
            old(self).sm().halt is None,
        ensures
            cmd_rel(old(self).sm(), command@, final(self).sm()),
            frame_ok(old(self).sm(), final(self).sm()),
        decreases fuel, 0int,
    {
        let cmd = command.as_str();
        if str_eq(cmd, "add") {
            let (a, b) = self.bin_num();
            self.push_val(Value::Number(num::add_bits(a, b)));
        } else if str_eq(cmd, "sub") {
            let (a, b) = self.bin_num();
            self.push_val(Value::Number(num::sub_bits(a, b)));
        } else if str_eq(cmd, "mul") {
            let (a, b) = self.bin_num();
            self.push_val(Value::Number(num::mul_bits(a, b)));
        } else if str_eq(cmd, "div") {
            let (a, b) = self.bin_num();
            self.push_val(Value::Number(num::div_bits(a, b)));
        } else if str_eq(cmd, "mod") {
            let (a, b) = self.bin_num();
            self.push_val(Value::Number(num::rem_bits(a, b)));
        } else if str_eq(cmd, "pow") {
            let (a, b) = self.bin_num();
            self.push_val(Value::Number(num::pow_bits(a, b)));
        } else if str_eq(cmd, "round") {
            let a = self.pop_stack().get_number();
            self.push_val(Value::Number(num::round_bits(a)));
        } else if str_eq(cmd, "sin") {
            let a = self.pop_stack().get_number();
            self.push_val(Value::Number(num::sin_bits(a)));
        } else if str_eq(cmd, "cos") {
            let a = self.pop_stack().get_number();
            self.push_val(Value::Number(num::cos_bits(a)));
        } else if str_eq(cmd, "tan") {
            let a = self.pop_stack().get_number();
            self.push_val(Value::Number(num::tan_bits(a)));
        } else if str_eq(cmd, "exp") {
            let a = self.pop_stack().get_number();
            self.push_val(Value::Number(num::exp_bits(a)));
        } else if str_eq(cmd, "and") {
            let (a, b) = self.bin_bool();
            self.push_val(Value::Bool(a && b));
        } else if str_eq(cmd, "or") {
            let (a, b) = self.bin_bool();
            self.push_val(Value::Bool(a || b));
        } else if str_eq(cmd, "not") {
            let b = self.pop_stack().get_bool();
            self.push_val(Value::Bool(!b));
        } else if str_eq(cmd, "equal") {
            let (a, b) = self.bin_text();
            let e = str_eq(a.as_str(), b.as_str());
            self.push_val(Value::Bool(e));
        } else if str_eq(cmd, "less") {
            let (a, b) = self.bin_num();
            self.push_val(Value::Bool(num::lt_bits(a, b)));
        } else if str_eq(cmd, "rand") {
            let l = self.pop_stack().get_list();
            if l.len() == 0 {
                self.push_val(Value::List(l));
            } else {
                let i = host::pick_index(l.len());
                let picked = l[i].duplicate();
                self.push_val(picked);
                proof {
                    let s0 = old(self).sm();
                    let a = pop_v(s0.stack).1;
                    assert(to_list_m(a)[i as int] == models(l@)[i as int]);
                }
            }
        } else if str_eq(cmd, "shuffle") {
            let mut l = self.pop_stack().get_list();
            host::shuffle_values(&mut l);
            self.push_val(Value::List(l));
        } else if str_eq(cmd, "repeat") {
            let count = self.pop_stack().get_number();
            let text = self.pop_stack().get_string();
            let m = num::usize_bits(count);
            let mut out = String::from_str("");
            proof {
                reveal_strlit("");
                assert(out@ =~= repeat_m(text@, 0));
            }
            let mut k: usize = 0;
            while k < m
                invariant
                    k <= m,
                    out@ == repeat_m(text@, k as nat),
                decreases m - k,
            {
                out.append(text.as_str());
                k = k + 1;
            }
            self.push_val(Value::Text(out));
        } else if str_eq(cmd, "decode") {
            let a = self.pop_stack().get_number();
            let code = num::u32_bits(a);
            match crate::strings::decode_char(code) {
                Some(c) => {
                    let mut t = String::from_str("");
                    proof {
                        reveal_strlit("");
                        assert(t@ =~= Seq::<char>::empty());
                    }
                    crate::strings::push_char(&mut t, c);
                    proof {
                        assert(t@ =~= seq![c]);
                    }
                    self.push_val(Value::Text(t));
                    proof {
                        let s0 = old(self).sm();
                        let t0 = pop_v(s0.stack).0;
                        assert(self.sm().stack =~= t0.push(ValModel::Text(seq![c])));
                        assert(self.sm().stack.drop_last() =~= t0);
                        assert(self.sm().stack.last() == ValModel::Text(seq![c]));
                        assert(seq![c][0] == c);
                        assert(self.sm() =~~= (SM { stack: self.sm().stack, ..s0 }));
                    }
                },
                None => {
                    self.log_print("Error! failed of number decoding\n");
                    let e = String::from_str("number-decoding");
                    self.push_val(Value::Error(e));
                },
            }
        } else if str_eq(cmd, "encode") {
            let s = self.pop_stack().get_string();
            if s.as_str().unicode_len() > 0 {
                let c = s.as_str().get_char(0);
                let u = c as u32;
                self.push_val(Value::Number(num::bits_of_usize(u as usize)));
            } else {
                self.log_print("Error! failed of string encoding\n");
                let e = String::from_str("string-encoding");
                self.push_val(Value::Error(e));
            }
        } else if str_eq(cmd, "concat") {
            let (a, b) = self.bin_text();
            let mut r = a;
            r.append(b.as_str());
            self.push_val(Value::Text(r));
        } else if str_eq(cmd, "replace") {
            let after = self.pop_stack().get_string();
            let before = self.pop_stack().get_string();
            let text = self.pop_stack().get_string();
            let r = crate::strings::replace_text(text.as_str(), before.as_str(), after.as_str());
            self.push_val(Value::Text(r));
        } else if str_eq(cmd, "split") {
            let key = self.pop_stack().get_string();
            let text = self.pop_stack().get_string();
            let parts = crate::strings::split_text(text.as_str(), key.as_str());
            let vals = texts_vec(&parts);
            self.push_val(Value::List(vals));
        } else if str_eq(cmd, "case") {
            let style = self.pop_stack().get_string();
            let text = self.pop_stack().get_string();
            if str_eq(style.as_str(), "lower") {
                let r = crate::strings::lower(text.as_str());
                self.push_val(Value::Text(r));
            } else if str_eq(style.as_str(), "upper") {
                let r = crate::strings::upper(text.as_str());
                self.push_val(Value::Text(r));
            } else {
                self.push_val(Value::Text(text));
            }
        } else if str_eq(cmd, "join") {
            let key = self.pop_stack().get_string();
            let l = self.pop_stack().get_list();
            let ghost lm = models(l@);
            let ghost parts = Seq::new(lm.len(), |i: int| to_text_m(lm[i]));
            let mut acc = String::from_str("");
            proof {
                reveal_strlit("");
                assert(acc@ =~= joined(parts.subrange(0, 0), key@));
            }
            let mut i: usize = 0;
            while i < l.len()
                invariant
                    i <= l@.len(),
                    lm == models(l@),
                    parts == Seq::new(lm.len(), |j: int| to_text_m(lm[j])),
                    acc@ == joined(parts.subrange(0, i as int), key@),
                decreases l@.len() - i,
            {
                if i > 0 {
                    acc.append(key.as_str());
                }
                let piece = l[i].get_string();
                acc.append(piece.as_str());
                proof {
                    let pre = parts.subrange(0, i as int);
                    lemma_joined_push(pre, key@, parts[i as int]);
                    assert(pre.push(parts[i as int]) =~= parts.subrange(0, i as int + 1));
                    assert(acc@ =~= joined(parts.subrange(0, i as int + 1), key@));
                }
                i = i + 1;
            }
            proof {
                assert(parts.subrange(0, parts.len() as int) =~= parts);
            }
            self.push_val(Value::Text(acc));
        } else if str_eq(cmd, "find") {
            let word = self.pop_stack().get_string();
            let text = self.pop_stack().get_string();
            let r = crate::strings::contains_text(text.as_str(), word.as_str());
            self.push_val(Value::Bool(r));
        } else if str_eq(cmd, "regex") {
            let pattern = self.pop_stack().get_string();
            let text = self.pop_stack().get_string();
            match host::regex_find(pattern.as_str(), text.as_str()) {
                Some(found) => {
                    let vals = texts_vec(&found);
                    self.push_val(Value::List(vals));
                },
                None => {
                    self.log_print("Error! the pattern did not compile\n");
                    let e = String::from_str("regex");
                    self.push_val(Value::Error(e));
                },
            }
        } else if str_eq(cmd, "write-file") {
            // The file store is an external collaborator this library cannot
            // reach: file access may not stand in verified code, and the
            // single recursive evaluation loop offers no point where a host
            // could step in mid-run. The command therefore takes the same
            // path the original takes when the host refuses the file: the
            // path is popped and an Error value is pushed.
            let _path = self.pop_stack().get_string();
            self.log_print("Error! the file store is not reachable from here\n");
            let e = String::from_str("create-file");
            self.push_val(Value::Error(e));
        } else if str_eq(cmd, "read-file") {
            // As with write-file: no reachable file store, so the failure
            // path of the original.
            let _path = self.pop_stack().get_string();
            self.log_print("Error! the file store is not reachable from here\n");
            let e = String::from_str("read-file");
            self.push_val(Value::Error(e));
        } else if str_eq(cmd, "input") {
            let prompt = self.pop_stack().get_string();
            host::emit(prompt.as_str());
            let line = host::read_input_line();
            self.push_val(Value::Text(line));
        } else if str_eq(cmd, "print") || str_eq(cmd, "println") {
            let a = self.pop_stack().get_string();
            let a = crate::strings::replace_text(a.as_str(), "\\n", "\n");
            let a = crate::strings::replace_text(a.as_str(), "\\t", "\t");
            let a = crate::strings::replace_text(a.as_str(), "\\r", "\r");
            let newline = str_eq(cmd, "println");
            let mut out = if matches!(self.mode, Mode::Debug) {
                String::from_str("[Output]: ")
            } else {
                String::from_str("")
            };
            out.append(a.as_str());
            if newline || matches!(self.mode, Mode::Debug) {
                out.append("\n");
            }
            host::emit(out.as_str());
        } else if str_eq(cmd, "args-cmd") {
            let mut vals: Vec<Value> = Vec::new();
            let mut i: usize = 0;
            while i < self.args.len()
                invariant
                    i <= self.args@.len(),
                    vals@.len() == i,
                    models(vals@) =~= texts_of(views_of(self.args@)).subrange(0, i as int),
                decreases self.args@.len() - i,
            {
                vals.push(Value::Text(dup_str(&self.args[i])));
                proof {
                    assert(models(vals@) =~= texts_of(views_of(self.args@)).subrange(
                        0,
                        i as int + 1,
                    ));
                }
                i = i + 1;
            }
            proof {
                assert(models(vals@) =~= texts_of(views_of(self.args@)));
            }
            self.push_val(Value::List(vals));
        } else if str_eq(cmd, "eval") {
            let code = self.pop_stack().get_string();
            self.eval_fuel(code.as_str(), fuel - 1);
        } else if str_eq(cmd, "if") {
            let condition = self.pop_stack().get_bool();
            let code_else = self.pop_stack().get_string();
            let code_if = self.pop_stack().get_string();
            if condition {
                self.eval_fuel(code_if.as_str(), fuel - 1);
            } else {
                self.eval_fuel(code_else.as_str(), fuel - 1);
            }
        } else if str_eq(cmd, "while") {
            let cond = self.pop_stack().get_string();
            let code = self.pop_stack().get_string();
            let mut guard: u64 = 0;
            loop
                invariant
                    fuel >= 1,
                    frame_ok(old(self).sm(), self.sm()),
                decreases u64::MAX - guard,
            {
                self.eval_fuel(cond.as_str(), fuel - 1);
                let go = self.pop_stack().get_bool();
                if !go {
                    break ;
                }
                if self.halt.is_some() {
                    break ;
                }
                self.eval_fuel(code.as_str(), fuel - 1);
                if self.halt.is_some() {
                    break ;
                }
                if guard == u64::MAX {
                    break ;
                }
                guard = guard + 1;
            }
        } else if str_eq(cmd, "thread") {
            let code = self.pop_stack().get_string();
            let copy = self.deep_copy();
            spawn_eval(copy, code);
        } else if str_eq(cmd, "exit") {
            let status = self.pop_stack().get_number();
            let ghost mid = self.sm();
            self.halt = Some(num::i32_bits(status));
            proof {
                assert(self.sm() =~~= (SM { halt: self.halt, ..mid }));
            }
        } else if str_eq(cmd, "get") {
            let iv = self.pop_stack().get_number();
            let idx = num::usize_bits(iv);
            let l = self.pop_stack().get_list();
            if l.len() > idx {
                let v = l[idx].duplicate();
                self.push_val(v);
            } else {
                self.log_print("Error! Index specification is out of range\n");
                let e = String::from_str("index-out-range");
                self.push_val(Value::Error(e));
            }
        } else if str_eq(cmd, "set") {
            let value = self.pop_stack();
            let iv = self.pop_stack().get_number();
            let idx = num::usize_bits(iv);
            let mut l = self.pop_stack().get_list();
            if l.len() > idx {
                l.set(idx, value);
                proof {
                    assert(models(l@) =~= to_list_m(pop3_v(old(self).sm().stack).1).update(
                        idx as int,
                        pop3_v(old(self).sm().stack).3,
                    ));
                }
                self.push_val(Value::List(l));
            } else {
                self.log_print("Error! Index specification is out of range\n");
                let e = String::from_str("index-out-range");
                self.push_val(Value::Error(e));
            }
        } else if str_eq(cmd, "del") {
            let iv = self.pop_stack().get_number();
            let idx = num::usize_bits(iv);
            let mut l = self.pop_stack().get_list();
            if l.len() > idx {
                l.remove(idx);
                proof {
                    let lm = to_list_m(pop2_v(old(self).sm().stack).1);
                    assert(models(l@) =~= lm.subrange(0, idx as int) + lm.subrange(
                        idx as int + 1,
                        lm.len() as int,
                    ));
                }
                self.push_val(Value::List(l));
            } else {
                self.log_print("Error! Index specification is out of range\n");
                let e = String::from_str("index-out-range");
                self.push_val(Value::Error(e));
            }
        } else if str_eq(cmd, "append") {
            let data = self.pop_stack();
            let mut l = self.pop_stack().get_list();
            l.push(data);
            proof {
                assert(models(l@) =~= to_list_m(pop2_v(old(self).sm().stack).1).push(
                    pop2_v(old(self).sm().stack).2,
                ));
            }
            self.push_val(Value::List(l));
        } else if str_eq(cmd, "insert") {
            let data = self.pop_stack();
            let iv = self.pop_stack().get_number();
            let idx = num::usize_bits(iv);
            let mut l = self.pop_stack().get_list();
            if idx <= l.len() {
                l.insert(idx, data);
                proof {
                    let lm = to_list_m(pop3_v(old(self).sm().stack).1);
                    assert(models(l@) =~= lm.subrange(0, idx as int).push(
                        pop3_v(old(self).sm().stack).3,
                    ) + lm.subrange(idx as int, lm.len() as int));
                }
                self.push_val(Value::List(l));
            } else {
                self.log_print("Error! Index specification is out of range\n");
                let e = String::from_str("index-out-range");
                self.push_val(Value::Error(e));
            }
        } else if str_eq(cmd, "index") {
            let target = self.pop_stack().get_string();
            let l = self.pop_stack().get_list();
            let ghost lm = models(l@);
            let mut j: usize = 0;
            let mut found: bool = false;
            while j < l.len() && !found
                invariant
                    j <= l@.len(),
                    lm == models(l@),
                    !found ==> find_text_at(lm, target@, 0) == find_text_at(lm, target@, j as int),
                    found ==> j < l@.len() && find_text_at(lm, target@, 0) == j,
                decreases l@.len() - j + (if found { 0int } else { 1int }),
            {
                let s = l[j].get_string();
                if str_eq(s.as_str(), target.as_str()) {
                    found = true;
                } else {
                    proof {
                        assert(to_text_m(lm[j as int]) != target@);
                    }
                    j = j + 1;
                }
            }
            if found {
                self.push_val(Value::Number(num::bits_of_usize(j)));
            } else {
                self.log_print("Error! item not found in the list\n");
                let e = String::from_str("item-not-found");
                self.push_val(Value::Error(e));
            }
        } else if str_eq(cmd, "sort") {
            let l = self.pop_stack().get_list();
            let ghost lm = models(l@);
            let mut strs: Vec<String> = Vec::new();
            let mut i: usize = 0;
            while i < l.len()
                invariant
                    i <= l@.len(),
                    lm == models(l@),
                    strs@.len() == i,
                    forall|j: int| 0 <= j < i ==> #[trigger] strs@[j]@ == to_text_m(lm[j]),
                decreases l@.len() - i,
            {
                let piece = l[i].get_string();
                strs.push(piece);
                proof {
                    assert(l@[i as int].model() == lm[i as int]);
                    assert(strs@[i as int]@ == to_text_m(lm[i as int]));
                }
                i = i + 1;
            }
            proof {
                assert(views_of(strs@) =~= Seq::new(lm.len(), |j: int| to_text_m(lm[j])));
            }
            let sorted = sort_strings(strs);
            let vals = texts_vec(&sorted);
            self.push_val(Value::List(vals));
        } else if str_eq(cmd, "reverse") {
            let l = self.pop_stack().get_list();
            let n = l.len();
            let mut out: Vec<Value> = Vec::new();
            let mut k: usize = 0;
            while k < n
                invariant
                    k <= n,
                    n == l@.len(),
                    out@.len() == k,
                    models(out@) =~= Seq::new(k as nat, |i: int| models(l@)[n - 1 - i]),
                decreases n - k,
            {
                let ghost pre = models(out@);
                out.push(l[n - 1 - k].duplicate());
                proof {
                    assert(l@[n - 1 - k as int].model() == models(l@)[n - 1 - k as int]);
                    assert(models(out@) =~= pre.push(models(l@)[n - 1 - k as int]));
                    assert(models(out@) =~= Seq::new(
                        k as nat + 1,
                        |i: int| models(l@)[n - 1 - i],
                    ));
                }
                k = k + 1;
            }
            self.push_val(Value::List(out));
        } else if str_eq(cmd, "for") {
            let code = self.pop_stack().get_string();
            let vars = self.pop_stack().get_string();
            let l = self.pop_stack().get_list();
            let mut i: usize = 0;
            while i < l.len()
                invariant
                    i <= l@.len(),
                    fuel >= 1,
                    frame_ok(old(self).sm(), self.sm()),
                decreases l@.len() - i,
            {
                if self.halt.is_some() {
                    break ;
                }
                self.memory.insert(dup_str(&vars), l[i].duplicate());
                proof {
                    assert(self.sm() =~~= (SM { mem: self.memory.model(), ..self.sm() }));
                }
                self.eval_fuel(code.as_str(), fuel - 1);
                i = i + 1;
            }
        } else if str_eq(cmd, "range") {
            self.cmd_range();
        } else if str_eq(cmd, "len") {
            let l = self.pop_stack().get_list();
            self.push_val(Value::Number(num::bits_of_usize(l.len())));
        } else if str_eq(cmd, "map") {
            let code = self.pop_stack().get_string();
            let vars = self.pop_stack().get_string();
            let l = self.pop_stack().get_list();
            let mut result: Vec<Value> = Vec::new();
            let mut i: usize = 0;
            while i < l.len()
                invariant
                    i <= l@.len(),
                    fuel >= 1,
                    frame_ok(old(self).sm(), self.sm()),
                decreases l@.len() - i,
            {
                if self.halt.is_some() {
                    break ;
                }
                self.memory.insert(dup_str(&vars), l[i].duplicate());
                self.eval_fuel(code.as_str(), fuel - 1);
                let v = self.pop_stack();
                result.push(v);
                i = i + 1;
            }
            self.push_val(Value::List(result));
        } else if str_eq(cmd, "filter") {
            let code = self.pop_stack().get_string();
            let vars = self.pop_stack().get_string();
            let l = self.pop_stack().get_list();
            let mut result: Vec<Value> = Vec::new();
            let mut i: usize = 0;
            while i < l.len()
                invariant
                    i <= l@.len(),
                    fuel >= 1,
                    frame_ok(old(self).sm(), self.sm()),
                decreases l@.len() - i,
            {
                if self.halt.is_some() {
                    break ;
                }
                self.memory.insert(dup_str(&vars), l[i].duplicate());
                self.eval_fuel(code.as_str(), fuel - 1);
                let keep = self.pop_stack().get_bool();
                if keep {
                    result.push(l[i].duplicate());
                }
                i = i + 1;
            }
            self.push_val(Value::List(result));
        } else if str_eq(cmd, "reduce") {
            let code = self.pop_stack().get_string();
            let now = self.pop_stack().get_string();
            let init = self.pop_stack();
            let acc = self.pop_stack().get_string();
            let l = self.pop_stack().get_list();
            self.memory.insert(dup_str(&acc), init);
            let mut i: usize = 0;
            while i < l.len()
                invariant
                    i <= l@.len(),
                    fuel >= 1,
                    frame_ok(old(self).sm(), self.sm()),
                decreases l@.len() - i,
            {
                if self.halt.is_some() {
                    break ;
                }
                self.memory.insert(dup_str(&now), l[i].duplicate());
                self.eval_fuel(code.as_str(), fuel - 1);
                let v = self.pop_stack();
                self.memory.insert(dup_str(&acc), v);
                i = i + 1;
            }
            let result = match self.memory.lookup(acc.as_str()) {
                Some(v) => v,
                None => Value::Text(String::from_str("")),
            };
            self.push_val(result);
            let empty = Value::Text(String::from_str(""));
            let ghost prev_mem = self.memory.model();
            let ghost cleared = empty.model();
            self.memory.insert(acc, empty);
            proof {
                reveal_strlit("");
                assert(""@ =~= Seq::<char>::empty());
                assert(cleared == ValModel::Text(Seq::<char>::empty()));
                let acc_name = to_text_m(pop_v(pop_v(pop_v(pop_v(old(self).sm().stack).0).0).0).1);
                assert(acc@ == acc_name);
                crate::env::lemma_lookup_insert(prev_mem, acc_name, cleared);
                assert(self.sm().mem == crate::env::env_insert(prev_mem, acc_name, cleared));
                assert(env_lookup(self.sm().mem, acc_name) == Some(
                    ValModel::Text(Seq::<char>::empty()),
                ));
            }
        } else if str_eq(cmd, "pop") {
            let _ = self.pop_stack();
        } else if str_eq(cmd, "size-stack") {
            let n = self.stack.len();
            self.push_val(Value::Number(num::bits_of_usize(n)));
        } else if str_eq(cmd, "get-stack") {
            let copy = dup_values(&self.stack);
            self.push_val(Value::List(copy));
        } else if str_eq(cmd, "var") {
            let name = self.pop_stack().get_string();
            let data = self.pop_stack();
            self.memory.insert(name, data);
            proof {
                assert(self.sm() =~~= (SM {
                    stack: pop2_v(old(self).sm().stack).0,
                    mem: env_insert(
                        old(self).sm().mem,
                        to_text_m(pop2_v(old(self).sm().stack).2),
                        pop2_v(old(self).sm().stack).1,
                    ),
                    ..old(self).sm()
                }));
            }
            self.show_variables();
        } else if str_eq(cmd, "type") {
            let v = self.pop_stack();
            let name = v.kind_name();
            self.push_val(Value::Text(name));
        } else if str_eq(cmd, "cast") {
            let style = self.pop_stack().get_string();
            let value = self.pop_stack();
            if str_eq(style.as_str(), "number") {
                let b = value.get_number();
                self.push_val(Value::Number(b));
            } else if str_eq(style.as_str(), "string") {
                let t = value.get_string();
                self.push_val(Value::Text(t));
            } else if str_eq(style.as_str(), "bool") {
                let b = value.get_bool();
                self.push_val(Value::Bool(b));
            } else if str_eq(style.as_str(), "list") {
                let ls = value.get_list();
                self.push_val(Value::List(ls));
            } else if str_eq(style.as_str(), "error") {
                let t = value.get_string();
                self.push_val(Value::Error(t));
            } else {
                self.push_val(value);
            }
        } else if str_eq(cmd, "mem") {
            let keys = self.memory.keys();
            let mut vals: Vec<Value> = Vec::new();
            let mut i: usize = 0;
            while i < keys.len()
                invariant
                    i <= keys@.len(),
                    keys@.len() == crate::env::env_keys(self.sm().mem).len(),
                    forall|j: int|
                        0 <= j < keys@.len() ==> #[trigger] keys@[j]@ == crate::env::env_keys(
                            self.sm().mem,
                        )[j],
                    vals@.len() == i,
                    models(vals@) =~= texts_of(crate::env::env_keys(self.sm().mem)).subrange(
                        0,
                        i as int,
                    ),
                decreases keys@.len() - i,
            {
                vals.push(Value::Text(dup_str(&keys[i])));
                proof {
                    assert(models(vals@) =~= texts_of(crate::env::env_keys(self.sm().mem)).subrange(
                        0,
                        i as int + 1,
                    ));
                }
                i = i + 1;
            }
            proof {
                assert(models(vals@) =~= texts_of(crate::env::env_keys(self.sm().mem)));
            }
            self.push_val(Value::List(vals));
        } else if str_eq(cmd, "free") {
            let name = self.pop_stack().get_string();
            self.memory.remove(name.as_str());
            proof {
                assert(self.sm() =~~= (SM {
                    stack: pop_v(old(self).sm().stack).0,
                    mem: env_remove(old(self).sm().mem, to_text_m(pop_v(old(self).sm().stack).1)),
                    ..old(self).sm()
                }));
            }
            self.show_variables();
        } else if str_eq(cmd, "copy") {
            let data = self.pop_stack();
            let twin = data.duplicate();
            self.push_val(twin);
            self.push_val(data);
        } else if str_eq(cmd, "swap") {
            let b = self.pop_stack();
            let a = self.pop_stack();
            self.push_val(b);
            self.push_val(a);
        } else if str_eq(cmd, "now-time") {
            let b = host::now_seconds_bits();
            self.push_val(Value::Number(b));
        } else if str_eq(cmd, "sleep") {
            // A busy wait on the clock: thread parking cannot stand in
            // verified code, so this blocks the calling path for the asked
            // duration at the price of spinning a core.
            let secs = self.pop_stack().get_number();
            let start = host::now_seconds_bits();
            let deadline = num::add_bits(start, secs);
            let mut guard: u64 = 0;
            loop
                decreases u64::MAX - guard,
            {
                let t = host::now_seconds_bits();
                if !num::lt_bits(t, deadline) {
                    break ;
                }
                if guard == u64::MAX {
                    break ;
                }
                guard = guard + 1;
            }
        } else if str_eq(cmd, "open-image") {
            let _path = self.pop_stack().get_string();
            self.push_val(Value::Resource);
        } else if str_eq(cmd, "show-image") {
            let _img = self.pop_stack();
        } else if str_eq(cmd, "to-grayscale") || str_eq(cmd, "invert-color") || str_eq(
            cmd,
            "edge-detect",
        ) || str_eq(cmd, "color-map") || str_eq(cmd, "histogram-equalization") {
            let _img = self.pop_stack();
            self.push_val(Value::Resource);
        } else if str_eq(cmd, "flip-image") {
            let direction = self.pop_stack().get_string();
            if str_eq(direction.as_str(), "vertical") || str_eq(direction.as_str(), "horizontal") {
                let _img = self.pop_stack();
                self.push_val(Value::Resource);
            } else {
                let e = String::from_str("flip-image");
                self.push_val(Value::Error(e));
            }
        } else if str_eq(cmd, "gaussian-blur") {
            let _ksize = self.pop_stack().get_number();
            let _img = self.pop_stack();
            self.push_val(Value::Resource);
        } else if str_eq(cmd, "resize-image") {
            let _height = self.pop_stack().get_number();
            let _width = self.pop_stack().get_number();
            let _img = self.pop_stack();
            self.push_val(Value::Resource);
        } else if str_eq(cmd, "morphology-operation") {
            let _kernel = self.pop_stack().get_number();
            let op = self.pop_stack().get_string();
            if str_eq(op.as_str(), "dilate") || str_eq(op.as_str(), "erode") || str_eq(
                op.as_str(),
                "open",
            ) || str_eq(op.as_str(), "close") {
                let _img = self.pop_stack();
                self.push_val(Value::Resource);
            } else {
                let e = String::from_str("morphology-operation");
                self.push_val(Value::Error(e));
            }
        } else if str_eq(cmd, "save-image") {
            let _name = self.pop_stack().get_string();
            let _img = self.pop_stack();
        } else if str_eq(cmd, "to-sharpe") {
            let _level = self.pop_stack().get_number();
            let _img = self.pop_stack();
            self.push_val(Value::Resource);
        } else {
            let t = dup_str(command);
            self.push_val(Value::Text(t));
        }
    }
}

/// Builds the weakly ascending reordering of the given texts, in the
/// lexicographic order of their characters.
fn sort_strings(input: Vec<String>) -> (r: Vec<String>)
    ensures
        views_of(r@).to_multiset() == views_of(input@).to_multiset(),
        sorted_lex(views_of(r@)),
{
    let mut out: Vec<String> = Vec::new();
    let mut i: usize = 0;
    proof {
        assert(views_of(out@) =~= views_of(input@).subrange(0, 0));
        assert(views_of(input@).subrange(0, 0).to_multiset() =~= views_of(out@).to_multiset());
    }
    while i < input.len()
        invariant
            i <= input@.len(),
            out@.len() == i,
            views_of(out@).to_multiset() == views_of(input@).subrange(0, i as int).to_multiset(),
            sorted_lex(views_of(out@)),
        decreases input@.len() - i,
    {
        let s = dup_str(&input[i]);
        let mut pos: usize = 0;
        while pos < out.len() && !crate::strings::lt_str(s.as_str(), out[pos].as_str())
            invariant
                pos <= out@.len(),
                forall|k: int|
                    0 <= k < pos ==> !crate::strings::lex_lt(s@, #[trigger] views_of(out@)[k]),
            decreases out@.len() - pos,
        {
            pos = pos + 1;
        }
        let ghost before = views_of(out@);
        let ghost x = views_of(input@)[i as int];
        out.insert(pos, s);
        proof {
            broadcast use vstd::seq_lib::group_to_multiset_ensures;

            assert(views_of(out@) =~= before.insert(pos as int, x));
            lemma_sorted_insert(before, pos as int, x);
            let q = before.insert(pos as int, x);
            assert(q.remove(pos as int) =~= before);
            assert(q[pos as int] == x);
            assert(q.to_multiset().count(x) > 0) by {
                assert(q.contains(x));
            }
            assert(q.to_multiset() =~= before.to_multiset().insert(x));
            assert(views_of(input@).subrange(0, i as int).push(x) =~= views_of(input@).subrange(
                0,
                i as int + 1,
            ));
        }
        i = i + 1;
    }
    proof {
        assert(views_of(input@).subrange(0, views_of(input@).len() as int) =~= views_of(input@));
    }
    out
}

/// Transitivity of the lexicographic order from one shared position on.
proof fn lemma_lex_trans(a: Seq<char>, b: Seq<char>, c: Seq<char>, i: int)
    requires
        0 <= i,
        crate::strings::lex_lt_from(a, b, i),
        crate::strings::lex_lt_from(b, c, i),
    ensures
        crate::strings::lex_lt_from(a, c, i),
    decreases c.len() - i,
{
    if i >= a.len() {
    } else if i < a.len() && i < b.len() && i < c.len() && a[i] == b[i] && b[i] == c[i] {
        lemma_lex_trans(a, b, c, i + 1);
    }
}

/// The lexicographic order never puts a text below itself.
proof fn lemma_lex_irrefl(a: Seq<char>, i: int)
    ensures
        !crate::strings::lex_lt_from(a, a, i),
    decreases a.len() - i,
{
    if 0 <= i < a.len() {
        lemma_lex_irrefl(a, i + 1);
    }
}

/// Inserting at the found boundary keeps the sequence sorted: everything
/// before the spot is not above the new text, and the new text is below the
/// element at the spot.
proof fn lemma_sorted_insert(p: Seq<Seq<char>>, pos: int, x: Seq<char>)
    requires
        0 <= pos <= p.len(),
        sorted_lex(p),
        forall|k: int| 0 <= k < pos ==> !crate::strings::lex_lt(x, #[trigger] p[k]),
        pos < p.len() ==> crate::strings::lex_lt(x, p[pos]),
    ensures
        sorted_lex(p.insert(pos, x)),
{
    let q = p.insert(pos, x);
    assert forall|i: int, j: int| 0 <= i < j < q.len() implies !crate::strings::lex_lt(
        q[j],
        q[i],
    ) by {
        if j < pos {
            assert(q[i] == p[i]);
            assert(q[j] == p[j]);
        } else if i < pos && j == pos {
            assert(q[i] == p[i]);
            assert(q[j] == x);
        } else if i == pos && j > pos {
            assert(q[i] == x);
            assert(q[j] == p[j - 1]);
            assert(pos < p.len());
            if crate::strings::lex_lt(p[j - 1], x) {
                lemma_lex_trans(p[j - 1], x, p[pos], 0);
                assert(crate::strings::lex_lt(p[j - 1], p[pos]));
                if j - 1 == pos {
                    lemma_lex_irrefl(p[pos], 0);
                    assert(false);
                } else {
                    assert(!crate::strings::lex_lt(p[j - 1], p[pos]));
                    assert(false);
                }
            }
        } else if i < pos && j > pos {
            assert(q[i] == p[i]);
            assert(q[j] == p[j - 1]);
            assert(i < j - 1);
        } else {
            assert(i > pos && j > pos);
            assert(q[i] == p[i - 1]);
            assert(q[j] == p[j - 1]);
        }
    }
}


impl Executor {
    /// The `range` command: pops the step, the bound and the start, and
    /// pushes the arithmetic sequence `range_seq_ok` describes.
    fn cmd_range(&mut self)
        ensures
            frame_ok(old(self).sm(), final(self).sm()),
            ({
                let s0 = old(self).sm();
                exists|lw: Seq<ValModel>|
                    {
                        &&& (forall|i: int| 0 <= i < lw.len() ==> (#[trigger] lw[i]) is Number)
                        &&& range_seq_ok(
                            lw,
                            to_num_m(pop3_v(s0.stack).1),
                            to_num_m(pop3_v(s0.stack).2),
                            to_num_m(pop3_v(s0.stack).3),
                        )
                        &&& final(self).sm() == (SM {
                            stack: pop3_v(s0.stack).0.push(ValModel::List(lw)),
                            ..s0
                        })
                    }
            }),
    {
            let step = self.pop_stack().get_number();
            let maxv = self.pop_stack().get_number();
            let minv = self.pop_stack().get_number();
            let mut items: Vec<Value> = Vec::new();
            let mut cur = minv;
            let mut guard: u64 = 0;
            while num::lt_bits(cur, maxv)
                invariant_except_break
                    forall|i: int|
                        0 <= i < models(items@).len() ==> (#[trigger] models(items@)[i]) is Number,
                    items@.len() == guard,
                    models(items@).len() > 0 ==> models(items@)[0] == ValModel::Number(minv),
                    forall|i: int|
                        0 <= i < models(items@).len() - 1 ==> models(items@)[i + 1]
                            == ValModel::Number(
                            num::num_add(#[trigger] num_at(models(items@), i), step),
                        ),
                    forall|i: int|
                        0 <= i < models(items@).len() ==> lt_bits_m(
                            #[trigger] num_at(models(items@), i),
                            maxv,
                        ),
                    cur == if models(items@).len() == 0 {
                        minv
                    } else {
                        num::num_add(num_at(models(items@), models(items@).len() - 1), step)
                    },
                ensures
                    forall|i: int|
                        0 <= i < models(items@).len() ==> (#[trigger] models(items@)[i]) is Number,
                    range_seq_ok(models(items@), minv, maxv, step),
                decreases u64::MAX - guard,
            {
                if guard == u64::MAX {
                    proof {
                        assert(range_seq_ok(models(items@), minv, maxv, step));
                    }
                    break ;
                }
                guard = guard + 1;
                let nx = num::add_bits(cur, step);
                if !num::lt_bits(cur, nx) {
                    proof {
                        assert(range_seq_ok(models(items@), minv, maxv, step));
                    }
                    break ;
                }
                let ghost pre = models(items@);
                items.push(Value::Number(cur));
                proof {
                    assert(models(items@) =~= pre.push(ValModel::Number(cur)));
                    assert forall|i: int|
                        0 <= i < models(items@).len() implies (#[trigger] models(items@)[i])
                        is Number by {
                        if i < pre.len() {
                            assert(models(items@)[i] == pre[i]);
                        } else {
                            assert(models(items@)[i] == ValModel::Number(cur));
                        }
                    }
                    assert forall|i: int|
                        0 <= i < models(items@).len() - 1 implies models(items@)[i + 1]
                        == ValModel::Number(
                        num::num_add(#[trigger] num_at(models(items@), i), step),
                    ) by {
                        if i < pre.len() - 1 {
                            assert(models(items@)[i] == pre[i]);
                            assert(models(items@)[i + 1] == pre[i + 1]);
                            assert(num_at(models(items@), i) == num_at(pre, i));
                            assert(pre[i + 1] == ValModel::Number(
                                num::num_add(num_at(pre, i), step),
                            ));
                        } else {
                            assert(i == pre.len() - 1);
                            assert(models(items@)[i] == pre[pre.len() - 1]);
                            assert(num_at(models(items@), i) == num_at(pre, pre.len() - 1));
                            assert(models(items@)[i + 1] == ValModel::Number(cur));
                            assert(cur == num::num_add(num_at(pre, pre.len() - 1), step));
                        }
                    }
                    assert forall|i: int|
                        0 <= i < models(items@).len() implies lt_bits_m(
                            #[trigger] num_at(models(items@), i),
                            maxv,
                        ) by {
                        if i < pre.len() {
                            assert(models(items@)[i] == pre[i]);
                            assert(num_at(models(items@), i) == num_at(pre, i));
                            assert(lt_bits_m(num_at(pre, i), maxv));
                        } else {
                            assert(models(items@)[i] == ValModel::Number(cur));
                            assert(num_at(models(items@), i) == cur);
                            assert(lt_bits_m(cur, maxv));
                        }
                    }
                }
                cur = nx;
            }
            let ghost w = models(items@);
            self.push_val(Value::List(items));
            proof {
                let s0 = old(self).sm();
                assert(self.sm() =~~= (SM {
                    stack: pop3_v(s0.stack).0.push(ValModel::List(w)),
                    ..s0
                }));
                assert(range_seq_ok(
                    w,
                    to_num_m(pop3_v(s0.stack).1),
                    to_num_m(pop3_v(s0.stack).2),
                    to_num_m(pop3_v(s0.stack).3),
                ));
                assert(exists|lw: Seq<ValModel>|
                    {
                        &&& (forall|i: int| 0 <= i < lw.len() ==> (#[trigger] lw[i]) is Number)
                        &&& range_seq_ok(
                            lw,
                            to_num_m(pop3_v(s0.stack).1),
                            to_num_m(pop3_v(s0.stack).2),
                            to_num_m(pop3_v(s0.stack).3),
                        )
                        &&& self.sm() == (SM {
                            stack: pop3_v(s0.stack).0.push(ValModel::List(lw)),
                            ..s0
                        })
                    });
            }
    }
}

} // verus!

//! Laws of the evaluator, proved from the token relation: arithmetic over
//! two pushed numbers never fails whatever else the stack holds, and a
//! spawned parallel block leaves the spawning side's state untouched.
use crate::env::env_lookup;
use crate::eval::{cmd_rel, pop2_v, pop_v, token_rel, SM};
use crate::num::{
    decimal_grammar, digits_end, eq_icase, lower_u, num_add, parse_literal_m, special_value_m,
};
use crate::value::{to_num_m, ValModel};
use vstd::prelude::*;

verus! {

/// The word `add` is no literal of the language: not a number, not a
/// boolean, not a text, list, error or comment form.
proof fn lemma_add_is_plain()
    ensures
        parse_literal_m("add"@) is None,
        "add"@ != "true"@,
        "add"@ != "false"@,
        "add"@.len() == 3,
        "add"@[0] == 'a',
        "add"@[2] == 'd',
{
    reveal_strlit("add");
    reveal_strlit("true");
    reveal_strlit("false");
    reveal_strlit("inf");
    reveal_strlit("infinity");
    reveal_strlit("nan");
    assert(digits_end("add"@, 0) == 0);
    assert(digits_end("add"@, 1) == 1);
    assert(!decimal_grammar("add"@));
    assert("add"@.subrange(0, 3) =~= "add"@);
    assert(!eq_icase("add"@, "inf"@)) by {
        assert(lower_u("add"@[0]) == 97);
        assert(lower_u("inf"@[0]) == 105);
    }
    assert(!eq_icase("add"@, "infinity"@));
    assert(!eq_icase("add"@, "nan"@)) by {
        assert(lower_u("add"@[0]) == 97);
        assert(lower_u("nan"@[0]) == 110);
    }
    assert(special_value_m("add"@) is None);
}

/// The `add` command is total: whatever the stack held before, one token
/// `add` pops two operands under the underflow-recovery rule and pushes the
/// one Number that is their IEEE-754 sum, and nothing else changes. The
/// name must not be shadowed by a variable.
pub proof fn lemma_add_total(s0: SM, s1: SM)
    requires
        s0.halt is None,
        env_lookup(s0.mem, "add"@) is None,
        token_rel(s0, "add"@, s1),
    ensures
        s1 == (SM {
            stack: pop2_v(s0.stack).0.push(
                ValModel::Number(
                    num_add(to_num_m(pop2_v(s0.stack).1), to_num_m(pop2_v(s0.stack).2)),
                ),
            ),
            ..s0
        }),
{
    lemma_add_is_plain();
    assert(!("add"@.len() >= 6 && "add"@.subrange(0, 6) == "error:"@));
    assert(cmd_rel(s0, "add"@, s1));
}

/// Pushing Number `a`, then Number `b`, then running `add` yields exactly
/// the old stack with the single Number `a + b` on top: the law behind the
/// arithmetic family, holding for every pair of doubles and every prior
/// stack, with no failure possible.
pub proof fn lemma_add_pair(s0: SM, a: u64, b: u64, s1: SM)
    requires
        s0.halt is None,
        env_lookup(s0.mem, "add"@) is None,
        token_rel(
            SM { stack: s0.stack.push(ValModel::Number(a)).push(ValModel::Number(b)), ..s0 },
            "add"@,
            s1,
        ),
    ensures
        s1 == (SM { stack: s0.stack.push(ValModel::Number(num_add(a, b))), ..s0 }),
{
    let sp = SM { stack: s0.stack.push(ValModel::Number(a)).push(ValModel::Number(b)), ..s0 };
    lemma_add_total(sp, s1);
    assert(pop2_v(sp.stack).0 =~= s0.stack);
    assert(pop2_v(sp.stack).1 == ValModel::Number(a));
    assert(pop2_v(sp.stack).2 == ValModel::Number(b));
}

/// The word `thread` is no literal of the language, and no other command
/// name either.
proof fn lemma_thread_is_plain()
    ensures
        parse_literal_m("thread"@) is None,
        "thread"@ != "true"@,
        "thread"@ != "false"@,
        "thread"@.len() == 6,
        "thread"@[0] == 't',
        "thread"@[5] == 'd',
        "thread"@ != "add"@,
        "thread"@ != "sub"@,
        "thread"@ != "mul"@,
        "thread"@ != "div"@,
        "thread"@ != "mod"@,
        "thread"@ != "pow"@,
        "thread"@ != "round"@,
        "thread"@ != "sin"@,
        "thread"@ != "cos"@,
        "thread"@ != "tan"@,
        "thread"@ != "exp"@,
        "thread"@ != "and"@,
        "thread"@ != "or"@,
        "thread"@ != "not"@,
        "thread"@ != "equal"@,
        "thread"@ != "less"@,
        "thread"@ != "rand"@,
        "thread"@ != "shuffle"@,
        "thread"@ != "repeat"@,
        "thread"@ != "decode"@,
        "thread"@ != "encode"@,
        "thread"@ != "concat"@,
        "thread"@ != "replace"@,
        "thread"@ != "split"@,
        "thread"@ != "case"@,
        "thread"@ != "join"@,
        "thread"@ != "find"@,
        "thread"@ != "regex"@,
        "thread"@ != "write-file"@,
        "thread"@ != "read-file"@,
        "thread"@ != "input"@,
        "thread"@ != "print"@,
        "thread"@ != "println"@,
        "thread"@ != "args-cmd"@,
        "thread"@ != "eval"@,
        "thread"@ != "if"@,
        "thread"@ != "while"@,
{
    reveal_strlit("add");
    reveal_strlit("sub");
    reveal_strlit("mul");
    reveal_strlit("div");
    reveal_strlit("mod");
    reveal_strlit("pow");
    reveal_strlit("round");
    reveal_strlit("sin");
    reveal_strlit("cos");
    reveal_strlit("tan");
    reveal_strlit("exp");
    reveal_strlit("and");
    reveal_strlit("or");
    reveal_strlit("not");
    reveal_strlit("equal");
    reveal_strlit("less");
    reveal_strlit("rand");
    reveal_strlit("shuffle");
    reveal_strlit("repeat");
    reveal_strlit("decode");
    reveal_strlit("encode");
    reveal_strlit("concat");
    reveal_strlit("replace");
    reveal_strlit("split");
    reveal_strlit("case");
    reveal_strlit("join");
    reveal_strlit("find");
    reveal_strlit("regex");
    reveal_strlit("write-file");
    reveal_strlit("read-file");
    reveal_strlit("input");
    reveal_strlit("print");
    reveal_strlit("println");
    reveal_strlit("args-cmd");
    reveal_strlit("eval");
    reveal_strlit("if");
    reveal_strlit("while");
    reveal_strlit("thread");
    reveal_strlit("true");
    reveal_strlit("false");
    reveal_strlit("inf");
    reveal_strlit("infinity");
    reveal_strlit("nan");
    assert("thread"@[0] != "repeat"@[0]);
    assert("thread"@[0] != "decode"@[0]);
    assert("thread"@[0] != "encode"@[0]);
    assert("thread"@[0] != "concat"@[0]);
    assert(digits_end("thread"@, 0) == 0);
    assert(!decimal_grammar("thread"@));
    assert("thread"@.subrange(0, 6) =~= "thread"@);
    assert(!eq_icase("thread"@, "inf"@));
    assert(!eq_icase("thread"@, "infinity"@)) by {
        assert(lower_u("thread"@[1]) == 104);
        assert(lower_u("infinity"@[1]) == 110);
    }
    assert(!eq_icase("thread"@, "nan"@));
    assert(special_value_m("thread"@) is None);
}

/// Isolation of spawned work: the `thread` command pops the code block and
/// changes nothing else on the spawning side. Every variable of the
/// spawning interpreter, a variable named `x` included, reads exactly as it
/// did before the spawn, whatever the spawned copy later does to its own
/// deep copy of the state.
pub proof fn lemma_thread_isolation(s0: SM, s1: SM)
    requires
        s0.halt is None,
        env_lookup(s0.mem, "thread"@) is None,
        token_rel(s0, "thread"@, s1),
    ensures
        s1 == (SM { stack: pop_v(s0.stack).0, ..s0 }),
        s1.mem == s0.mem,
        forall|x: Seq<char>| env_lookup(#[trigger] s1.mem, x) == env_lookup(s0.mem, x),
{
    lemma_thread_is_plain();
    assert(!("thread"@.len() >= 6 && "thread"@.subrange(0, 6) == "error:"@)) by {
        reveal_strlit("thread");
        reveal_strlit("error:");
        assert("thread"@[0] == 't' && "error:"@[0] == 'e');
        if "thread"@.subrange(0, 6) == "error:"@ {
            assert("thread"@.subrange(0, 6)[0] == "thread"@[0]);
        }
    }
    assert(cmd_rel(s0, "thread"@, s1));
}

} // verus!

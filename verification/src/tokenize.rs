//! The tokenizer: source text becomes an ordered sequence of token strings.
//! One character-by-character state machine tracks a text-literal depth, a
//! list depth, a block depth, a comment flag and an escape flag, and splits
//! on the spaces seen at zero depth; the same machine, without the block
//! depth and the splitting, unwraps the interior of a text literal.
use crate::strings::{chars_string, to_chars, views_of};
use vstd::prelude::*;

verus! {

/// A space, or one of the characters the tokenizer first turns into a space:
/// newline, carriage return, tab and the full-width space.
pub open spec fn norm_char(c: char) -> char {
    if c == '\n' || c == '\t' || c == '\r' || c == '　' {
        ' '
    } else {
        c
    }
}

/// The text with every newline, carriage return, tab and full-width space
/// replaced by an ordinary space.
pub open spec fn normalized(s: Seq<char>) -> Seq<char> {
    Seq::new(s.len(), |i: int| norm_char(s[i]))
}

/// The tokenizer's state: the token being built, the tokens already flushed,
/// the three nesting counters, and the comment and escape flags.
#[verifier::ext_equal]
pub struct TokSt {
    /// The current token buffer.
    pub buf: Seq<char>,
    /// The flushed tokens, in order.
    pub out: Seq<Seq<char>>,
    /// Text-literal depth: `(` up, `)` down.
    pub strs: int,
    /// List depth: `[` up, `]` down, tracked only at text depth zero.
    pub lists: int,
    /// Block depth: `{` up, `}` down, tracked only at text depth zero.
    pub blocks: int,
    /// Whether a `#` comment is open.
    pub comment: bool,
    /// Whether a backslash is waiting for the next character.
    pub escape: bool,
}

/// The state the tokenizer starts from.
pub open spec fn tok_init() -> TokSt {
    TokSt {
        buf: Seq::empty(),
        out: Seq::empty(),
        strs: 0,
        lists: 0,
        blocks: 0,
        comment: false,
        escape: false,
    }
}

/// One step of the tokenizer on one character.
pub open spec fn tok_step(st: TokSt, c: char) -> TokSt {
    if c == '\\' && !st.escape {
        TokSt { escape: true, ..st }
    } else if c == '(' && !st.comment && !st.escape {
        TokSt { strs: st.strs + 1, buf: st.buf.push('('), ..st }
    } else if c == ')' && !st.comment && !st.escape {
        TokSt { strs: st.strs - 1, buf: st.buf.push(')'), ..st }
    } else if c == '{' && !st.comment && st.strs == 0 && !st.escape {
        TokSt { blocks: st.blocks + 1, buf: st.buf.push('{'), ..st }
    } else if c == '}' && !st.comment && st.strs == 0 && !st.escape {
        TokSt { blocks: st.blocks - 1, buf: st.buf.push('}'), ..st }
    } else if c == '#' && !st.escape {
        TokSt { comment: !st.comment, buf: st.buf.push('#'), ..st }
    } else if c == '[' && !st.comment && st.strs == 0 && !st.escape {
        TokSt { lists: st.lists + 1, buf: st.buf.push('['), ..st }
    } else if c == ']' && !st.comment && st.strs == 0 && !st.escape {
        TokSt { lists: st.lists - 1, buf: st.buf.push(']'), ..st }
    } else if c == ' ' && !st.comment && st.lists == 0 && st.strs == 0 && !st.escape && st.blocks
        == 0 {
        if st.buf.len() > 0 {
            TokSt { out: st.out.push(st.buf), buf: Seq::empty(), ..st }
        } else {
            st
        }
    } else {
        let buf = if st.lists == 0 && st.strs == 0 && !st.comment {
            if st.escape {
                if c == 'n' {
                    st.buf + seq!['\\', 'n']
                } else if c == 't' {
                    st.buf + seq!['\\', 't']
                } else if c == 'r' {
                    st.buf + seq!['\\', 'r']
                } else {
                    st.buf.push(c)
                }
            } else {
                st.buf.push(c)
            }
        } else {
            if st.escape {
                st.buf.push('\\').push(c)
            } else {
                st.buf.push(c)
            }
        };
        TokSt { buf, escape: false, ..st }
    }
}

/// The tokenizer run over `s` from position `i`, starting in state `st`.
pub open spec fn tok_run(s: Seq<char>, i: int, st: TokSt) -> TokSt
    decreases s.len() - i,
{
    if i < 0 || i >= s.len() {
        st
    } else {
        tok_run(s, i + 1, tok_step(st, s[i]))
    }
}

/// The tokens of a source text: the machine runs over the normalized text
/// and a last non-empty buffer is flushed at the end of input.
pub open spec fn tokenize(s: Seq<char>) -> Seq<Seq<char>> {
    let f = tok_run(normalized(s), 0, tok_init());
    if f.buf.len() > 0 {
        f.out.push(f.buf)
    } else {
        f.out
    }
}

/// The unescape machine's state for the interior of a text literal: as the
/// tokenizer's, but with no block depth, no splitting and no output list.
#[verifier::ext_equal]
pub struct UnSt {
    /// The unwrapped text so far.
    pub buf: Seq<char>,
    /// Text-literal depth.
    pub strs: int,
    /// List depth, tracked only at text depth zero.
    pub lists: int,
    /// Whether a `#` comment is open.
    pub comment: bool,
    /// Whether a backslash is waiting for the next character.
    pub escape: bool,
}

/// The state the unescape machine starts from.
pub open spec fn un_init() -> UnSt {
    UnSt { buf: Seq::empty(), strs: 0, lists: 0, comment: false, escape: false }
}

/// One step of the unescape machine on one character.
pub open spec fn un_step(st: UnSt, c: char) -> UnSt {
    if c == '\\' && !st.escape {
        UnSt { escape: true, ..st }
    } else if c == '(' && !st.comment && !st.escape {
        UnSt { strs: st.strs + 1, buf: st.buf.push('('), ..st }
    } else if c == ')' && !st.comment && !st.escape {
        UnSt { strs: st.strs - 1, buf: st.buf.push(')'), ..st }
    } else if c == '#' && !st.escape {
        UnSt { comment: !st.comment, buf: st.buf.push('#'), ..st }
    } else if c == '[' && !st.comment && st.strs == 0 && !st.escape {
        UnSt { lists: st.lists + 1, buf: st.buf.push('['), ..st }
    } else if c == ']' && !st.comment && st.strs == 0 && !st.escape {
        UnSt { lists: st.lists - 1, buf: st.buf.push(']'), ..st }
    } else {
        let buf = if st.lists == 0 && st.strs == 0 && !st.comment {
            if st.escape {
                if c == 'n' {
                    st.buf + seq!['\\', 'n']
                } else if c == 't' {
                    st.buf + seq!['\\', 't']
                } else if c == 'r' {
                    st.buf + seq!['\\', 'r']
                } else {
                    st.buf.push(c)
                }
            } else {
                st.buf.push(c)
            }
        } else {
            if st.escape {
                st.buf.push('\\').push(c)
            } else {
                st.buf.push(c)
            }
        };
        UnSt { buf, escape: false, ..st }
    }
}

/// The unescape machine run over `s` from position `i`.
pub open spec fn un_run(s: Seq<char>, i: int, st: UnSt) -> UnSt
    decreases s.len() - i,
{
    if i < 0 || i >= s.len() {
        st
    } else {
        un_run(s, i + 1, un_step(st, s[i]))
    }
}

/// The final string value of a text literal's interior.
pub open spec fn unescape(s: Seq<char>) -> Seq<char> {
    un_run(s, 0, un_init()).buf
}

/// The tokenizer: the token strings of `code`, in order.
pub fn analyze_syntax(code: &str) -> (r: Vec<String>)
    ensures
        views_of(r@) == tokenize(code@),
{
    let cs = to_chars(code);
    let ghost norm = normalized(code@);
    let mut buf: Vec<char> = Vec::new();
    let mut out: Vec<String> = Vec::new();
    let mut strs: i128 = 0;
    let mut lists: i128 = 0;
    let mut blocks: i128 = 0;
    let mut comment: bool = false;
    let mut escape: bool = false;
    let mut i: usize = 0;
    proof {
        assert(TokSt {
            buf: buf@,
            out: views_of(out@),
            strs: strs as int,
            lists: lists as int,
            blocks: blocks as int,
            comment,
            escape,
        } =~~= tok_init());
    }
    while i < cs.len()
        invariant
            i <= cs.len(),
            cs@ == code@,
            norm == normalized(code@),
            -(i as int) <= strs <= i as int,
            -(i as int) <= lists <= i as int,
            -(i as int) <= blocks <= i as int,
            tok_run(norm, 0, tok_init()) == tok_run(
                norm,
                i as int,
                TokSt {
                    buf: buf@,
                    out: views_of(out@),
                    strs: strs as int,
                    lists: lists as int,
                    blocks: blocks as int,
                    comment,
                    escape,
                },
            ),
        decreases cs.len() - i,
    {
        let ghost st = TokSt {
            buf: buf@,
            out: views_of(out@),
            strs: strs as int,
            lists: lists as int,
            blocks: blocks as int,
            comment,
            escape,
        };
        let c0 = cs[i];
        let c = if c0 == '\n' || c0 == '\t' || c0 == '\r' || c0 == '　' {
            ' '
        } else {
            c0
        };
        proof {
            assert(norm[i as int] == c);
        }
        if c == '\\' && !escape {
            escape = true;
        } else if c == '(' && !comment && !escape {
            strs = strs + 1;
            buf.push('(');
        } else if c == ')' && !comment && !escape {
            strs = strs - 1;
            buf.push(')');
        } else if c == '{' && !comment && strs == 0 && !escape {
            blocks = blocks + 1;
            buf.push('{');
        } else if c == '}' && !comment && strs == 0 && !escape {
            blocks = blocks - 1;
            buf.push('}');
        } else if c == '#' && !escape {
            comment = !comment;
            buf.push('#');
        } else if c == '[' && !comment && strs == 0 && !escape {
            lists = lists + 1;
            buf.push('[');
        } else if c == ']' && !comment && strs == 0 && !escape {
            lists = lists - 1;
            buf.push(']');
        } else if c == ' ' && !comment && lists == 0 && strs == 0 && !escape && blocks == 0 {
            if buf.len() > 0 {
                let t = chars_string(&buf);
                out.push(t);
                buf = Vec::new();
            }
        } else {
            if lists == 0 && strs == 0 && !comment {
                if escape {
                    if c == 'n' {
                        buf.push('\\');
                        buf.push('n');
                    } else if c == 't' {
                        buf.push('\\');
                        buf.push('t');
                    } else if c == 'r' {
                        buf.push('\\');
                        buf.push('r');
                    } else {
                        buf.push(c);
                    }
                } else {
                    buf.push(c);
                }
            } else {
                if escape {
                    buf.push('\\');
                }
                buf.push(c);
            }
            escape = false;
        }
        proof {
            let st2 = TokSt {
                buf: buf@,
                out: views_of(out@),
                strs: strs as int,
                lists: lists as int,
                blocks: blocks as int,
                comment,
                escape,
            };
            assert(st2 =~~= tok_step(st, norm[i as int]));
            assert(tok_run(norm, i as int, st) == tok_run(norm, i as int + 1, st2));
        }
        i = i + 1;
    }
    if buf.len() > 0 {
        let t = chars_string(&buf);
        out.push(t);
    }
    proof {
        assert(views_of(out@) =~= tokenize(code@));
    }
    out
}

/// The unescape pass over the interior of a text literal, the characters of
/// `cs` from `lo` up to `hi`.
pub fn unescape_interior(cs: &Vec<char>, lo: usize, hi: usize) -> (r: String)
    requires
        lo <= hi <= cs@.len(),
    ensures
        r@ == unescape(cs@.subrange(lo as int, hi as int)),
{
    let ghost s = cs@.subrange(lo as int, hi as int);
    let mut buf: Vec<char> = Vec::new();
    let mut strs: i128 = 0;
    let mut lists: i128 = 0;
    let mut comment: bool = false;
    let mut escape: bool = false;
    let mut i: usize = lo;
    proof {
        assert(UnSt {
            buf: buf@,
            strs: strs as int,
            lists: lists as int,
            comment,
            escape,
        } =~~= un_init());
    }
    while i < hi
        invariant
            lo <= i <= hi <= cs@.len(),
            s == cs@.subrange(lo as int, hi as int),
            -(i as int) <= strs <= i as int,
            -(i as int) <= lists <= i as int,
            un_run(s, 0, un_init()) == un_run(
                s,
                i as int - lo as int,
                UnSt {
                    buf: buf@,
                    strs: strs as int,
                    lists: lists as int,
                    comment,
                    escape,
                },
            ),
        decreases hi - i,
    {
        let ghost st = UnSt {
            buf: buf@,
            strs: strs as int,
            lists: lists as int,
            comment,
            escape,
        };
        let c = cs[i];
        proof {
            assert(s[i as int - lo as int] == c);
        }
        if c == '\\' && !escape {
            escape = true;
        } else if c == '(' && !comment && !escape {
            strs = strs + 1;
            buf.push('(');
        } else if c == ')' && !comment && !escape {
            strs = strs - 1;
            buf.push(')');
        } else if c == '#' && !escape {
            comment = !comment;
            buf.push('#');
        } else if c == '[' && !comment && strs == 0 && !escape {
            lists = lists + 1;
            buf.push('[');
        } else if c == ']' && !comment && strs == 0 && !escape {
            lists = lists - 1;
            buf.push(']');
        } else {
            if lists == 0 && strs == 0 && !comment {
                if escape {
                    if c == 'n' {
                        buf.push('\\');
                        buf.push('n');
                    } else if c == 't' {
                        buf.push('\\');
                        buf.push('t');
                    } else if c == 'r' {
                        buf.push('\\');
                        buf.push('r');
                    } else {
                        buf.push(c);
                    }
                } else {
                    buf.push(c);
                }
            } else {
                if escape {
                    buf.push('\\');
                }
                buf.push(c);
            }
            escape = false;
        }
        proof {
            let st2 = UnSt {
                buf: buf@,
                strs: strs as int,
                lists: lists as int,
                comment,
                escape,
            };
            assert(st2 =~~= un_step(st, s[i as int - lo as int]));
            assert(un_run(s, i as int - lo as int, st) == un_run(s, i as int - lo as int + 1, st2));
        }
        i = i + 1;
    }
    chars_string(&buf)
}

} // verus!

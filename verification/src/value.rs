//! The tagged value of the language and its total coercions: every value can
//! be read as text, as a number, as a boolean and as a list, and none of the
//! four readings can fail.
use crate::num;
use crate::num::{
    is_inf_bits, is_nan_bits, is_neg_bits, is_zero_bits, num_of_nat, num_text, parse_literal_m,
    NEG_ZERO, ONE, POS_ZERO,
};
use crate::strings::{dup_str, push_char, str_eq};
use vstd::prelude::*;

verus! {

broadcast use
    vstd::std_specs::vec::axiom_vec_index_decreases,
    vstd::std_specs::vec::axiom_vec_decreases_to_view,
    vstd::seq::axiom_seq_index_decreases;

/// A value of the language. Numbers carry the bit pattern of an IEEE-754
/// double; a Resource stands for the payload of the external image
/// collaborator, which the core never inspects.
pub enum Value {
    Number(u64),
    Text(String),
    Bool(bool),
    List(Vec<Value>),
    Error(String),
    Resource,
}

/// The mathematical model of a `Value`: text as a character sequence, a list
/// as the sequence of its elements' models.
#[verifier::ext_equal]
pub enum ValModel {
    Number(u64),
    Text(Seq<char>),
    Bool(bool),
    List(Seq<ValModel>),
    Error(Seq<char>),
    Resource,
}

/// The models of a sequence of values, element by element.
pub open spec fn models(s: Seq<Value>) -> Seq<ValModel>
    decreases s,
{
    Seq::new(
        s.len(),
        |i: int|
            if 0 <= i < s.len() {
                s[i].model()
            } else {
                ValModel::Resource
            },
    )
}

impl Value {
    /// The model of this value.
    pub open spec fn model(&self) -> ValModel
        decreases self,
    {
        match self {
            Value::Number(b) => ValModel::Number(*b),
            Value::Text(s) => ValModel::Text(s@),
            Value::Bool(b) => ValModel::Bool(*b),
            Value::List(l) => ValModel::List(models(l@)),
            Value::Error(s) => ValModel::Error(s@),
            Value::Resource => ValModel::Resource,
        }
    }
}

/// The text of a number: what Rust prints for the double with these bits.
pub open spec fn number_text_m(b: u64) -> Seq<char> {
    if is_nan_bits(b) {
        "NaN"@
    } else if is_inf_bits(b) {
        if is_neg_bits(b) {
            "-inf"@
        } else {
            "inf"@
        }
    } else {
        num_text(b)
    }
}

/// The to-Text coercion: the text reading of each variant.
pub open spec fn to_text_m(v: ValModel) -> Seq<char>
    decreases v,
{
    match v {
        ValModel::Number(b) => number_text_m(b),
        ValModel::Text(s) => s,
        ValModel::Bool(b) => if b {
            "true"@
        } else {
            "false"@
        },
        ValModel::List(l) => seq!['['] + display_list_m(l) + seq![']'],
        ValModel::Error(e) => "error:"@ + e,
        ValModel::Resource => "{Image}"@,
    }
}

/// The diagnostic rendering: as to-Text, except that text is wrapped in
/// parentheses.
pub open spec fn display_m(v: ValModel) -> Seq<char>
    decreases v,
{
    match v {
        ValModel::Number(b) => number_text_m(b),
        ValModel::Text(s) => seq!['('] + s + seq![')'],
        ValModel::Bool(b) => if b {
            "true"@
        } else {
            "false"@
        },
        ValModel::List(l) => seq!['['] + display_list_m(l) + seq![']'],
        ValModel::Error(e) => "error:"@ + e,
        ValModel::Resource => "{Image}"@,
    }
}

/// The space-joined diagnostic renderings of the elements of a list.
pub open spec fn display_list_m(l: Seq<ValModel>) -> Seq<char>
    decreases l,
{
    if l.len() == 0 {
        Seq::<char>::empty()
    } else if l.len() == 1 {
        display_m(l[0])
    } else {
        display_m(l[0]) + seq![' '] + display_list_m(l.subrange(1, l.len() as int))
    }
}

/// The to-Number coercion: the bit pattern each variant reads as.
pub open spec fn to_num_m(v: ValModel) -> u64 {
    match v {
        ValModel::Number(b) => b,
        ValModel::Text(s) => match parse_literal_m(s) {
            Some(b) => b,
            None => POS_ZERO,
        },
        ValModel::Bool(b) => if b {
            ONE
        } else {
            POS_ZERO
        },
        ValModel::List(l) => num_of_nat(l.len()),
        ValModel::Error(e) => match parse_literal_m(e) {
            Some(b) => b,
            None => POS_ZERO,
        },
        ValModel::Resource => ONE,
    }
}

/// The to-Boolean coercion.
pub open spec fn to_bool_m(v: ValModel) -> bool {
    match v {
        ValModel::Number(b) => !is_zero_bits(b),
        ValModel::Text(s) => s.len() > 0,
        ValModel::Bool(b) => b,
        ValModel::List(l) => l.len() > 0,
        ValModel::Error(e) => e == "true"@,
        ValModel::Resource => true,
    }
}

/// The to-List coercion: text becomes one single-character text per
/// character, a list stays itself, a resource empties, and the rest wrap in a
/// singleton.
pub open spec fn to_list_m(v: ValModel) -> Seq<ValModel> {
    match v {
        ValModel::Number(_) => seq![v],
        ValModel::Text(s) => Seq::new(s.len(), |i: int| ValModel::Text(seq![s[i]])),
        ValModel::Bool(_) => seq![v],
        ValModel::List(l) => l,
        ValModel::Error(_) => seq![v],
        ValModel::Resource => Seq::<ValModel>::empty(),
    }
}

/// The name the type command reports for each variant.
pub open spec fn kind_name_m(v: ValModel) -> Seq<char> {
    match v {
        ValModel::Number(_) => "number"@,
        ValModel::Text(_) => "string"@,
        ValModel::Bool(_) => "bool"@,
        ValModel::List(_) => "list"@,
        ValModel::Error(_) => "error"@,
        ValModel::Resource => "image"@,
    }
}

/// The coercion table is total: every variant has all four readings, with
/// no failing case. The rows that wrap or unwrap are stated here for every
/// value at once; the remaining rows are the ensures of the four readers.
pub proof fn lemma_coercions_total(v: ValModel)
    ensures
        (v is Number || v is Bool || v is Error) ==> to_list_m(v) == seq![v],
        v is List ==> to_list_m(v) == v->List_0,
        v is Resource ==> to_list_m(v) == Seq::<ValModel>::empty(),
        v is Text ==> to_list_m(v).len() == v->Text_0.len(),
        v is Text ==> to_text_m(v) == v->Text_0,
        v is Bool ==> to_num_m(v) == (if v->Bool_0 {
            ONE
        } else {
            POS_ZERO
        }),
        v is List ==> to_num_m(v) == num_of_nat(v->List_0.len()),
        v is List ==> to_bool_m(v) == (v->List_0.len() > 0),
        v is Text ==> to_bool_m(v) == (v->Text_0.len() > 0),
{
}

/// Joining one more rendering onto a space-joined list.
pub proof fn lemma_display_list_push(l: Seq<ValModel>, x: ValModel)
    ensures
        display_list_m(l.push(x)) == if l.len() == 0 {
            display_m(x)
        } else {
            display_list_m(l) + seq![' '] + display_m(x)
        },
    decreases l.len(),
{
    if l.len() == 0 {
        assert(l.push(x) =~= seq![x]);
        assert(display_list_m(l.push(x)) == display_m(x));
    } else {
        let lp = l.push(x);
        assert(lp.len() >= 2);
        assert(lp[0] == l[0]);
        assert(lp.subrange(1, lp.len() as int) =~= l.subrange(1, l.len() as int).push(x));
        lemma_display_list_push(l.subrange(1, l.len() as int), x);
        if l.len() == 1 {
            assert(l.subrange(1, l.len() as int) =~= Seq::<ValModel>::empty());
            assert(display_list_m(lp) == display_m(l[0]) + seq![' '] + display_m(x));
            assert(display_list_m(l) == display_m(l[0]));
        } else {
            assert(display_list_m(l) == display_m(l[0]) + seq![' '] + display_list_m(
                l.subrange(1, l.len() as int),
            ));
            assert(display_list_m(lp) =~= display_list_m(l) + seq![' '] + display_m(x));
        }
    }
}

/// The text of a number value, treating the infinities and NaNs as Rust
/// prints them and handing the finite patterns to the kernel.
pub fn number_text(b: u64) -> (r: String)
    ensures
        r@ == number_text_m(b),
{
    let abs = if b >= NEG_ZERO {
        b - NEG_ZERO
    } else {
        b
    };
    if abs > num::POS_INF {
        String::from_str("NaN")
    } else if abs == num::POS_INF {
        if b >= NEG_ZERO {
            String::from_str("-inf")
        } else {
            String::from_str("inf")
        }
    } else {
        num::text_bits(b)
    }
}

/// The to-List reading of a text: one single-character text per character.
pub fn text_to_list(s: &String) -> (r: Vec<Value>)
    ensures
        models(r@) == to_list_m(ValModel::Text(s@)),
{
    let cs = crate::strings::to_chars(s.as_str());
    let mut out: Vec<Value> = Vec::new();
    let mut i: usize = 0;
    while i < cs.len()
        invariant
            i <= cs.len(),
            cs@ == s@,
            models(out@) =~= to_list_m(ValModel::Text(s@)).subrange(0, i as int),
            out@.len() == i,
        decreases cs.len() - i,
    {
        let mut t = String::from_str("");
        proof {
            reveal_strlit("");
            assert(t@ =~= Seq::<char>::empty());
        }
        push_char(&mut t, cs[i]);
        out.push(Value::Text(t));
        proof {
            assert(models(out@) =~= to_list_m(ValModel::Text(s@)).subrange(0, i as int + 1));
        }
        i = i + 1;
    }
    proof {
        let full = to_list_m(ValModel::Text(s@));
        assert(full.subrange(0, full.len() as int) =~= full);
        assert(models(out@) =~= full);
    }
    out
}


impl Value {
    /// A deep copy whose model is the same.
    pub fn duplicate(&self) -> (r: Value)
        ensures
            r.model() == self.model(),
        decreases self,
    {
        match self {
            Value::Number(b) => Value::Number(*b),
            Value::Text(s) => Value::Text(dup_str(s)),
            Value::Bool(b) => Value::Bool(*b),
            Value::List(l) => {
                let mut out: Vec<Value> = Vec::new();
                let mut i: usize = 0;
                while i < l.len()
                    invariant
                        *self == Value::List(*l),
                        i <= l.len(),
                        models(out@) =~= models(l@).subrange(0, i as int),
                        out@.len() == i,
                    decreases l.len() - i,
                {
                    proof {
                        assert(decreases_to!(*self => self->List_0));
                        assert(decreases_to!(*l => l[i as int]));
                        assert(decreases_to!(*self => l[i as int]));
                    }
                    out.push(l[i].duplicate());
                    proof {
                        assert(models(out@) =~= models(l@).subrange(0, i as int + 1));
                    }
                    i = i + 1;
                }
                proof {
                    assert(models(l@).subrange(0, l@.len() as int) =~= models(l@));
                }
                Value::List(out)
            },
            Value::Error(s) => Value::Error(dup_str(s)),
            Value::Resource => Value::Resource,
        }
    }

    /// The diagnostic rendering.
    pub fn display_text(&self) -> (r: String)
        ensures
            r@ == display_m(self.model()),
        decreases self,
    {
        match self {
            Value::Number(b) => number_text(*b),
            Value::Text(s) => {
                let mut r = String::from_str("(");
                r.append(s.as_str());
                push_char(&mut r, ')');
                proof {
                    reveal_strlit("(");
                    assert(r@ =~= seq!['('] + s@ + seq![')']);
                }
                r
            },
            Value::Bool(b) => if *b {
                String::from_str("true")
            } else {
                String::from_str("false")
            },
            Value::List(l) => {
                let mut r = String::from_str("[");
                let mut i: usize = 0;
                proof {
                    reveal_strlit("[");
                    assert(r@ =~= seq!['['] + display_list_m(models(l@).subrange(0, 0)));
                }
                while i < l.len()
                    invariant
                        *self == Value::List(*l),
                        i <= l.len(),
                        r@ == seq!['['] + display_list_m(models(l@).subrange(0, i as int)),
                    decreases l.len() - i,
                {
                    if i > 0 {
                        push_char(&mut r, ' ');
                    }
                    proof {
                        assert(decreases_to!(*self => self->List_0));
                        assert(decreases_to!(*l => l[i as int]));
                        assert(decreases_to!(*self => l[i as int]));
                    }
                    let piece = l[i].display_text();
                    r.append(piece.as_str());
                    proof {
                        let pre = models(l@).subrange(0, i as int);
                        lemma_display_list_push(pre, l[i as int].model());
                        assert(pre.push(l[i as int].model()) =~= models(l@).subrange(
                            0,
                            i as int + 1,
                        ));
                        assert(r@ =~= seq!['['] + display_list_m(
                            models(l@).subrange(0, i as int + 1),
                        ));
                    }
                    i = i + 1;
                }
                push_char(&mut r, ']');
                proof {
                    assert(models(l@).subrange(0, l@.len() as int) =~= models(l@));
                    assert(r@ =~= seq!['['] + display_list_m(models(l@)) + seq![']']);
                }
                r
            },
            Value::Error(e) => {
                let mut r = String::from_str("error:");
                r.append(e.as_str());
                r
            },
            Value::Resource => String::from_str("{Image}"),
        }
    }

    /// The to-Text coercion.
    pub fn get_string(&self) -> (r: String)
        ensures
            r@ == to_text_m(self.model()),
    {
        match self {
            Value::Number(b) => number_text(*b),
            Value::Text(s) => dup_str(s),
            Value::Bool(b) => if *b {
                String::from_str("true")
            } else {
                String::from_str("false")
            },
            Value::List(_) => self.display_text(),
            Value::Error(e) => {
                let mut r = String::from_str("error:");
                r.append(e.as_str());
                r
            },
            Value::Resource => String::from_str("{Image}"),
        }
    }

    /// The to-Number coercion.
    pub fn get_number(&self) -> (r: u64)
        ensures
            r == to_num_m(self.model()),
    {
        match self {
            Value::Number(b) => *b,
            Value::Text(s) => match num::parse_literal(s.as_str()) {
                Some(b) => b,
                None => POS_ZERO,
            },
            Value::Bool(b) => if *b {
                ONE
            } else {
                POS_ZERO
            },
            Value::List(l) => num::bits_of_usize(l.len()),
            Value::Error(e) => match num::parse_literal(e.as_str()) {
                Some(b) => b,
                None => POS_ZERO,
            },
            Value::Resource => ONE,
        }
    }

    /// The to-Boolean coercion.
    pub fn get_bool(&self) -> (r: bool)
        ensures
            r == to_bool_m(self.model()),
    {
        match self {
            Value::Number(b) => {
                let abs = if *b >= NEG_ZERO {
                    *b - NEG_ZERO
                } else {
                    *b
                };
                abs != 0
            },
            Value::Text(s) => s.as_str().unicode_len() > 0,
            Value::Bool(b) => *b,
            Value::List(l) => l.len() > 0,
            Value::Error(e) => str_eq(e.as_str(), "true"),
            Value::Resource => true,
        }
    }

    /// The to-List coercion.
    pub fn get_list(&self) -> (r: Vec<Value>)
        ensures
            models(r@) == to_list_m(self.model()),
    {
        match self {
            Value::Text(s) => text_to_list(s),
            Value::List(l) => {
                let mut out: Vec<Value> = Vec::new();
                let mut i: usize = 0;
                while i < l.len()
                    invariant
                        i <= l.len(),
                        models(out@) =~= models(l@).subrange(0, i as int),
                        out@.len() == i,
                    decreases l.len() - i,
                {
                    out.push(l[i].duplicate());
                    proof {
                        assert(models(out@) =~= models(l@).subrange(0, i as int + 1));
                    }
                    i = i + 1;
                }
                proof {
                    assert(models(l@).subrange(0, l@.len() as int) =~= models(l@));
                }
                out
            },
            Value::Resource => {
                let out: Vec<Value> = Vec::new();
                proof {
                    assert(models(out@) =~= Seq::<ValModel>::empty());
                }
                out
            },
            _ => {
                let mut out: Vec<Value> = Vec::new();
                out.push(self.duplicate());
                proof {
                    assert(models(out@) =~= seq![self.model()]);
                }
                out
            },
        }
    }

    /// The name of this value's type.
    pub fn kind_name(&self) -> (r: String)
        ensures
            r@ == kind_name_m(self.model()),
    {
        match self {
            Value::Number(_) => String::from_str("number"),
            Value::Text(_) => String::from_str("string"),
            Value::Bool(_) => String::from_str("bool"),
            Value::List(_) => String::from_str("list"),
            Value::Error(_) => String::from_str("error"),
            Value::Resource => String::from_str("image"),
        }
    }
}

} // verus!

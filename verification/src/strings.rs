//! Text helpers: the bridge between `String` and character vectors, the
//! substring specifications behind the std text calls, and the lexicographic
//! order used for sorting.
use vstd::prelude::*;

verus! {

/// The views of a sequence of strings, element by element.
pub open spec fn views_of(s: Seq<String>) -> Seq<Seq<char>> {
    Seq::new(s.len(), |i: int| s[i]@)
}

/// Relies on `str`'s `PartialEq`: two slices are equal exactly when they hold
/// the same characters.
#[verifier::external_body]
pub fn str_eq(a: &str, b: &str) -> (r: bool)
    ensures
        r <==> a@ == b@,
{
    a == b
}

/// Relies on `String::push` appending the one character.
#[verifier::external_body]
pub fn push_char(s: &mut String, c: char)
    ensures
        final(s)@ == old(s)@.push(c),
{
    s.push(c)
}

pub uninterp spec fn lower_of(s: Seq<char>) -> Seq<char>;

pub uninterp spec fn upper_of(s: Seq<char>) -> Seq<char>;

/// Relies on `str::to_lowercase`: the result depends on the characters alone.
#[verifier::external_body]
pub fn lower(s: &str) -> (r: String)
    ensures
        r@ == lower_of(s@),
{
    s.to_lowercase()
}

/// Relies on `str::to_uppercase`: the result depends on the characters alone.
#[verifier::external_body]
pub fn upper(s: &str) -> (r: String)
    ensures
        r@ == upper_of(s@),
{
    s.to_uppercase()
}

/// Whether `w` occurs anywhere in `s`; an empty `w` occurs everywhere.
pub open spec fn has_sub(s: Seq<char>, w: Seq<char>) -> bool
    decreases s.len(),
{
    ||| w.len() == 0
    ||| (s.len() >= w.len() && (s.subrange(0, w.len() as int) == w || has_sub(
        s.subrange(1, s.len() as int),
        w,
    )))
}

/// What `str::replace` returns: every non-overlapping occurrence of `from`,
/// found left to right, replaced by `to`; an empty `from` matches at every
/// character boundary.
pub open spec fn replace_of(s: Seq<char>, from: Seq<char>, to: Seq<char>) -> Seq<char>
    decreases s.len(),
{
    if from.len() == 0 {
        if s.len() == 0 {
            to
        } else {
            to + seq![s[0]] + replace_of(s.subrange(1, s.len() as int), from, to)
        }
    } else if s.len() >= from.len() && s.subrange(0, from.len() as int) == from {
        to + replace_of(s.subrange(from.len() as int, s.len() as int), from, to)
    } else if s.len() == 0 {
        s
    } else {
        seq![s[0]] + replace_of(s.subrange(1, s.len() as int), from, to)
    }
}

/// What `str::split` yields: the pieces between non-overlapping occurrences
/// of `sep`, found left to right; an empty `sep` splits at every character
/// boundary, with an empty piece at each end.
pub open spec fn split_of(s: Seq<char>, sep: Seq<char>) -> Seq<Seq<char>>
    decreases s.len(),
{
    if sep.len() == 0 {
        seq![Seq::<char>::empty()] + Seq::new(s.len(), |i: int| seq![s[i]]) + seq![
            Seq::<char>::empty(),
        ]
    } else if s.len() >= sep.len() && s.subrange(0, sep.len() as int) == sep {
        seq![Seq::<char>::empty()] + split_of(s.subrange(sep.len() as int, s.len() as int), sep)
    } else if s.len() == 0 {
        seq![s]
    } else {
        let rest = split_of(s.subrange(1, s.len() as int), sep);
        rest.update(0, seq![s[0]] + rest[0])
    }
}

/// Relies on `str::contains` with a string pattern.
#[verifier::external_body]
pub fn contains_text(s: &str, w: &str) -> (r: bool)
    ensures
        r <==> has_sub(s@, w@),
{
    s.contains(w)
}

/// Relies on `str::replace` with a string pattern.
#[verifier::external_body]
pub fn replace_text(s: &str, from: &str, to: &str) -> (r: String)
    ensures
        r@ == replace_of(s@, from@, to@),
{
    s.replace(from, to)
}

/// Relies on `str::split` with a string pattern.
#[verifier::external_body]
pub fn split_text(s: &str, sep: &str) -> (r: Vec<String>)
    ensures
        views_of(r@) == split_of(s@, sep@),
{
    s.split(sep).map(|x| x.to_string()).collect()
}

/// The characters of `s`, one by one.
pub fn to_chars(s: &str) -> (r: Vec<char>)
    ensures
        r@ == s@,
{
    let n = s.unicode_len();
    let mut v: Vec<char> = Vec::new();
    let mut i: usize = 0;
    while i < n
        invariant
            i <= n,
            n == s@.len(),
            v@ == s@.subrange(0, i as int),
        decreases n - i,
    {
        let c = s.get_char(i);
        v.push(c);
        proof {
            assert(v@ =~= s@.subrange(0, i as int + 1));
        }
        i = i + 1;
    }
    proof {
        assert(s@.subrange(0, n as int) =~= s@);
    }
    v
}

/// A `String` holding exactly the characters of `v`.
pub fn chars_string(v: &Vec<char>) -> (r: String)
    ensures
        r@ == v@,
{
    let mut s = String::from_str("");
    proof {
        reveal_strlit("");
        assert(""@ =~= Seq::<char>::empty());
    }
    let mut i: usize = 0;
    while i < v.len()
        invariant
            i <= v.len(),
            s@ == v@.subrange(0, i as int),
        decreases v.len() - i,
    {
        push_char(&mut s, v[i]);
        proof {
            assert(s@ =~= v@.subrange(0, i as int + 1));
        }
        i = i + 1;
    }
    proof {
        assert(v@.subrange(0, v@.len() as int) =~= v@);
    }
    s
}

/// A copy of `s` holding the same characters.
pub fn dup_str(s: &String) -> (r: String)
    ensures
        r@ == s@,
{
    String::from_str(s.as_str())
}

/// Lexicographic "less than" over the characters from position `i` on,
/// ordering characters by code point as Rust's `str` order does.
pub open spec fn lex_lt_from(a: Seq<char>, b: Seq<char>, i: int) -> bool
    decreases b.len() - i,
{
    if i < 0 || i >= b.len() {
        false
    } else if i >= a.len() {
        true
    } else if a[i] != b[i] {
        (a[i] as u32) < (b[i] as u32)
    } else {
        lex_lt_from(a, b, i + 1)
    }
}

/// Lexicographic order of two character sequences.
pub open spec fn lex_lt(a: Seq<char>, b: Seq<char>) -> bool {
    lex_lt_from(a, b, 0)
}

/// Whether `a` comes strictly before `b` in the order `str`'s `Ord` gives.
pub fn lt_str(a: &str, b: &str) -> (r: bool)
    ensures
        r == lex_lt(a@, b@),
{
    let an = a.unicode_len();
    let bn = b.unicode_len();
    let mut i: usize = 0;
    loop
        invariant
            0 <= i,
            an == a@.len(),
            bn == b@.len(),
            lex_lt(a@, b@) == lex_lt_from(a@, b@, i as int),
        decreases bn - i,
    {
        if i >= bn {
            return false;
        }
        if i >= an {
            return true;
        }
        let ca = a.get_char(i);
        let cb = b.get_char(i);
        if ca != cb {
            return (ca as u32) < (cb as u32);
        }
        i = i + 1;
    }
}


/// The characters of `cs` from `lo` up to `hi`.
pub fn sub_chars(cs: &Vec<char>, lo: usize, hi: usize) -> (r: Vec<char>)
    requires
        lo <= hi <= cs@.len(),
    ensures
        r@ == cs@.subrange(lo as int, hi as int),
{
    let mut v: Vec<char> = Vec::new();
    let mut i: usize = lo;
    while i < hi
        invariant
            lo <= i <= hi <= cs@.len(),
            v@ == cs@.subrange(lo as int, i as int),
        decreases hi - i,
    {
        v.push(cs[i]);
        proof {
            assert(v@ =~= cs@.subrange(lo as int, i as int + 1));
        }
        i = i + 1;
    }
    v
}

/// Relies on `char::from_u32`: a character for every code point that is not
/// a surrogate and not beyond the last plane, and nothing otherwise; the
/// returned character has exactly the given code point.
#[verifier::external_body]
pub fn decode_char(c: u32) -> (r: Option<char>)
    ensures
        r is Some <==> (c < 0xD800 || (0xE000 <= c && c <= 0x10FFFF)),
        r matches Some(ch) ==> ch as u32 == c,
{
    char::from_u32(c)
}

} // verus!

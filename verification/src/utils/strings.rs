use vstd::prelude::*;
use vstd::string::StringExecFns;

verus! {

/// `a` comes before `b` in the order of texts: at the first place where
/// they differ `a` has the smaller character, or `a` ends there and `b`
/// goes on.
pub open spec fn lex_lt(a: Seq<char>, b: Seq<char>) -> bool
    decreases a.len(),
{
    if b.len() == 0 {
        false
    } else if a.len() == 0 {
        true
    } else if a[0] != b[0] {
        (a[0] as u32) < (b[0] as u32)
    } else {
        lex_lt(a.drop_first(), b.drop_first())
    }
}

/// The operator `<` of `String`: the order of texts by the code points of
/// their characters.
#[verifier::external_body]
pub(crate) fn string_lt(a: &String, b: &String) -> (r: bool)
    ensures
        r == lex_lt(a@, b@),
{
    a < b
}

/// The ascending sequence `s` with `x` put in its place, unless `s` holds
/// it already.
pub open spec fn inserted(s: Seq<Seq<char>>, x: Seq<char>) -> Seq<Seq<char>>
    decreases s.len(),
{
    if s.len() == 0 {
        seq![x]
    } else if s.last() == x {
        s
    } else if lex_lt(s.last(), x) {
        s.push(x)
    } else {
        inserted(s.drop_last(), x).push(s.last())
    }
}

/// The first `n` of `names` in ascending order, each once.
pub open spec fn sorted_names(names: Seq<Seq<char>>, n: nat) -> Seq<Seq<char>>
    decreases n,
{
    if n == 0 {
        Seq::empty()
    } else {
        inserted(sorted_names(names, (n - 1) as nat), names[n - 1])
    }
}

/// The first `n` of `names` with `sep` between them.
pub open spec fn joined(names: Seq<Seq<char>>, sep: Seq<char>, n: nat) -> Seq<char>
    decreases n,
{
    if n == 0 {
        Seq::empty()
    } else if n == 1 {
        names[0]
    } else {
        joined(names, sep, (n - 1) as nat) + sep + names[n - 1]
    }
}

pub open spec fn texts(v: Seq<String>) -> Seq<Seq<char>> {
    Seq::new(v.len(), |i: int| v[i]@)
}

/// Puts `x` in its place in the ascending `s`, unless `s` holds it
/// already.
pub fn insert_sorted(s: Vec<String>, x: String) -> (r: Vec<String>)
    ensures
        texts(r@) == inserted(texts(s@), x@),
    decreases s@.len(),
{
    let mut s = s;
    let ghost before = texts(s@);
    if s.len() == 0 {
        s.push(x);
        assert(texts(s@) =~= seq![x@]);
        return s;
    }
    let last = s.pop().unwrap();
    assert(texts(s@) =~= before.drop_last());
    assert(last@ == before.last());
    if x == last {
        s.push(last);
        assert(texts(s@) =~= before);
        s
    } else if string_lt(&last, &x) {
        s.push(last);
        s.push(x);
        assert(texts(s@) =~= before.push(x@));
        s
    } else {
        let mut r = insert_sorted(s, x);
        let ghost mid = texts(r@);
        r.push(last);
        assert(texts(r@) =~= mid.push(last@));
        r
    }
}

/// The texts of `names` in ascending order, each once.
pub fn sort_dedup(names: &Vec<String>) -> (r: Vec<String>)
    ensures
        texts(r@) == sorted_names(texts(names@), names@.len()),
{
    let mut out: Vec<String> = Vec::new();
    let mut i: usize = 0;
    assert(texts(out@) =~= sorted_names(texts(names@), 0));
    while i < names.len()
        invariant
            i <= names.len(),
            texts(out@) == sorted_names(texts(names@), i as nat),
        decreases names.len() - i,
    {
        out = insert_sorted(out, names[i].clone());
        i += 1;
    }
    out
}

/// The texts of `names` with `sep` between them.
pub fn join(names: &Vec<String>, sep: &str) -> (r: String)
    ensures
        r@ == joined(texts(names@), sep@, names@.len()),
{
    let mut out = String::new();
    let mut i: usize = 0;
    while i < names.len()
        invariant
            i <= names.len(),
            out@ == joined(texts(names@), sep@, i as nat),
        decreases names.len() - i,
    {
        if i > 0 {
            out.append(sep);
        }
        out.append(names[i].as_str());
        proof {
            if i == 0 {
                assert(Seq::<char>::empty() + names@[0]@ =~= names@[0]@);
            }
        }
        i += 1;
    }
    out
}

} // verus!

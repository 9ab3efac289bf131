//! The functions that conditions can call: `concat`, `split`, `length`, `is_empty` and
//! `float_sum`.
use vstd::prelude::*;
use vstd::utf8::encode_utf8;
use crate::text::{chars_of, matches_at, occurs_at, seq_contains, str_eq, string_from_chars};
use crate::val::ValType;
use crate::methods::join_texts;

verus! {

/// The result type of the registered function called `name`, `None` when no function has
/// that name.
pub open spec fn fn_ret_type(name: Seq<char>) -> Option<ValType> {
    if name == seq!['c', 'o', 'n', 'c', 'a', 't'] {
        Some(ValType::String)
    } else if name == seq!['s', 'p', 'l', 'i', 't'] {
        Some(ValType::StringList)
    } else if name == seq!['l', 'e', 'n', 'g', 't', 'h'] {
        Some(ValType::Int)
    } else if name == seq!['i', 's', '_', 'e', 'm', 'p', 't', 'y'] {
        Some(ValType::Bool)
    } else if name == seq!['f', 'l', 'o', 'a', 't', '_', 's', 'u', 'm'] {
        Some(ValType::Float)
    } else {
        None
    }
}

/// Which registered function a name stands for.
#[derive(Debug, Clone, Copy, PartialEq, Eq, Structural)]
pub enum FnId {
    Concat,
    Split,
    Length,
    IsEmpty,
    FloatSum,
}

pub open spec fn fn_id_of(name: Seq<char>) -> Option<FnId> {
    if name == seq!['c', 'o', 'n', 'c', 'a', 't'] {
        Some(FnId::Concat)
    } else if name == seq!['s', 'p', 'l', 'i', 't'] {
        Some(FnId::Split)
    } else if name == seq!['l', 'e', 'n', 'g', 't', 'h'] {
        Some(FnId::Length)
    } else if name == seq!['i', 's', '_', 'e', 'm', 'p', 't', 'y'] {
        Some(FnId::IsEmpty)
    } else if name == seq!['f', 'l', 'o', 'a', 't', '_', 's', 'u', 'm'] {
        Some(FnId::FloatSum)
    } else {
        None
    }
}

/// Looks a function up by name.
pub fn lookup_function(name: &str) -> (r: Option<FnId>)
    ensures
        r == fn_id_of(name@),
{
    proof {
        reveal_strlit("concat");
        reveal_strlit("split");
        reveal_strlit("length");
        reveal_strlit("is_empty");
        reveal_strlit("float_sum");
        assert("concat"@ =~= seq!['c', 'o', 'n', 'c', 'a', 't']);
        assert("split"@ =~= seq!['s', 'p', 'l', 'i', 't']);
        assert("length"@ =~= seq!['l', 'e', 'n', 'g', 't', 'h']);
        assert("is_empty"@ =~= seq!['i', 's', '_', 'e', 'm', 'p', 't', 'y']);
        assert("float_sum"@ =~= seq!['f', 'l', 'o', 'a', 't', '_', 's', 'u', 'm']);
    }
    if str_eq(name, "concat") {
        Some(FnId::Concat)
    } else if str_eq(name, "split") {
        Some(FnId::Split)
    } else if str_eq(name, "length") {
        Some(FnId::Length)
    } else if str_eq(name, "is_empty") {
        Some(FnId::IsEmpty)
    } else if str_eq(name, "float_sum") {
        Some(FnId::FloatSum)
    } else {
        None
    }
}

/// The result type of the function called `name`.
pub fn return_type(name: &str) -> (r: Option<ValType>)
    ensures
        r == fn_ret_type(name@),
{
    match lookup_function(name) {
        Some(FnId::Concat) => Some(ValType::String),
        Some(FnId::Split) => Some(ValType::StringList),
        Some(FnId::Length) => Some(ValType::Int),
        Some(FnId::IsEmpty) => Some(ValType::Bool),
        Some(FnId::FloatSum) => Some(ValType::Float),
        None => None,
    }
}

/// The strings of `l` joined with nothing between them.
pub open spec fn concat_all(l: Seq<Seq<char>>) -> Seq<char>
    decreases l.len(),
{
    if l.len() == 0 {
        Seq::empty()
    } else {
        concat_all(l.drop_last()) + l.last()
    }
}

/// The pieces of `s` from `start` on, cut at the leftmost occurrences of a non-empty `d`
/// that do not overlap; `i` is where the search for the next occurrence goes on.
pub open spec fn split_from(s: Seq<char>, d: Seq<char>, start: int, i: int) -> Seq<Seq<char>>
    decreases s.len() - i,
{
    if d.len() == 0 || i < start || i + d.len() > s.len() {
        seq![s.subrange(start, s.len() as int)]
    } else if occurs_at(s, d, i) {
        seq![s.subrange(start, i)] + split_from(s, d, i + d.len(), i + d.len())
    } else {
        split_from(s, d, start, i + 1)
    }
}

/// What `str::split` gives: the pieces between the leftmost non-overlapping occurrences
/// of `d`; for an empty `d`, an empty piece, each character, and an empty piece.
pub open spec fn split_pieces(s: Seq<char>, d: Seq<char>) -> Seq<Seq<char>> {
    if d.len() == 0 {
        seq![Seq::<char>::empty()] + s.map_values(|c: char| seq![c]) + seq![Seq::<char>::empty()]
    } else {
        split_from(s, d, 0, 0)
    }
}

/// The length of `s` in UTF-8 bytes, as an `i64`.
pub open spec fn byte_len(s: Seq<char>) -> i64 {
    (encode_utf8(s).len() as usize) as i64
}

/// Joins strings with nothing between them.
pub fn concat(a: Vec<String>) -> (r: String)
    ensures
        r@ == concat_all(a@.map_values(|x: String| x@)),
{
    let mut out: Vec<char> = Vec::new();
    let mut i: usize = 0;
    while i < a.len()
        invariant
            i <= a@.len(),
            out@ == concat_all(a@.take(i as int).map_values(|x: String| x@)),
        decreases a.len() - i,
    {
        let cs = chars_of(a[i].as_str());
        let mut j: usize = 0;
        let ghost before = out@;
        while j < cs.len()
            invariant
                j <= cs@.len(),
                out@ == before + cs@.take(j as int),
            decreases cs.len() - j,
        {
            out.push(cs[j]);
            j = j + 1;
            proof {
                assert(out@ =~= before + cs@.take(j as int));
            }
        }
        proof {
            assert(cs@.take(cs@.len() as int) =~= cs@);
            assert(a@.take(i + 1).map_values(|x: String| x@).drop_last() =~= a@.take(
                i as int,
            ).map_values(|x: String| x@));
        }
        i = i + 1;
    }
    proof {
        assert(a@.take(a@.len() as int) =~= a@);
    }
    string_from_chars(out.as_slice())
}

/// Splits `s` at the occurrences of `delimiter` (see `split_pieces`).
pub fn split(s: String, delimiter: String) -> (r: Vec<String>)
    ensures
        r@.map_values(|x: String| x@) == split_pieces(s@, delimiter@),
{
    let cs = chars_of(s.as_str());
    let d = chars_of(delimiter.as_str());
    let mut out: Vec<String> = Vec::new();
    if d.len() == 0 {
        out.push(String::new());
        let mut i: usize = 0;
        while i < cs.len()
            invariant
                i <= cs@.len(),
                out@.map_values(|x: String| x@) == seq![Seq::<char>::empty()] + cs@.take(
                    i as int,
                ).map_values(|c: char| seq![c]),
            decreases cs.len() - i,
        {
            let mut piece: Vec<char> = Vec::new();
            piece.push(cs[i]);
            let ghost before = out@;
            let t = string_from_chars(piece.as_slice());
            out.push(t);
            i = i + 1;
            proof {
                assert(piece@ =~= seq![cs@[i - 1]]);
                assert(out@.map_values(|x: String| x@) =~= before.map_values(|x: String| x@).push(
                    seq![cs@[i - 1]],
                ));
                assert(cs@.take(i as int) =~= cs@.take(i - 1).push(cs@[i - 1]));
                assert(out@.map_values(|x: String| x@) =~= seq![Seq::<char>::empty()] + cs@.take(
                    i as int,
                ).map_values(|c: char| seq![c]));
            }
        }
        out.push(String::new());
        proof {
            assert(cs@.take(cs@.len() as int) =~= cs@);
            assert(out@.map_values(|x: String| x@) =~= split_pieces(s@, delimiter@));
        }
        return out;
    }
    let mut start: usize = 0;
    let mut i: usize = 0;
    proof {
        assert(out@.map_values(|x: String| x@) + split_from(cs@, d@, 0, 0) =~= split_from(
            cs@,
            d@,
            0,
            0,
        ));
    }
    while i < cs.len() && d.len() <= cs.len() - i
        invariant
            d@.len() > 0,
            start <= i <= cs@.len(),
            cs@ == s@,
            d@ == delimiter@,
            out@.map_values(|x: String| x@) + split_from(cs@, d@, start as int, i as int)
                == split_pieces(s@, delimiter@),
        decreases cs.len() - i,
    {
        if matches_at(cs.as_slice(), d.as_slice(), i) {
            let ghost before = out@;
            let piece = slice_to_string(cs.as_slice(), start, i);
            out.push(piece);
            proof {
                assert(out@.map_values(|x: String| x@) =~= before.map_values(|x: String| x@).push(
                    cs@.subrange(start as int, i as int),
                ));
                assert(split_from(cs@, d@, start as int, i as int) == seq![
                    cs@.subrange(start as int, i as int),
                ] + split_from(cs@, d@, i + d@.len(), i + d@.len()));
                assert(out@.map_values(|x: String| x@) + split_from(cs@, d@, i + d@.len(), i
                    + d@.len()) =~= before.map_values(|x: String| x@) + split_from(
                    cs@,
                    d@,
                    start as int,
                    i as int,
                ));
            }
            i = i + d.len();
            start = i;
        } else {
            i = i + 1;
        }
    }
    let ghost before = out@;
    let piece = slice_to_string(cs.as_slice(), start, cs.len());
    out.push(piece);
    proof {
        assert(split_from(cs@, d@, start as int, i as int) == seq![
            cs@.subrange(start as int, cs@.len() as int),
        ]);
        assert(out@.map_values(|x: String| x@) =~= before.map_values(|x: String| x@) + split_from(
            cs@,
            d@,
            start as int,
            i as int,
        ));
    }
    out
}

fn slice_to_string(cs: &[char], from: usize, to: usize) -> (r: String)
    requires
        from <= to <= cs@.len(),
    ensures
        r@ == cs@.subrange(from as int, to as int),
{
    let mut v: Vec<char> = Vec::new();
    let mut k: usize = from;
    while k < to
        invariant
            from <= k <= to,
            to <= cs@.len(),
            v@ == cs@.subrange(from as int, k as int),
        decreases to - k,
    {
        v.push(cs[k]);
        k = k + 1;
        proof {
            assert(v@ =~= cs@.subrange(from as int, k as int));
        }
    }
    string_from_chars(v.as_slice())
}

/// The length of `s` in UTF-8 bytes.
pub fn length(s: String) -> (r: i64)
    ensures
        r == byte_len(s@),
{
    s.as_str().len() as i64
}

/// Whether `s` has no characters.
pub fn is_empty(s: String) -> (r: bool)
    ensures
        r == (s@.len() == 0),
{
    s.as_str().is_empty()
}

/// `is_empty(s)` holds exactly when `length(s)` is 0 (for a string whose UTF-8 length fits
/// in an `i64` and a `usize`, as every string in memory does).
pub proof fn law_is_empty_iff_zero_length(s: Seq<char>)
    requires
        encode_utf8(s).len() <= usize::MAX,
        encode_utf8(s).len() <= i64::MAX,
    ensures
        (s.len() == 0) == (byte_len(s) == 0),
{
    if s.len() > 0 {
        assert(encode_utf8(s) == vstd::utf8::encode_scalar(s[0] as u32) + encode_utf8(s.drop_first()));
        assert(vstd::utf8::encode_scalar(s[0] as u32).len() >= 1);
    }
}

/// Joining a first text onto others.
pub proof fn lemma_join_front(a: Seq<char>, rest: Seq<Seq<char>>, d: Seq<char>)
    ensures
        join_texts(seq![a] + rest, d) == if rest.len() == 0 {
            a
        } else {
            a + d + join_texts(rest, d)
        },
    decreases rest.len(),
{
    let l = seq![a] + rest;
    if rest.len() == 0 {
        assert(l =~= seq![a]);
    } else if rest.len() == 1 {
        assert(l.drop_last() =~= seq![a]);
        assert(join_texts(seq![a], d) == a);
        assert(l.last() == rest[0]);
        assert(join_texts(l, d) == join_texts(l.drop_last(), d) + d + l.last());
        assert(join_texts(rest, d) == rest[0]);
    } else {
        assert(l.drop_last() =~= seq![a] + rest.drop_last());
        assert(l.last() == rest.last());
        assert(join_texts(l, d) == join_texts(l.drop_last(), d) + d + l.last());
        assert(join_texts(rest, d) == join_texts(rest.drop_last(), d) + d + rest.last());
        lemma_join_front(a, rest.drop_last(), d);
        assert(a + d + join_texts(rest.drop_last(), d) + d + rest.last() =~= a + d + (join_texts(
            rest.drop_last(),
            d,
        ) + d + rest.last()));
    }
}

proof fn lemma_split_from_join(s: Seq<char>, d: Seq<char>, start: int, i: int)
    requires
        d.len() > 0,
        0 <= start <= i,
        start <= s.len(),
    ensures
        split_from(s, d, start, i).len() >= 1,
        join_texts(split_from(s, d, start, i), d) == s.subrange(start, s.len() as int),
    decreases s.len() - i,
{
    if i + d.len() > s.len() {
    } else if occurs_at(s, d, i) {
        let rest = split_from(s, d, i + d.len(), i + d.len());
        lemma_split_from_join(s, d, i + d.len(), i + d.len());
        lemma_join_front(s.subrange(start, i), rest, d);
        assert(s.subrange(i, i + d.len()) == d);
        assert(s.subrange(start, i) + d + s.subrange(i + d.len(), s.len() as int) =~= s.subrange(
            start,
            s.len() as int,
        ));
    } else {
        lemma_split_from_join(s, d, start, i + 1);
    }
}

/// Joining the pieces of `split(s, d)` with `d` between them gives `s` back, for a
/// non-empty `d`.
pub proof fn law_split_then_join(s: Seq<char>, d: Seq<char>)
    requires
        d.len() > 0,
    ensures
        join_texts(split_pieces(s, d), d) == s,
{
    lemma_split_from_join(s, d, 0, 0);
    assert(s.subrange(0, s.len() as int) =~= s);
}

proof fn lemma_piece_clean(s: Seq<char>, d: Seq<char>, start: int, e: int)
    requires
        d.len() > 0,
        0 <= start <= e <= s.len(),
        forall|j: int| start <= j && j + d.len() <= e ==> !#[trigger] occurs_at(s, d, j),
    ensures
        !seq_contains(s.subrange(start, e), d),
{
    let piece = s.subrange(start, e);
    assert forall|p: int| !#[trigger] occurs_at(piece, d, p) by {
        if occurs_at(piece, d, p) {
            assert(piece.subrange(p, p + d.len()) =~= s.subrange(start + p, start + p + d.len()));
            assert(occurs_at(s, d, start + p));
        }
    }
}

proof fn lemma_split_from_clean(s: Seq<char>, d: Seq<char>, start: int, i: int)
    requires
        d.len() > 0,
        0 <= start <= i,
        start <= s.len(),
        forall|j: int| start <= j < i ==> !#[trigger] occurs_at(s, d, j),
    ensures
        forall|k: int|
            0 <= k < split_from(s, d, start, i).len() ==> !seq_contains(
                #[trigger] split_from(s, d, start, i)[k],
                d,
            ),
    decreases s.len() - i,
{
    if i + d.len() > s.len() {
        lemma_piece_clean(s, d, start, s.len() as int);
        assert(split_from(s, d, start, i) == seq![s.subrange(start, s.len() as int)]);
    } else if occurs_at(s, d, i) {
        let rest = split_from(s, d, i + d.len(), i + d.len());
        lemma_split_from_clean(s, d, i + d.len(), i + d.len());
        lemma_piece_clean(s, d, start, i);
        let all = seq![s.subrange(start, i)] + rest;
        assert(split_from(s, d, start, i) == all);
        assert forall|k: int| 0 <= k < all.len() implies !seq_contains(#[trigger] all[k], d) by {
            if k > 0 {
                assert(all[k] == rest[k - 1]);
            }
        }
    } else {
        lemma_split_from_clean(s, d, start, i + 1);
        assert(split_from(s, d, start, i) == split_from(s, d, start, i + 1));
    }
}

/// No piece of `split(s, d)` contains `d`, for a non-empty `d`.
pub proof fn law_split_pieces_lack_delimiter(s: Seq<char>, d: Seq<char>)
    requires
        d.len() > 0,
    ensures
        forall|k: int|
            0 <= k < split_pieces(s, d).len() ==> !seq_contains(#[trigger] split_pieces(s, d)[k], d),
{
    lemma_split_from_clean(s, d, 0, 0);
}

/// The number of leftmost non-overlapping occurrences of a non-empty `d` in `s` from `i` on.
pub open spec fn occurrences_from(s: Seq<char>, d: Seq<char>, i: int) -> nat
    decreases s.len() - i,
{
    if d.len() == 0 || i < 0 || i + d.len() > s.len() {
        0
    } else if occurs_at(s, d, i) {
        1 + occurrences_from(s, d, i + d.len())
    } else {
        occurrences_from(s, d, i + 1)
    }
}

proof fn lemma_split_from_count(s: Seq<char>, d: Seq<char>, start: int, i: int)
    requires
        d.len() > 0,
        0 <= start <= i,
    ensures
        split_from(s, d, start, i).len() == occurrences_from(s, d, i) + 1,
    decreases s.len() - i,
{
    if i + d.len() > s.len() {
    } else if occurs_at(s, d, i) {
        lemma_split_from_count(s, d, i + d.len(), i + d.len());
    } else {
        lemma_split_from_count(s, d, start, i + 1);
    }
}

/// `split(s, d)` gives one piece more than there are (leftmost, non-overlapping)
/// occurrences of a non-empty `d` in `s`.
pub proof fn law_split_count(s: Seq<char>, d: Seq<char>)
    requires
        d.len() > 0,
    ensures
        split_pieces(s, d).len() == occurrences_from(s, d, 0) + 1,
{
    lemma_split_from_count(s, d, 0, 0);
}

} // verus!

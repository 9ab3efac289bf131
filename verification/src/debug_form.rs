//! Values written out the way their debug form shows them in error messages:
//! `Int(Int(5))`, `Str(Str(FatString(abc)))`, `FieldIndex(Field("a"), 1)` and so on.
use vstd::prelude::*;
use crate::ast::{SVal, Val};
use crate::evaluate::{int_text, int_to_text, nat_text};
use crate::fat_string::InsensitiveFlag;
use crate::float::{Float, FLOAT_SCALE};
use crate::methods::{drop_trailing_zeros, float_text, float_to_text, nat_digits};
use crate::text::{chars_of, string_from_chars};

verus! {

/// What std's `Debug` for `str` writes for a text: the text in double quotes, with quotes,
/// backslashes and non-printable characters escaped.
pub uninterp spec fn str_debug(s: Seq<char>) -> Seq<char>;

/// Calls std's `Debug` for `str` (through `format!("{:?}", ..)`); the result is named by
/// the text, the escaping rules are not restated.
#[verifier::external_body]
fn debug_str(s: &str) -> (r: String)
    ensures
        r@ == str_debug(s@),
{
    format!("{:?}", s)
}

/// The integers written as a list: `[1, -2, 3]`.
pub open spec fn ints_debug(l: Seq<i64>) -> Seq<char>
    decreases l.len(),
{
    if l.len() == 0 {
        Seq::empty()
    } else if l.len() == 1 {
        int_text(l[0] as int)
    } else {
        ints_debug(l.drop_last()) + ", "@ + int_text(l.last() as int)
    }
}

/// The strings written as a list of `FatString(..)`s.
pub open spec fn texts_debug(l: Seq<Seq<char>>) -> Seq<char>
    decreases l.len(),
{
    if l.len() == 0 {
        Seq::empty()
    } else if l.len() == 1 {
        "FatString("@ + l[0] + ")"@
    } else {
        texts_debug(l.drop_last()) + ", "@ + "FatString("@ + l.last() + ")"@
    }
}

/// How a decimal is written in debug form: `0.0`; for `10^-4 <= |x| < 10^16` the shortest
/// exact decimal, with `.0` after a whole number; otherwise the significant digits with a
/// decimal exponent (`1.5e-5`, `2e16`).
pub open spec fn float_debug(x: Float) -> Seq<char> {
    let v = x.0 as int;
    let w = if v < 0 { -v } else { v };
    if w == 0 {
        "0.0"@
    } else if 100_000_000_000_000 <= w < 10_000_000_000_000_000_000_000_000_000_000_000 {
        float_text(x) + if w % (FLOAT_SCALE as int) == 0 { ".0"@ } else { Seq::empty() }
    } else {
        let all = nat_text(w as nat);
        let sig = drop_trailing_zeros(all);
        (if v < 0 { "-"@ } else { Seq::empty() }) + seq![sig[0]] + (if sig.len() > 1 {
            "."@ + sig.skip(1)
        } else {
            Seq::empty()
        }) + "e"@ + int_text(all.len() - 19)
    }
}

/// An insensitivity flag in debug form.
pub open spec fn flag_debug(f: Option<InsensitiveFlag>) -> Seq<char> {
    match f {
        None => "None"@,
        Some(InsensitiveFlag::Case) => "Some(Case)"@,
        Some(InsensitiveFlag::Apostrophe) => "Some(Apostrophe)"@,
        Some(InsensitiveFlag::CaseAndApostrophe) => "Some(CaseAndApostrophe)"@,
    }
}

/// A value in debug form (values that hold conditions or calls are not written).
pub open spec fn val_debug(v: SVal) -> Seq<char> {
    match v {
        SVal::Bool(b) => "Bool(Bool("@ + (if b { "true"@ } else { "false"@ }) + "))"@,
        SVal::Int(i) => "Int(Int("@ + int_text(i as int) + "))"@,
        SVal::IntList(l) => "IntList(IntList(["@ + ints_debug(l) + "]))"@,
        SVal::Float(x) => "Float(Float("@ + float_debug(x) + "))"@,
        SVal::Str(s) => "Str(Str(FatString("@ + s + ")))"@,
        SVal::StrList(l) => "StrList(StrList(["@ + texts_debug(l) + "]))"@,
        SVal::Regex(r) => "Regex(RadeRegex(Regex("@ + str_debug(r.pattern) + "), "@ + flag_debug(r.flag)
            + "))"@,
        SVal::Field(n) => "Field(Field("@ + str_debug(n) + "))"@,
        SVal::FieldIndex(n, i) => "FieldIndex(Field("@ + str_debug(n) + "), "@ + int_text(i as int)
            + ")"@,
        _ => Seq::empty(),
    }
}

/// Appends the characters of `s`.
fn push_text(out: &mut Vec<char>, s: &str)
    ensures
        final(out)@ == old(out)@ + s@,
{
    let cs = chars_of(s);
    let ghost start = out@;
    let mut i: usize = 0;
    while i < cs.len()
        invariant
            i <= cs@.len(),
            cs@ == s@,
            out@ == start + cs@.take(i as int),
        decreases cs.len() - i,
    {
        out.push(cs[i]);
        i = i + 1;
        proof {
            assert(out@ =~= start + cs@.take(i as int));
        }
    }
    proof {
        assert(cs@.take(cs@.len() as int) =~= cs@);
    }
}

/// Appends the characters of `v`.
fn push_chars(out: &mut Vec<char>, v: &Vec<char>)
    ensures
        final(out)@ == old(out)@ + v@,
{
    let ghost start = out@;
    let mut i: usize = 0;
    while i < v.len()
        invariant
            i <= v@.len(),
            out@ == start + v@.take(i as int),
        decreases v.len() - i,
    {
        out.push(v[i]);
        i = i + 1;
        proof {
            assert(out@ =~= start + v@.take(i as int));
        }
    }
    proof {
        assert(v@.take(v@.len() as int) =~= v@);
    }
}

/// A decimal in debug form (see `float_debug`).
fn float_debug_text(x: Float) -> (r: Vec<char>)
    ensures
        r@ == float_debug(x),
{
    let v: i128 = x.0;
    let neg = v < 0;
    let w: u128 = if neg { ((-(v + 1)) as u128) + 1 } else { v as u128 };
    assert(w as int == if neg { -(v as int) } else { v as int });
    let mut out: Vec<char> = Vec::new();
    if w == 0 {
        push_text(&mut out, "0.0");
        return out;
    }
    if 100_000_000_000_000u128 <= w && w < 10_000_000_000_000_000_000_000_000_000_000_000u128 {
        let t = float_to_text(x);
        push_text(&mut out, t.as_str());
        if w % 1_000_000_000_000_000_000u128 == 0 {
            push_text(&mut out, ".0");
        }
        proof {
            assert(FLOAT_SCALE == 1_000_000_000_000_000_000);
            assert(out@ =~= float_debug(x));
        }
        return out;
    }
    let all = nat_digits(w);
    let ghost all_v = all@;
    let mut sig = all.clone();
    while sig.len() > 0 && sig[sig.len() - 1] == '0'
        invariant
            drop_trailing_zeros(all_v) == drop_trailing_zeros(sig@),
        decreases sig.len(),
    {
        let ghost before = sig@;
        sig.pop();
        proof {
            assert(sig@ =~= before.drop_last());
        }
    }
    proof {
        assert(drop_trailing_zeros(sig@) == sig@);
        lemma_first_digit_nonzero(w as nat);
        lemma_drop_zeros_keeps_first(all_v);
    }
    if neg {
        push_text(&mut out, "-");
    }
    out.push(sig[0]);
    if sig.len() > 1 {
        push_text(&mut out, ".");
        let mut k: usize = 1;
        let ghost mid = out@;
        while k < sig.len()
            invariant
                1 <= k <= sig@.len(),
                out@ == mid + sig@.subrange(1, k as int),
            decreases sig.len() - k,
        {
            out.push(sig[k]);
            k = k + 1;
            proof {
                assert(out@ =~= mid + sig@.subrange(1, k as int));
            }
        }
        proof {
            assert(sig@.subrange(1, sig@.len() as int) =~= sig@.skip(1));
        }
    }
    push_text(&mut out, "e");
    let len = all.len();
    proof {
        reveal_with_fuel(crate::float::pow10, 40);
        assert(crate::float::pow10(39) == 1_000_000_000_000_000_000_000_000_000_000_000_000_000int);
        lemma_nat_text_len(w as nat, 39);
    }
    let e: i64 = len as i64 - 19;
    let et = int_to_text(e);
    push_text(&mut out, et.as_str());
    proof {
        assert(out@ =~= float_debug(x));
    }
    out
}

proof fn lemma_nat_text_len(n: nat, k: nat)
    requires
        k >= 1,
        n < crate::float::pow10(k),
    ensures
        nat_text(n).len() <= k,
    decreases k,
{
    if n >= 10 {
        if k < 2 {
            assert(crate::float::pow10(1) == 10 * crate::float::pow10(0));
        }
        assert(crate::float::pow10(k) == 10 * crate::float::pow10((k - 1) as nat));
        assert(n / 10 < crate::float::pow10((k - 1) as nat));
        lemma_nat_text_len(n / 10, (k - 1) as nat);
    }
}

proof fn lemma_first_digit_nonzero(n: nat)
    requires
        n > 0,
    ensures
        nat_text(n).len() >= 1,
        nat_text(n)[0] != '0',
    decreases n,
{
    if n >= 10 {
        lemma_first_digit_nonzero(n / 10);
        assert(nat_text(n)[0] == nat_text(n / 10)[0]);
    }
}

proof fn lemma_drop_zeros_keeps_first(s: Seq<char>)
    requires
        s.len() >= 1,
        s[0] != '0',
    ensures
        drop_trailing_zeros(s).len() >= 1,
        drop_trailing_zeros(s)[0] == s[0],
    decreases s.len(),
{
    if s.len() > 1 && s.last() == '0' {
        lemma_drop_zeros_keeps_first(s.drop_last());
    }
}

/// The integers in list debug form.
fn ints_debug_text(l: &Vec<i64>) -> (r: Vec<char>)
    ensures
        r@ == ints_debug(l@),
{
    let mut out: Vec<char> = Vec::new();
    let mut i: usize = 0;
    while i < l.len()
        invariant
            i <= l@.len(),
            out@ == ints_debug(l@.take(i as int)),
        decreases l.len() - i,
    {
        proof {
            assert(l@.take(i + 1).drop_last() =~= l@.take(i as int));
            assert(l@.take(i + 1).last() == l@[i as int]);
            if i == 0 {
                assert(l@.take(1)[0] == l@[0]);
            }
        }
        if i > 0 {
            push_text(&mut out, ", ");
        }
        let t = int_to_text(l[i]);
        push_text(&mut out, t.as_str());
        i = i + 1;
    }
    proof {
        assert(l@.take(l@.len() as int) =~= l@);
    }
    out
}

/// The strings in list debug form.
fn texts_debug_text(l: &Vec<crate::fat_string::FatString>) -> (r: Vec<char>)
    ensures
        r@ == texts_debug(crate::val::fat_strings_view(l@)),
{
    let ghost lv = crate::val::fat_strings_view(l@);
    let mut out: Vec<char> = Vec::new();
    let mut i: usize = 0;
    while i < l.len()
        invariant
            i <= l@.len(),
            lv == crate::val::fat_strings_view(l@),
            lv.len() == l@.len(),
            out@ == texts_debug(lv.take(i as int)),
        decreases l.len() - i,
    {
        proof {
            assert(lv.take(i + 1).drop_last() =~= lv.take(i as int));
            assert(lv.take(i + 1).last() == lv[i as int]);
            assert(lv[i as int] == l@[i as int]@);
            if i == 0 {
                assert(lv.take(1)[0] == lv[0]);
            }
        }
        if i > 0 {
            push_text(&mut out, ", ");
        }
        push_text(&mut out, "FatString(");
        push_text(&mut out, l[i].plain());
        push_text(&mut out, ")");
        i = i + 1;
    }
    proof {
        assert(lv.take(lv.len() as int) =~= lv);
    }
    out
}

/// A value in debug form (see `val_debug`).
pub fn debug_text(v: &Val) -> (r: String)
    ensures
        r@ == val_debug(v@),
{
    let mut out: Vec<char> = Vec::new();
    match v {
        Val::Bool(b) => {
            push_text(&mut out, "Bool(Bool(");
            push_text(&mut out, if b.0 { "true" } else { "false" });
            push_text(&mut out, "))");
        },
        Val::Int(i) => {
            push_text(&mut out, "Int(Int(");
            push_text(&mut out, int_to_text(i.0).as_str());
            push_text(&mut out, "))");
        },
        Val::IntList(l) => {
            push_text(&mut out, "IntList(IntList([");
            push_chars(&mut out, &ints_debug_text(&l.0));
            push_text(&mut out, "]))");
        },
        Val::Float(x) => {
            push_text(&mut out, "Float(Float(");
            push_chars(&mut out, &float_debug_text(*x));
            push_text(&mut out, "))");
        },
        Val::Str(s) => {
            push_text(&mut out, "Str(Str(FatString(");
            push_text(&mut out, s.0.plain());
            push_text(&mut out, ")))");
        },
        Val::StrList(l) => {
            push_text(&mut out, "StrList(StrList([");
            push_chars(&mut out, &texts_debug_text(&l.0));
            push_text(&mut out, "]))");
        },
        Val::Regex(r) => {
            push_text(&mut out, "Regex(RadeRegex(Regex(");
            push_text(&mut out, debug_str(r.as_str()).as_str());
            push_text(&mut out, "), ");
            push_text(
                &mut out,
                match r.flag() {
                    None => "None",
                    Some(InsensitiveFlag::Case) => "Some(Case)",
                    Some(InsensitiveFlag::Apostrophe) => "Some(Apostrophe)",
                    Some(InsensitiveFlag::CaseAndApostrophe) => "Some(CaseAndApostrophe)",
                },
            );
            push_text(&mut out, "))");
        },
        Val::Field(n) => {
            push_text(&mut out, "Field(Field(");
            push_text(&mut out, debug_str(n.plain()).as_str());
            push_text(&mut out, "))");
        },
        Val::FieldIndex(n, i) => {
            push_text(&mut out, "FieldIndex(Field(");
            push_text(&mut out, debug_str(n.plain()).as_str());
            push_text(&mut out, "), ");
            push_text(&mut out, int_to_text(*i).as_str());
            push_text(&mut out, ")");
        },
        _ => {},
    }
    proof {
        assert(out@ =~= val_debug(v@));
    }
    string_from_chars(out.as_slice())
}

} // verus!

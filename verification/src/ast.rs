//! Conditions as trees: values (`Val`), operands (`Operand`) and operands with their
//! hash (`OperandContainer`), with their mathematical models and the hash function.
use vstd::prelude::*;
use crate::fat_string::{FatString, InsensitiveFlag};
use crate::float::Float;
use crate::pattern::{RadeRegex, RegexView};
use crate::val::{fat_strings_view, Bool, Comparator, Field, Int, IntList, Str, StrList};

verus! {

/// A value in a condition: a literal, a field (possibly indexed), a parenthesised
/// sub-condition or a function call.
pub enum Val {
    Bool(Bool),
    Int(Int),
    IntList(IntList),
    Float(Float),
    Str(Str),
    StrList(StrList),
    Regex(RadeRegex),
    Field(Field),
    FieldIndex(Field, i64),
    Expression(Box<OperandContainer>),
    FnCall(FnCall),
    MethodCall(MethodCall),
}

/// A call of a registered function on argument values.
pub struct FnCall {
    pub name: String,
    pub args: Vec<Val>,
}

/// A call of a method on the value of a receiver: `receiver.method(args)`.
pub struct MethodCall {
    pub receiver: Box<Val>,
    pub method: String,
    pub args: Vec<Val>,
}

/// A condition.
pub enum Operand {
    And(Vec<OperandContainer>),
    Or(Vec<OperandContainer>),
    Cmp(Val, Val, Comparator, Option<InsensitiveFlag>),
    Match(Val, RadeRegex, Comparator),
    Val(Val),
    Negate(Box<OperandContainer>),
}

/// A condition together with its hash, which evaluation uses as a cache key.
pub struct OperandContainer {
    pub(crate) op: Operand,
    pub(crate) hash: u64,
}

/// The mathematical model of a value.
pub enum SVal {
    Bool(bool),
    Int(i64),
    IntList(Seq<i64>),
    Float(Float),
    Str(Seq<char>),
    StrList(Seq<Seq<char>>),
    Regex(RegexView),
    Field(Seq<char>),
    FieldIndex(Seq<char>, i64),
    Expression(Box<SOp>),
    FnCall(Seq<char>, Seq<SVal>),
    MethodCall(Box<SVal>, Seq<char>, Seq<SVal>),
}

/// The mathematical model of a condition.
pub enum SOp {
    And(Seq<SOp>),
    Or(Seq<SOp>),
    Cmp(SVal, SVal, Comparator, Option<InsensitiveFlag>),
    Match(SVal, RegexView, Comparator),
    Val(SVal),
    Negate(Box<SOp>),
}

pub open spec fn val_view(v: &Val) -> SVal
    decreases v,
{
    match v {
        Val::Bool(b) => SVal::Bool(b.0),
        Val::Int(i) => SVal::Int(i.0),
        Val::IntList(l) => SVal::IntList(l.0@),
        Val::Float(f) => SVal::Float(*f),
        Val::Str(s) => SVal::Str(s.0@),
        Val::StrList(l) => SVal::StrList(fat_strings_view(l.0@)),
        Val::Regex(r) => SVal::Regex(r@),
        Val::Field(f) => SVal::Field(f.0@),
        Val::FieldIndex(f, i) => SVal::FieldIndex(f.0@, *i),
        Val::Expression(e) => SVal::Expression(Box::new(container_view(e))),
        Val::FnCall(f) => SVal::FnCall(f.name@, vals_view(f.args@)),
        Val::MethodCall(m) => SVal::MethodCall(
            Box::new(val_view(&m.receiver)),
            m.method@,
            vals_view(m.args@),
        ),
    }
}

pub open spec fn vals_view(s: Seq<Val>) -> Seq<SVal>
    decreases s,
{
    if s.len() == 0 {
        Seq::empty()
    } else {
        vals_view(s.drop_last()).push(val_view(&s.last()))
    }
}

pub closed spec fn container_view(c: &OperandContainer) -> SOp
    decreases c,
{
    op_view(&c.op)
}

/// Inside the crate, the model of a container is the model of its operand.
pub(crate) broadcast proof fn lemma_container_view(c: &OperandContainer)
    ensures
        #[trigger] container_view(c) == op_view(&c.op),
{
}

pub open spec fn op_view(o: &Operand) -> SOp
    decreases o,
{
    match o {
        Operand::And(cs) => SOp::And(containers_view(cs@)),
        Operand::Or(cs) => SOp::Or(containers_view(cs@)),
        Operand::Cmp(a, b, c, f) => SOp::Cmp(val_view(a), val_view(b), *c, *f),
        Operand::Match(v, r, c) => SOp::Match(val_view(v), r@, *c),
        Operand::Val(v) => SOp::Val(val_view(v)),
        Operand::Negate(b) => SOp::Negate(Box::new(container_view(b))),
    }
}

pub open spec fn containers_view(s: Seq<OperandContainer>) -> Seq<SOp>
    decreases s,
{
    if s.len() == 0 {
        Seq::empty()
    } else {
        containers_view(s.drop_last()).push(container_view(&s.last()))
    }
}

impl View for Val {
    type V = SVal;

    open spec fn view(&self) -> SVal {
        val_view(self)
    }
}

impl View for Operand {
    type V = SOp;

    open spec fn view(&self) -> SOp {
        op_view(self)
    }
}

impl View for OperandContainer {
    type V = SOp;

    open spec fn view(&self) -> SOp {
        container_view(self)
    }
}

} // verus!

verus! {

/// One step of the hash: `h * 31 + w`, wrapping.
pub open spec fn hash_step(h: u64, w: u64) -> u64 {
    h.wrapping_mul(31).wrapping_add(w)
}

/// The hash state after feeding the words `ws` into `h`, in order.
pub open spec fn fold_words(h: u64, ws: Seq<u64>) -> u64
    decreases ws.len(),
{
    if ws.len() == 0 {
        h
    } else {
        hash_step(fold_words(h, ws.drop_last()), ws.last())
    }
}

pub proof fn lemma_fold_concat(h: u64, a: Seq<u64>, b: Seq<u64>)
    ensures
        fold_words(h, a + b) == fold_words(fold_words(h, a), b),
    decreases b.len(),
{
    if b.len() == 0 {
        assert(a + b =~= a);
    } else {
        lemma_fold_concat(h, a, b.drop_last());
        assert((a + b).drop_last() =~= a + b.drop_last());
        assert((a + b).last() == b.last());
    }
}

pub proof fn lemma_fold_single(h: u64, w: u64)
    ensures
        fold_words(h, seq![w]) == hash_step(h, w),
{
    assert(seq![w].drop_last() =~= Seq::<u64>::empty());
    assert(fold_words(h, seq![w].drop_last()) == h);
    assert(seq![w].last() == w);
}

pub proof fn lemma_fold_pair(h: u64, a: u64, b: u64)
    ensures
        fold_words(h, seq![a, b]) == hash_step(hash_step(h, a), b),
{
    assert(seq![a, b].drop_last() =~= seq![a]);
    lemma_fold_single(h, a);
}

/// Multiplying by 31 modulo 2^64 loses nothing: 31 is odd.
proof fn lemma_times_31_injective(a: u64, b: u64)
    by (bit_vector)
    requires
        a != b,
    ensures
        (a * 31) % 0x1_0000_0000_0000_0000 != (b * 31) % 0x1_0000_0000_0000_0000,
{
}

/// A hash step tells apart two different states.
proof fn lemma_step_keeps_states_apart(g: u64, h: u64, w: u64)
    requires
        g != h,
    ensures
        hash_step(g, w) != hash_step(h, w),
{
    lemma_times_31_injective(g, h);
    assert(g.wrapping_mul(31) as int == (g * 31) % 0x1_0000_0000_0000_0000);
    assert(h.wrapping_mul(31) as int == (h * 31) % 0x1_0000_0000_0000_0000);
}

/// A hash step tells apart two different words.
proof fn lemma_step_keeps_words_apart(h: u64, v: u64, w: u64)
    requires
        v != w,
    ensures
        hash_step(h, v) != hash_step(h, w),
{
}

/// Two conditions that differ only in their comparator have different hashes, so a cache
/// or a predicate table keyed by hash keeps them apart (`a == b` and `a != b` never share
/// a result).
pub proof fn law_comparator_changes_hash(
    a: SVal,
    b: SVal,
    c1: Comparator,
    c2: Comparator,
    f: Option<InsensitiveFlag>,
)
    requires
        c1 != c2,
    ensures
        op_hash(SOp::Cmp(a, b, c1, f)) != op_hash(SOp::Cmp(a, b, c2, f)),
{
    let pre = seq![23u64] + val_words(a) + val_words(b);
    let p = fold_words(0, pre);
    assert(op_words(SOp::Cmp(a, b, c1, f)) == pre + seq![comparator_word(c1), flag_word(f)]);
    assert(op_words(SOp::Cmp(a, b, c2, f)) == pre + seq![comparator_word(c2), flag_word(f)]);
    lemma_fold_concat(0, pre, seq![comparator_word(c1), flag_word(f)]);
    lemma_fold_concat(0, pre, seq![comparator_word(c2), flag_word(f)]);
    lemma_fold_pair(p, comparator_word(c1), flag_word(f));
    lemma_fold_pair(p, comparator_word(c2), flag_word(f));
    assert(comparator_word(c1) != comparator_word(c2));
    lemma_step_keeps_words_apart(p, comparator_word(c1), comparator_word(c2));
    lemma_step_keeps_states_apart(
        hash_step(p, comparator_word(c1)),
        hash_step(p, comparator_word(c2)),
        flag_word(f),
    );
}

/// Two regex matches that differ only in their comparator (`=~` and `!~`) have different
/// hashes.
pub proof fn law_match_comparator_changes_hash(v: SVal, r: RegexView, c1: Comparator, c2: Comparator)
    requires
        c1 != c2,
    ensures
        op_hash(SOp::Match(v, r, c1)) != op_hash(SOp::Match(v, r, c2)),
{
    let pre = seq![24u64] + val_words(v) + text_words(r.pattern) + seq![flag_word(r.flag)];
    assert(op_words(SOp::Match(v, r, c1)) =~= pre + seq![comparator_word(c1)]);
    assert(op_words(SOp::Match(v, r, c2)) =~= pre + seq![comparator_word(c2)]);
    lemma_fold_concat(0, pre, seq![comparator_word(c1)]);
    lemma_fold_concat(0, pre, seq![comparator_word(c2)]);
    lemma_fold_single(fold_words(0, pre), comparator_word(c1));
    lemma_fold_single(fold_words(0, pre), comparator_word(c2));
    lemma_step_keeps_words_apart(fold_words(0, pre), comparator_word(c1), comparator_word(c2));
}

pub open spec fn char_word(c: char) -> u64 {
    (c as u32) as u64
}

/// A text as words: its length, then its characters.
pub open spec fn text_words(s: Seq<char>) -> Seq<u64> {
    seq![s.len() as u64] + s.map_values(|c: char| char_word(c))
}

pub open spec fn flag_word(f: Option<InsensitiveFlag>) -> u64 {
    match f {
        None => 0,
        Some(InsensitiveFlag::Case) => 1,
        Some(InsensitiveFlag::Apostrophe) => 2,
        Some(InsensitiveFlag::CaseAndApostrophe) => 3,
    }
}

pub open spec fn comparator_word(c: Comparator) -> u64 {
    match c {
        Comparator::Eq => 0,
        Comparator::Neq => 1,
        Comparator::Gt => 2,
        Comparator::Lt => 3,
        Comparator::Ge => 4,
        Comparator::Le => 5,
        Comparator::Match => 6,
        Comparator::Nmatch => 7,
    }
}

pub open spec fn ints_words(s: Seq<i64>) -> Seq<u64> {
    seq![s.len() as u64] + s.map_values(|i: i64| i as u64)
}

pub open spec fn texts_words(s: Seq<Seq<char>>) -> Seq<u64>
    decreases s.len(),
{
    if s.len() == 0 {
        Seq::empty()
    } else {
        texts_words(s.drop_last()) + text_words(s.last())
    }
}

/// The words that encode a value for hashing; sub-conditions enter by their hash.
pub open spec fn val_words(v: SVal) -> Seq<u64>
    decreases v, 0int,
{
    match v {
        SVal::Bool(b) => seq![1u64, if b { 1u64 } else { 0u64 }],
        SVal::Int(i) => seq![2u64, i as u64],
        SVal::IntList(l) => seq![3u64] + ints_words(l),
        SVal::Float(f) => seq![4u64, f.0 as u64, (f.0 >> 64u32) as u64],
        SVal::Str(s) => seq![5u64] + text_words(s),
        SVal::StrList(l) => seq![6u64, l.len() as u64] + texts_words(l),
        SVal::Regex(r) => seq![7u64] + text_words(r.pattern) + seq![flag_word(r.flag)],
        SVal::Field(n) => seq![8u64] + text_words(n),
        SVal::FieldIndex(n, i) => seq![9u64] + text_words(n) + seq![i as u64],
        SVal::Expression(o) => seq![10u64, op_hash(*o)],
        SVal::FnCall(n, args) => seq![11u64] + text_words(n) + seq![args.len() as u64]
            + vals_words(args),
        SVal::MethodCall(r, m, args) => seq![12u64] + val_words(*r) + (seq![11u64] + text_words(m)
            + seq![args.len() as u64] + vals_words(args)),
    }
}

pub open spec fn vals_words(s: Seq<SVal>) -> Seq<u64>
    decreases s, 0int,
{
    if s.len() == 0 {
        Seq::empty()
    } else {
        vals_words(s.drop_last()) + val_words(s.last())
    }
}

pub open spec fn ops_hashes(s: Seq<SOp>) -> Seq<u64>
    decreases s, 0int,
{
    if s.len() == 0 {
        Seq::empty()
    } else {
        ops_hashes(s.drop_last()).push(op_hash(s.last()))
    }
}

/// The words that encode a condition for hashing; sub-conditions enter by their hash.
pub open spec fn op_words(o: SOp) -> Seq<u64>
    decreases o, 0int,
{
    match o {
        SOp::And(cs) => seq![21u64, cs.len() as u64] + ops_hashes(cs),
        SOp::Or(cs) => seq![22u64, cs.len() as u64] + ops_hashes(cs),
        SOp::Cmp(a, b, c, f) => seq![23u64] + val_words(a) + val_words(b) + seq![
            comparator_word(c),
            flag_word(f),
        ],
        SOp::Match(v, r, c) => seq![24u64] + val_words(v) + text_words(r.pattern) + seq![
            flag_word(r.flag),
            comparator_word(c),
        ],
        SOp::Val(v) => seq![25u64] + val_words(v),
        SOp::Negate(o) => seq![26u64, op_hash(*o)],
    }
}

/// The hash of a condition: its words fed, from 0, into `h * 31 + w`.
pub open spec fn op_hash(o: SOp) -> u64
    decreases o, 1int,
{
    fold_words(0, op_words(o))
}

fn feed(h: u64, w: u64) -> (r: u64)
    ensures
        r == hash_step(h, w),
{
    h.wrapping_mul(31).wrapping_add(w)
}

fn feed_words(h: u64, ws: &[u64]) -> (r: u64)
    ensures
        r == fold_words(h, ws@),
{
    let mut acc = h;
    let mut i: usize = 0;
    while i < ws.len()
        invariant
            i <= ws@.len(),
            acc == fold_words(h, ws@.take(i as int)),
        decreases ws.len() - i,
    {
        proof {
            assert(ws@.take(i + 1).drop_last() == ws@.take(i as int));
        }
        acc = feed(acc, ws[i]);
        i = i + 1;
    }
    proof {
        assert(ws@.take(ws@.len() as int) == ws@);
    }
    acc
}

fn feed_text(h: u64, s: &str) -> (r: u64)
    ensures
        r == fold_words(h, text_words(s@)),
{
    let cs = crate::text::chars_of(s);
    let mut ws: Vec<u64> = Vec::new();
    ws.push(cs.len() as u64);
    let mut i: usize = 0;
    while i < cs.len()
        invariant
            i <= cs@.len(),
            cs@ == s@,
            ws@ == seq![s@.len() as u64] + s@.take(i as int).map_values(|c: char| char_word(c)),
        decreases cs.len() - i,
    {
        ws.push(cs[i] as u32 as u64);
        i = i + 1;
        proof {
            assert(ws@ =~= seq![s@.len() as u64] + s@.take(i as int).map_values(
                |c: char| char_word(c),
            ));
        }
    }
    proof {
        assert(s@.take(s@.len() as int) == s@);
    }
    feed_words(h, ws.as_slice())
}

fn feed_ints(h: u64, l: &Vec<i64>) -> (r: u64)
    ensures
        r == fold_words(h, ints_words(l@)),
{
    let mut ws: Vec<u64> = Vec::new();
    ws.push(l.len() as u64);
    let mut i: usize = 0;
    while i < l.len()
        invariant
            i <= l@.len(),
            ws@ == seq![l@.len() as u64] + l@.take(i as int).map_values(|x: i64| x as u64),
        decreases l.len() - i,
    {
        ws.push(l[i] as u64);
        i = i + 1;
        proof {
            assert(ws@ =~= seq![l@.len() as u64] + l@.take(i as int).map_values(
                |x: i64| x as u64,
            ));
        }
    }
    proof {
        assert(l@.take(l@.len() as int) == l@);
    }
    feed_words(h, ws.as_slice())
}

fn feed_texts(h: u64, l: &Vec<FatString>) -> (r: u64)
    ensures
        r == fold_words(h, texts_words(fat_strings_view(l@))),
{
    let mut acc = h;
    let mut i: usize = 0;
    while i < l.len()
        invariant
            i <= l@.len(),
            acc == fold_words(h, texts_words(fat_strings_view(l@.take(i as int)))),
        decreases l.len() - i,
    {
        proof {
            assert(fat_strings_view(l@.take(i + 1)).drop_last() =~= fat_strings_view(
                l@.take(i as int),
            ));
            lemma_fold_concat(
                h,
                texts_words(fat_strings_view(l@.take(i as int))),
                text_words(l@[i as int]@),
            );
        }
        acc = feed_text(acc, l[i].plain());
        i = i + 1;
    }
    proof {
        assert(l@.take(l@.len() as int) == l@);
    }
    acc
}

} // verus!

verus! {

pub proof fn lemma_vals_view(s: Seq<Val>)
    ensures
        vals_view(s).len() == s.len(),
        forall|i: int| 0 <= i < s.len() ==> #[trigger] vals_view(s)[i] == val_view(&s[i]),
    decreases s.len(),
{
    if s.len() > 0 {
        lemma_vals_view(s.drop_last());
        assert forall|i: int| 0 <= i < s.len() implies #[trigger] vals_view(s)[i] == val_view(
            &s[i],
        ) by {
            if i < s.len() - 1 {
                assert(s.drop_last()[i] == s[i]);
            }
        };
    }
}

pub proof fn lemma_containers_view(s: Seq<OperandContainer>)
    ensures
        containers_view(s).len() == s.len(),
        forall|i: int| 0 <= i < s.len() ==> #[trigger] containers_view(s)[i] == container_view(&s[i]),
    decreases s.len(),
{
    if s.len() > 0 {
        lemma_containers_view(s.drop_last());
        assert forall|i: int| 0 <= i < s.len() implies #[trigger] containers_view(s)[i]
            == container_view(&s[i]) by {
            if i < s.len() - 1 {
                assert(s.drop_last()[i] == s[i]);
            }
        };
    }
}

/// Pushing a condition onto a sequence pushes its model onto the sequence's model.
pub proof fn lemma_containers_push(s: Seq<OperandContainer>, x: OperandContainer)
    ensures
        containers_view(s.push(x)) == containers_view(s).push(x@),
{
    assert(s.push(x).drop_last() =~= s);
}

/// Two value sequences whose elements have the same models have the same model.
pub proof fn lemma_vals_view_ext(a: Seq<Val>, b: Seq<Val>)
    requires
        a.len() == b.len(),
        forall|i: int| 0 <= i < a.len() ==> val_view(&a[i]) == val_view(&b[i]),
    ensures
        vals_view(a) == vals_view(b),
{
    lemma_vals_view(a);
    lemma_vals_view(b);
    assert(vals_view(a) =~= vals_view(b));
}

pub proof fn lemma_containers_view_ext(a: Seq<OperandContainer>, b: Seq<OperandContainer>)
    requires
        a.len() == b.len(),
        forall|i: int| 0 <= i < a.len() ==> container_view(&a[i]) == container_view(&b[i]),
    ensures
        containers_view(a) == containers_view(b),
{
    lemma_containers_view(a);
    lemma_containers_view(b);
    assert(containers_view(a) =~= containers_view(b));
}

fn feed_pair(h: u64, a: u64, b: u64) -> (r: u64)
    ensures
        r == fold_words(h, seq![a, b]),
{
    proof {
        lemma_fold_pair(h, a, b);
    }
    feed(feed(h, a), b)
}

/// Feeds a tag word, then a text.
fn feed_tag_text(h: u64, tag: u64, s: &str) -> (r: u64)
    ensures
        r == fold_words(h, seq![tag] + text_words(s@)),
{
    let h1 = feed(h, tag);
    proof {
        lemma_fold_single(h, tag);
        lemma_fold_concat(h, seq![tag], text_words(s@));
    }
    feed_text(h1, s)
}

/// Feeds a tag word, a text, then a last word.
fn feed_tag_text_word(h: u64, tag: u64, s: &str, w: u64) -> (r: u64)
    ensures
        r == fold_words(h, seq![tag] + text_words(s@) + seq![w]),
{
    let h1 = feed_tag_text(h, tag, s);
    proof {
        lemma_fold_single(h1, w);
        lemma_fold_concat(h, seq![tag] + text_words(s@), seq![w]);
    }
    feed(h1, w)
}

#[verifier::rlimit(100)]
#[verifier::spinoff_prover]
fn feed_val(h: u64, v: &Val) -> (r: u64)
    ensures
        r == fold_words(h, val_words(v@)),
    decreases v,
{
    match v {
        Val::Expression(e) => {
            let c: &OperandContainer = &**e;
            proof {
                use_type_invariant(c);
                lemma_container_view(c);
                assert(v@ == SVal::Expression(Box::new(container_view(c))));
                assert(val_words(v@) == seq![10u64, c.hash]);
            }
            feed_pair(h, 10u64, c.hash)
        },
        Val::FnCall(f) => {
            proof {
                lemma_vals_view(f.args@);
            }
            let r = feed_call(h, &f.name, &f.args);
            proof {
                assert(val_words(v@) == seq![11u64] + text_words(f.name@) + seq![f.args@.len() as u64]
                    + vals_words(vals_view(f.args@)));
            }
            r
        },
        Val::MethodCall(m) => {
            let r = feed_method(h, m);
            proof {
                lemma_vals_view(m.args@);
                assert(val_words(v@) == seq![12u64] + val_words(val_view(&m.receiver)) + (seq![11u64]
                    + text_words(m.method@) + seq![m.args@.len() as u64] + vals_words(
                    vals_view(m.args@),
                )));
            }
            r
        },
        _ => feed_plain(h, v),
    }
}

/// The words of a value without nested values.
#[verifier::rlimit(100)]
#[verifier::spinoff_prover]
fn feed_plain(h: u64, v: &Val) -> (r: u64)
    requires
        !(v is Expression || v is FnCall || v is MethodCall),
    ensures
        r == fold_words(h, val_words(v@)),
{
    match v {
        Val::Bool(b) => feed_pair(h, 1u64, if b.0 { 1u64 } else { 0u64 }),
        Val::Int(i) => feed_pair(h, 2u64, i.0 as u64),
        Val::IntList(l) => {
            let h1 = feed(h, 3u64);
            proof {
                lemma_fold_single(h, 3u64);
                lemma_fold_concat(h, seq![3u64], ints_words(l.0@));
            }
            feed_ints(h1, &l.0)
        },
        Val::Float(f) => {
            let h1 = feed(h, 4u64);
            let r = feed_pair(h1, f.0 as u64, (f.0 >> 64u32) as u64);
            proof {
                lemma_fold_single(h, 4u64);
                lemma_fold_concat(h, seq![4u64], seq![f.0 as u64, (f.0 >> 64u32) as u64]);
                assert(seq![4u64] + seq![f.0 as u64, (f.0 >> 64u32) as u64] =~= val_words(v@));
            }
            r
        },
        Val::Str(s) => feed_tag_text(h, 5u64, s.0.plain()),
        Val::StrList(l) => {
            let h1 = feed_pair(h, 6u64, l.0.len() as u64);
            proof {
                lemma_fold_concat(h, seq![6u64, l.0@.len() as u64], texts_words(fat_strings_view(l.0@)));
                assert(fat_strings_view(l.0@).len() == l.0@.len());
            }
            feed_texts(h1, &l.0)
        },
        Val::Regex(r) => feed_tag_text_word(h, 7u64, r.as_str(), flag_code(r.flag())),
        Val::Field(n) => feed_tag_text(h, 8u64, n.plain()),
        Val::FieldIndex(n, i) => feed_tag_text_word(h, 9u64, n.plain(), *i as u64),
        _ => 0,
    }
}

#[verifier::spinoff_prover]
fn feed_method(h: u64, m: &MethodCall) -> (r: u64)
    ensures
        r == fold_words(h, seq![12u64] + val_words(val_view(&m.receiver)) + (seq![11u64] + text_words(m.method@)
            + seq![m.args@.len() as u64] + vals_words(vals_view(m.args@)))),
    decreases m,
{
    let h1 = feed(h, 12u64);
    let h2 = feed_val(h1, &m.receiver);
    let r = feed_call(h2, &m.method, &m.args);
    proof {
        let rw = val_words(val_view(&m.receiver));
        let cw = seq![11u64] + text_words(m.method@) + seq![m.args@.len() as u64] + vals_words(
            vals_view(m.args@),
        );
        lemma_fold_single(h, 12u64);
        lemma_fold_concat(h, seq![12u64], rw);
        lemma_fold_concat(h, seq![12u64] + rw, cw);
    }
    r
}

#[verifier::rlimit(100)]
#[verifier::spinoff_prover]
fn feed_call(h: u64, name: &String, args: &Vec<Val>) -> (r: u64)
    ensures
        r == fold_words(h, seq![11u64] + text_words(name@) + seq![args@.len() as u64] + vals_words(vals_view(args@))),
    decreases args,
{
    let h1 = feed(h, 11u64);
    let h2 = feed_text(h1, name.as_str());
    let h3 = feed(h2, args.len() as u64);
    let ghost prefix = seq![11u64] + text_words(name@) + seq![args@.len() as u64];
    proof {
        lemma_fold_single(h, 11u64);
        let g = seq![args@.len() as u64];
        lemma_fold_single(h2, args@.len() as u64);
        lemma_fold_concat(h, seq![11u64], text_words(name@));
        lemma_fold_concat(h, seq![11u64] + text_words(name@), g);
        assert(h3 == fold_words(h, prefix));
        assert(args@.take(0) =~= Seq::<Val>::empty());
    }
    let mut acc = h3;
    let mut i: usize = 0;
    while i < args.len()
        invariant
            i <= args@.len(),
            acc == fold_words(h3, vals_words(vals_view(args@.take(i as int)))),
        decreases args.len() - i,
    {
        let a = &args[i];
        proof {
            assert(decreases_to!(args => args@));
            assert(decreases_to!(args@ => args@[i as int]));
        }
        let ghost before = vals_words(vals_view(args@.take(i as int)));
        acc = feed_val(acc, a);
        proof {
            assert(args@.take(i + 1).drop_last() == args@.take(i as int));
            assert(args@.take(i + 1).last() == *a);
            let vs = vals_view(args@.take(i as int));
            assert(vals_view(args@.take(i + 1)) == vs.push(val_view(a)));
            assert(vs.push(val_view(a)).drop_last() == vs);
            lemma_fold_concat(h3, before, val_words(val_view(a)));
        }
        i = i + 1;
    }
    proof {
        assert(args@.take(args@.len() as int) == args@);
        lemma_fold_concat(h, prefix, vals_words(vals_view(args@)));
    }
    acc
}

fn flag_code(f: Option<InsensitiveFlag>) -> (r: u64)
    ensures
        r == flag_word(f),
{
    match f {
        None => 0,
        Some(InsensitiveFlag::Case) => 1,
        Some(InsensitiveFlag::Apostrophe) => 2,
        Some(InsensitiveFlag::CaseAndApostrophe) => 3,
    }
}

fn comparator_code(c: Comparator) -> (r: u64)
    ensures
        r == comparator_word(c),
{
    match c {
        Comparator::Eq => 0,
        Comparator::Neq => 1,
        Comparator::Gt => 2,
        Comparator::Lt => 3,
        Comparator::Ge => 4,
        Comparator::Le => 5,
        Comparator::Match => 6,
        Comparator::Nmatch => 7,
    }
}

} // verus!

verus! {

fn feed_children(h: u64, cs: &Vec<OperandContainer>) -> (r: u64)
    ensures
        r == fold_words(h, ops_hashes(containers_view(cs@))),
{
    let mut acc = h;
    let mut i: usize = 0;
    while i < cs.len()
        invariant
            i <= cs@.len(),
            acc == fold_words(h, ops_hashes(containers_view(cs@.take(i as int)))),
        decreases cs.len() - i,
    {
        let c = &cs[i];
        proof {
            use_type_invariant(c);
            assert(cs@.take(i + 1).drop_last() == cs@.take(i as int));
            assert(cs@.take(i + 1).last() == *c);
            let s = containers_view(cs@.take(i as int));
            assert(containers_view(cs@.take(i + 1)) == s.push(container_view(c)));
            assert(s.push(container_view(c)).drop_last() == s);
            assert(ops_hashes(s.push(container_view(c))) == ops_hashes(s).push(
                op_hash(container_view(c)),
            ));
            let hs = ops_hashes(s);
            assert(hs.push(c.hash).drop_last() == hs);
        }
        acc = feed(acc, c.hash);
        i = i + 1;
    }
    proof {
        assert(cs@.take(cs@.len() as int) == cs@);
    }
    acc
}

fn hash_junction(tag: u64, cs: &Vec<OperandContainer>) -> (r: u64)
    ensures
        r == fold_words(0, seq![tag, containers_view(cs@).len() as u64] + ops_hashes(containers_view(cs@))),
{
    let ws = vec![tag, cs.len() as u64];
    let h1 = feed_words(0, ws.as_slice());
    let r = feed_children(h1, cs);
    proof {
        lemma_containers_view(cs@);
        lemma_fold_concat(0, ws@, ops_hashes(containers_view(cs@)));
        assert(ws@ =~= seq![tag, containers_view(cs@).len() as u64]);
    }
    r
}

/// The hash of an operand whose sub-conditions already carry theirs.
fn hash_cmp(a: &Val, b: &Val, c: Comparator, f: Option<InsensitiveFlag>) -> (r: u64)
    ensures
        r == fold_words(0, seq![23u64] + val_words(a@) + val_words(b@) + seq![comparator_word(c), flag_word(f)]),
{
    let h1 = feed(0, 23u64);
    let h2 = feed_val(h1, a);
    let h3 = feed_val(h2, b);
    let h4 = feed_pair(h3, comparator_code(c), flag_code(f));
    proof {
        lemma_fold_single(0, 23u64);
        let p1 = seq![23u64];
        let p2 = p1 + val_words(a@);
        let p3 = p2 + val_words(b@);
        lemma_fold_concat(0, p1, val_words(a@));
        lemma_fold_concat(0, p2, val_words(b@));
        lemma_fold_concat(0, p3, seq![comparator_word(c), flag_word(f)]);
    }
    h4
}

fn hash_match(v: &Val, re: &RadeRegex, c: Comparator) -> (r: u64)
    ensures
        r == fold_words(0, seq![24u64] + val_words(v@) + text_words(re@.pattern) + seq![flag_word(re@.flag), comparator_word(c)]),
{
    let h1 = feed(0, 24u64);
    let h2 = feed_val(h1, v);
    let h3 = feed_text(h2, re.as_str());
    let h4 = feed_pair(h3, flag_code(re.flag()), comparator_code(c));
    proof {
        lemma_fold_single(0, 24u64);
        let p1 = seq![24u64];
        let p2 = p1 + val_words(v@);
        let p3 = p2 + text_words(re@.pattern);
        lemma_fold_concat(0, p1, val_words(v@));
        lemma_fold_concat(0, p2, text_words(re@.pattern));
        lemma_fold_concat(0, p3, seq![flag_word(re@.flag), comparator_word(c)]);
    }
    h4
}

fn hash_single(v: &Val) -> (r: u64)
    ensures
        r == fold_words(0, seq![25u64] + val_words(v@)),
{
    let h1 = feed(0, 25u64);
    proof {
        lemma_fold_single(0, 25u64);
        lemma_fold_concat(0, seq![25u64], val_words(v@));
    }
    feed_val(h1, v)
}

/// The hash of an operand whose sub-conditions already carry theirs.
#[verifier::rlimit(100)]
#[verifier::spinoff_prover]
fn compute_hash(op: &Operand) -> (r: u64)
    ensures
        r == op_hash(op@),
{
    match op {
        Operand::And(cs) => hash_junction(21u64, cs),
        Operand::Or(cs) => hash_junction(22u64, cs),
        Operand::Cmp(a, b, c, f) => hash_cmp(a, b, *c, *f),
        Operand::Match(v, re, c) => hash_match(v, re, *c),
        Operand::Val(v) => hash_single(v),
        Operand::Negate(b) => {
            let c: &OperandContainer = &**b;
            proof {
                use_type_invariant(c);
            }
            feed_pair(0, 26u64, c.hash)
        },
    }
}

impl Operand {
    /// The hash of this condition: the key under which its result is cached.
    pub fn gen_hash(&self) -> (r: u64)
        ensures
            r == op_hash(self@),
    {
        compute_hash(self)
    }
}

impl OperandContainer {
    #[verifier::type_invariant]
    spec fn hash_matches(&self) -> bool {
        self.hash == op_hash(op_view(&self.op))
    }

    /// Wraps an operand with its hash.
    pub fn from_op(op: Operand) -> (r: OperandContainer)
        ensures
            r@ == op@,
    {
        let hash = compute_hash(&op);
        OperandContainer { op, hash }
    }

    /// The operand.
    pub fn op(&self) -> (r: &Operand)
        ensures
            r@ == self@,
    {
        &self.op
    }

    /// The hash of the condition, used as its key in result caches.
    pub fn hash(&self) -> (r: u64)
        ensures
            r == op_hash(self@),
    {
        proof {
            use_type_invariant(self);
        }
        self.hash
    }
}

/// A copy of a value with the same model.
pub fn clone_val(v: &Val) -> (r: Val)
    ensures
        r@ == v@,
    decreases v,
{
    match v {
        Val::Bool(b) => Val::Bool(Bool(b.0)),
        Val::Int(i) => Val::Int(Int(i.0)),
        Val::IntList(l) => Val::IntList(l.clone()),
        Val::Float(f) => Val::Float(*f),
        Val::Str(s) => Val::Str(Str(s.0.clone())),
        Val::StrList(l) => Val::StrList(StrList(clone_fat_strings(&l.0))),
        Val::Regex(r) => Val::Regex(r.clone()),
        Val::Field(f) => Val::Field(Field(f.0.clone())),
        Val::FieldIndex(f, i) => Val::FieldIndex(Field(f.0.clone()), *i),
        Val::Expression(e) => Val::Expression(Box::new(clone_container(&**e))),
        Val::FnCall(f) => Val::FnCall(clone_fncall(f)),
        Val::MethodCall(m) => Val::MethodCall(MethodCall {
            receiver: Box::new(clone_val(&m.receiver)),
            method: m.method.clone(),
            args: clone_vals(&m.args),
        }),
    }
}

impl Clone for Val {
    fn clone(&self) -> (r: Self)
        ensures
            r@ == self@,
    {
        clone_val(self)
    }
}

/// A copy of a function call with the same name and argument models.
pub fn clone_fncall(f: &FnCall) -> (r: FnCall)
    ensures
        r.name@ == f.name@,
        vals_view(r.args@) == vals_view(f.args@),
    decreases f,
{
    FnCall { name: f.name.clone(), args: clone_vals(&f.args) }
}

/// A copy of a list of values with the same models.
pub fn clone_vals(vs: &Vec<Val>) -> (r: Vec<Val>)
    ensures
        vals_view(r@) == vals_view(vs@),
    decreases vs,
{
    let mut args: Vec<Val> = Vec::new();
    let mut i: usize = 0;
    while i < vs.len()
        invariant
            i <= vs@.len(),
            args@.len() == i,
            forall|j: int| 0 <= j < i ==> val_view(&#[trigger] args@[j]) == val_view(&vs@[j]),
        decreases vs.len() - i,
    {
        proof {
            assert(decreases_to!(vs => vs@));
            assert(decreases_to!(vs@ => vs@[i as int]));
        }
        args.push(clone_val(&vs[i]));
        i = i + 1;
    }
    proof {
        lemma_vals_view_ext(args@, vs@);
    }
    args
}

/// A copy of a list of strings with the same characters.
pub fn clone_fat_strings(l: &Vec<FatString>) -> (r: Vec<FatString>)
    ensures
        fat_strings_view(r@) == fat_strings_view(l@),
{
    let mut out: Vec<FatString> = Vec::new();
    let mut i: usize = 0;
    while i < l.len()
        invariant
            i <= l@.len(),
            out@.len() == i,
            forall|j: int| 0 <= j < i ==> (#[trigger] out@[j])@ == l@[j]@,
        decreases l.len() - i,
    {
        out.push(l[i].clone());
        i = i + 1;
    }
    proof {
        assert(fat_strings_view(out@) =~= fat_strings_view(l@));
    }
    out
}

/// A copy of a condition with the same model.
pub fn clone_container(c: &OperandContainer) -> (r: OperandContainer)
    ensures
        r@ == c@,
    decreases c,
{
    proof {
        use_type_invariant(c);
    }
    let op = clone_op(&c.op);
    OperandContainer { op, hash: c.hash }
}

fn clone_containers(cs: &Vec<OperandContainer>) -> (r: Vec<OperandContainer>)
    ensures
        containers_view(r@) == containers_view(cs@),
    decreases cs,
{
    let mut out: Vec<OperandContainer> = Vec::new();
    let mut i: usize = 0;
    while i < cs.len()
        invariant
            i <= cs@.len(),
            out@.len() == i,
            forall|j: int| 0 <= j < i ==> container_view(&#[trigger] out@[j]) == container_view(&cs@[j]),
        decreases cs.len() - i,
    {
        out.push(clone_container(&cs[i]));
        i = i + 1;
    }
    proof {
        lemma_containers_view_ext(out@, cs@);
    }
    out
}

/// A copy of an operand with the same model.
pub fn clone_op(o: &Operand) -> (r: Operand)
    ensures
        r@ == o@,
    decreases o,
{
    match o {
        Operand::And(cs) => Operand::And(clone_containers(cs)),
        Operand::Or(cs) => Operand::Or(clone_containers(cs)),
        Operand::Cmp(a, b, c, f) => Operand::Cmp(clone_val(a), clone_val(b), *c, *f),
        Operand::Match(v, r, c) => Operand::Match(clone_val(v), r.clone(), *c),
        Operand::Val(v) => Operand::Val(clone_val(v)),
        Operand::Negate(b) => Operand::Negate(Box::new(clone_container(&**b))),
    }
}

} // verus!

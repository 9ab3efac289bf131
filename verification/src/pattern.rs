//! Regular expressions of the rule language, compiled and matched by the `regex` crate.
use vstd::prelude::*;
use vstd::string::StringExecFns;
use crate::fat_string::{flag_of_regex_flags, InsensitiveFlag};
use crate::text::{
    apostrophe_to_quote, chars_of, lowercase, replace_apostrophes, string_from_chars, to_lowercase,
};
use crate::val::{fail, RadeResult};

verus! {

/// Whether `regex::Regex::new` accepts a pattern; it depends on the pattern alone.
pub uninterp spec fn regex_compiles(pattern: Seq<char>) -> bool;

/// Whether the regex compiled from `pattern` matches somewhere in `text`
/// (`regex::Regex::is_match`); it depends on the two texts alone.
pub uninterp spec fn regex_is_match(pattern: Seq<char>, text: Seq<char>) -> bool;

/// The text of the error that `regex::Regex::new` gives for a pattern it refuses; it
/// depends on the pattern alone.
pub uninterp spec fn regex_error_text(pattern: Seq<char>) -> Seq<char>;

/// Calls `regex::Regex::new(pattern)` and gives the text of its error, if it failed; the
/// contract only names the outcome and the text, the regex syntax is not restated.
#[verifier::external_body]
fn regex_check(pattern: &str) -> (err: Option<String>)
    ensures
        err is None <==> regex_compiles(pattern@),
        err is Some ==> err->0@ == regex_error_text(pattern@),
{
    ::regex::Regex::new(pattern).err().map(|e| e.to_string())
}

/// Compiles `pattern` with `regex::Regex::new` (it compiles, by the requirement) and
/// calls `is_match` on `text`; the contract names the answer by the two texts.
#[verifier::external_body]
fn regex_search(pattern: &str, text: &str) -> (m: bool)
    requires
        regex_compiles(pattern@),
    ensures
        m == regex_is_match(pattern@, text@),
{
    ::regex::Regex::new(pattern).map(|re| re.is_match(text)).unwrap_or(false)
}

/// `s` without its leading slashes.
pub open spec fn strip_leading_slashes(s: Seq<char>) -> Seq<char>
    decreases s.len(),
{
    if s.len() > 0 && s[0] == '/' { strip_leading_slashes(s.drop_first()) } else { s }
}

/// Position of the last slash of `s`.
pub open spec fn last_slash(s: Seq<char>) -> Option<int>
    decreases s.len(),
{
    if s.len() == 0 {
        None
    } else if s.last() == '/' {
        Some(s.len() - 1)
    } else {
        last_slash(s.drop_last())
    }
}

/// `s` with every `\/` turned into `/`, scanning left to right.
pub open spec fn unescape_slashes(s: Seq<char>) -> Seq<char>
    decreases s.len(),
{
    if s.len() >= 2 && s[0] == '\\' && s[1] == '/' {
        seq!['/'] + unescape_slashes(s.skip(2))
    } else if s.len() > 0 {
        seq![s[0]] + unescape_slashes(s.drop_first())
    } else {
        s
    }
}

/// The pattern handed to the regex engine: the flags, when there are any, go into an
/// inline group `(?flags)` in front.
pub open spec fn pattern_with_flags(pattern: Seq<char>, flags: Seq<char>) -> Seq<char> {
    if flags.len() > 0 {
        seq!['(', '?'] + flags + seq![')'] + pattern
    } else {
        pattern
    }
}

/// Splits the text of a regex literal `/pattern/flags` into its pattern (with `\/`
/// unescaped) and its flags.
pub open spec fn split_regex_literal(s: Seq<char>) -> (Seq<char>, Seq<char>) {
    let body = strip_leading_slashes(s);
    match last_slash(body) {
        Some(k) => (unescape_slashes(body.take(k)), body.skip(k + 1)),
        None => (unescape_slashes(body), Seq::empty()),
    }
}

/// A compiled regex: the full pattern handed to the engine and the insensitivity that its
/// flags ask for.
pub struct RadeRegex {
    pattern: String,
    flag: Option<InsensitiveFlag>,
}

/// A regex as a value: the engine's pattern and the insensitivity flag.
pub struct RegexView {
    pub pattern: Seq<char>,
    pub flag: Option<InsensitiveFlag>,
}

impl View for RadeRegex {
    type V = RegexView;

    closed spec fn view(&self) -> RegexView {
        RegexView { pattern: self.pattern@, flag: self.flag }
    }
}

/// The regex that `RadeRegex::new(pattern, flags)` builds, or `None` when the engine
/// refuses the pattern.
pub open spec fn regex_from_parts(pattern: Seq<char>, flags: Seq<char>) -> Option<RegexView> {
    let full = pattern_with_flags(pattern, flags);
    if regex_compiles(full) {
        Some(RegexView { pattern: full, flag: flag_of_regex_flags(flags) })
    } else {
        None
    }
}

/// The engine's error text for a regex literal it refuses.
pub open spec fn regex_literal_error(s: Seq<char>) -> Seq<char> {
    regex_error_text(pattern_with_flags(split_regex_literal(s).0, split_regex_literal(s).1))
}

/// The regex that a literal `/pattern/flags` stands for.
pub open spec fn regex_from_literal(s: Seq<char>) -> Option<RegexView> {
    regex_from_parts(split_regex_literal(s).0, split_regex_literal(s).1)
}

fn slice_chars(v: &[char], from: usize, to: usize) -> (r: Vec<char>)
    requires
        from <= to <= v@.len(),
    ensures
        r@ == v@.subrange(from as int, to as int),
{
    let mut out: Vec<char> = Vec::new();
    let mut i = from;
    while i < to
        invariant
            from <= i <= to <= v@.len(),
            out@ == v@.subrange(from as int, i as int),
        decreases to - i,
    {
        out.push(v[i]);
        i = i + 1;
        proof {
            assert(out@ =~= v@.subrange(from as int, i as int));
        }
    }
    out
}

fn unescape(v: &[char]) -> (r: Vec<char>)
    ensures
        r@ == unescape_slashes(v@),
{
    let mut out: Vec<char> = Vec::new();
    let mut i: usize = 0;
    proof {
        assert(v@.skip(0) =~= v@);
        assert(out@ + unescape_slashes(v@) =~= unescape_slashes(v@));
    }
    while i < v.len()
        invariant
            i <= v@.len(),
            out@ + unescape_slashes(v@.skip(i as int)) == unescape_slashes(v@),
        decreases v.len() - i,
    {
        let ghost rest = v@.skip(i as int);
        if i + 1 < v.len() && v[i] == '\\' && v[i + 1] == '/' {
            out.push('/');
            proof {
                assert(rest.skip(2) == v@.skip(i + 2));
                assert(out@ + unescape_slashes(v@.skip(i + 2)) =~= unescape_slashes(v@));
            }
            i = i + 2;
        } else {
            out.push(v[i]);
            proof {
                assert(rest.drop_first() == v@.skip(i + 1));
                assert(out@ + unescape_slashes(v@.skip(i + 1)) =~= unescape_slashes(v@));
            }
            i = i + 1;
        }
    }
    proof {
        assert(v@.skip(v@.len() as int) =~= Seq::<char>::empty());
        assert(out@ =~= unescape_slashes(v@));
    }
    out
}

impl RadeRegex {
    #[verifier::type_invariant]
    closed spec fn compiles(&self) -> bool {
        regex_compiles(self.pattern@)
    }

    /// Compiles `s` with the regex flags `flags` (put in an inline group in front).
    pub fn new(s: &str, flags: &str) -> (r: RadeResult<RadeRegex>)
        ensures
            match regex_from_parts(s@, flags@) {
                Some(v) => r is Ok && r->Ok_0@ == v,
                None => r is Err && r->Err_0@ == regex_error_text(pattern_with_flags(s@, flags@)),
            },
    {
        let p = chars_of(s);
        let f = chars_of(flags);
        RadeRegex::from_chars(p.as_slice(), f.as_slice())
    }

    fn from_chars(p: &[char], f: &[char]) -> (r: RadeResult<RadeRegex>)
        ensures
            match regex_from_parts(p@, f@) {
                Some(v) => r is Ok && r->Ok_0@ == v,
                None => r is Err && r->Err_0@ == regex_error_text(pattern_with_flags(p@, f@)),
            },
    {
        let mut full: Vec<char> = Vec::new();
        if f.len() > 0 {
            full.push('(');
            full.push('?');
            let mut i: usize = 0;
            while i < f.len()
                invariant
                    i <= f@.len(),
                    full@ == seq!['(', '?'] + f@.take(i as int),
                decreases f.len() - i,
            {
                full.push(f[i]);
                i = i + 1;
                proof {
                    assert(full@ =~= seq!['(', '?'] + f@.take(i as int));
                }
            }
            full.push(')');
        }
        let mut j: usize = 0;
        let ghost base = full@;
        while j < p.len()
            invariant
                j <= p@.len(),
                full@ == base + p@.take(j as int),
            decreases p.len() - j,
        {
            full.push(p[j]);
            j = j + 1;
            proof {
                assert(full@ =~= base + p@.take(j as int));
            }
        }
        proof {
            assert(f@.take(f@.len() as int) == f@);
            assert(p@.take(p@.len() as int) == p@);
            assert(full@ =~= pattern_with_flags(p@, f@));
        }
        let pattern = string_from_chars(full.as_slice());
        let fs = string_from_chars(f);
        if let Some(e) = regex_check(pattern.as_str()) {
            return Err(e);
        }
        let flag = InsensitiveFlag::from_regex_flags(fs.as_str());
        Ok(RadeRegex { pattern, flag })
    }

    /// Reads a regex literal `/pattern/flags`: leading slashes are dropped, the last slash
    /// separates the flags, and `\/` in the pattern stands for `/`.
    pub fn from_str(regex_str: &str) -> (r: RadeResult<RadeRegex>)
        ensures
            match regex_from_literal(regex_str@) {
                Some(v) => r is Ok && r->Ok_0@ == v,
                None => r is Err,
            },
    {
        let s = chars_of(regex_str);
        RadeRegex::from_literal_chars(s.as_slice())
    }

    /// `from_str` on the characters of a literal.
    pub fn from_literal_chars(s: &[char]) -> (r: RadeResult<RadeRegex>)
        ensures
            match regex_from_literal(s@) {
                Some(v) => r is Ok && r->Ok_0@ == v,
                None => r is Err && r->Err_0@ == regex_literal_error(s@),
            },
    {
        let mut start: usize = 0;
        proof {
            assert(s@.skip(0) =~= s@);
        }
        while start < s.len() && s[start] == '/'
            invariant
                start <= s@.len(),
                strip_leading_slashes(s@) == strip_leading_slashes(s@.skip(start as int)),
            decreases s.len() - start,
        {
            proof {
                assert(s@.skip(start as int).drop_first() == s@.skip(start + 1));
            }
            start = start + 1;
        }
        let body = slice_chars(s, start, s.len());
        proof {
            assert(body@ == s@.skip(start as int));
            assert(strip_leading_slashes(body@) == body@);
        }
        let mut k: usize = body.len();
        proof {
            assert(body@.take(body@.len() as int) =~= body@);
        }
        while k > 0 && body[k - 1] != '/'
            invariant
                k <= body@.len(),
                last_slash(body@) == last_slash(body@.take(k as int)),
            decreases k,
        {
            proof {
                assert(body@.take(k as int).drop_last() == body@.take(k - 1));
            }
            k = k - 1;
        }
        if k == 0 {
            proof {
                assert(body@.take(0) =~= Seq::<char>::empty());
            }
            let pat = unescape(body.as_slice());
            let empty: Vec<char> = Vec::new();
            proof {
                assert(empty@ =~= Seq::<char>::empty());
            }
            RadeRegex::from_chars(pat.as_slice(), empty.as_slice())
        } else {
            proof {
                assert(body@.take(k as int).last() == '/');
                assert(last_slash(body@.take(k as int)) == Some(k - 1));
            }
            let before = slice_chars(body.as_slice(), 0, k - 1);
            let flags = slice_chars(body.as_slice(), k, body.len());
            proof {
                assert(before@ == body@.take(k - 1));
                assert(flags@ == body@.skip(k as int));
            }
            let pat = unescape(before.as_slice());
            RadeRegex::from_chars(pat.as_slice(), flags.as_slice())
        }
    }

    /// The insensitivity flag that the regex's flags ask for.
    pub fn flag(&self) -> (r: Option<InsensitiveFlag>)
        ensures
            r == self@.flag,
    {
        self.flag
    }

    /// The pattern handed to the regex engine.
    pub fn as_str(&self) -> (r: &str)
        ensures
            r@ == self@.pattern,
    {
        self.pattern.as_str()
    }

    /// Whether the regex matches somewhere in `text`.
    pub fn is_match(&self, text: &str) -> (r: bool)
        ensures
            r == regex_is_match(self@.pattern, text@),
    {
        proof { use_type_invariant(self); }
        regex_search(self.pattern.as_str(), text)
    }
}

/// The position of the first `c` in `s` at or after `i`.
pub open spec fn index_from(s: Seq<char>, c: char, i: int) -> Option<int>
    decreases s.len() - i,
{
    if i < 0 || i >= s.len() {
        None
    } else if s[i] == c {
        Some(i)
    } else {
        index_from(s, c, i + 1)
    }
}

/// How a regex is written back as a literal: a leading inline group `(?flags)` becomes the
/// flags after the closing slash (`//` when the group is not closed).
pub open spec fn regex_display(p: Seq<char>) -> Seq<char> {
    if p.len() >= 2 && p[0] == '(' && p[1] == '?' {
        let rest = p.skip(2);
        match index_from(rest, ')', 0) {
            Some(k) => seq!['/'] + rest.skip(k + 1) + seq!['/'] + rest.take(k),
            None => seq!['/', '/'],
        }
    } else {
        seq!['/'] + p + seq!['/']
    }
}

impl RadeRegex {
    /// The regex written as a literal (see `regex_display`).
    pub fn to_string(&self) -> (r: String)
        ensures
            r@ == regex_display(self@.pattern),
    {
        let p = chars_of(self.pattern.as_str());
        let mut out: Vec<char> = Vec::new();
        out.push('/');
        if p.len() >= 2 && p[0] == '(' && p[1] == '?' {
            let ghost rest = p@.skip(2);
            let mut k: usize = 2;
            while k < p.len() && p[k] != ')'
                invariant
                    2 <= k <= p@.len(),
                    rest == p@.skip(2),
                    index_from(rest, ')', 0) == index_from(rest, ')', k - 2),
                decreases p.len() - k,
            {
                k = k + 1;
            }
            if k >= p.len() {
                out.push('/');
                proof {
                    assert(out@ =~= seq!['/', '/']);
                }
                return string_from_chars(out.as_slice());
            }
            proof {
                assert(index_from(rest, ')', k - 2) == Some((k - 2) as int));
            }
            let mut j: usize = k + 1;
            while j < p.len()
                invariant
                    k < j <= p@.len(),
                    out@ == seq!['/'] + p@.subrange(k + 1, j as int),
                decreases p.len() - j,
            {
                out.push(p[j]);
                j = j + 1;
                proof {
                    assert(out@ =~= seq!['/'] + p@.subrange(k + 1, j as int));
                }
            }
            out.push('/');
            let ghost mid = out@;
            let mut j: usize = 2;
            while j < k
                invariant
                    2 <= j <= k,
                    k < p@.len(),
                    out@ == mid + p@.subrange(2, j as int),
                decreases k - j,
            {
                out.push(p[j]);
                j = j + 1;
                proof {
                    assert(out@ =~= mid + p@.subrange(2, j as int));
                }
            }
            proof {
                assert(rest.skip(k - 2 + 1) =~= p@.subrange(k + 1, p@.len() as int));
                assert(rest.take(k - 2) =~= p@.subrange(2, k as int));
                assert(out@ =~= regex_display(p@));
            }
            string_from_chars(out.as_slice())
        } else {
            let mut j: usize = 0;
            while j < p.len()
                invariant
                    j <= p@.len(),
                    out@ == seq!['/'] + p@.take(j as int),
                decreases p.len() - j,
            {
                out.push(p[j]);
                j = j + 1;
                proof {
                    assert(out@ =~= seq!['/'] + p@.take(j as int));
                }
            }
            out.push('/');
            proof {
                assert(p@.take(p@.len() as int) =~= p@);
                assert(out@ =~= regex_display(p@));
            }
            string_from_chars(out.as_slice())
        }
    }
}

proof fn lemma_index_before(flags: Seq<char>, body: Seq<char>, i: int)
    requires
        0 <= i <= flags.len(),
        forall|j: int| 0 <= j < flags.len() ==> flags[j] != ')',
    ensures
        index_from(flags + seq![')'] + body, ')', i) == Some(flags.len() as int),
    decreases flags.len() - i,
{
    let s = flags + seq![')'] + body;
    if i < flags.len() {
        assert(s[i] == flags[i]);
        lemma_index_before(flags, body, i + 1);
    } else {
        assert(s[i] == ')');
    }
}

proof fn lemma_last_slash_before(body: Seq<char>, flags: Seq<char>)
    requires
        forall|j: int| 0 <= j < flags.len() ==> flags[j] != '/',
    ensures
        last_slash(body + seq!['/'] + flags) == Some(body.len() as int),
    decreases flags.len(),
{
    let s = body + seq!['/'] + flags;
    if flags.len() == 0 {
        assert(s.last() == '/');
    } else {
        assert(s.last() == flags.last());
        assert(s.drop_last() =~= body + seq!['/'] + flags.drop_last());
        lemma_last_slash_before(body, flags.drop_last());
    }
}

proof fn lemma_unescape_plain(s: Seq<char>)
    requires
        forall|j: int| 0 <= j < s.len() - 1 ==> !(s[j] == '\\' && #[trigger] s[j + 1] == '/'),
    ensures
        unescape_slashes(s) == s,
    decreases s.len(),
{
    if s.len() > 0 {
        let t = s.drop_first();
        assert forall|j: int| 0 <= j < t.len() - 1 implies !(t[j] == '\\' && #[trigger] t[j + 1] == '/') by {
            assert(t[j] == s[j + 1] && t[j + 1] == s[j + 2]);
        }
        if s.len() >= 2 {
            let z: int = 0;
            assert(!(s[z] == '\\' && s[z + 1] == '/'));
        }
        lemma_unescape_plain(t);
        assert(seq![s[0]] + s.drop_first() =~= s);
    }
}

/// Writing a regex back as a literal and reading that literal gives the same regex, for
/// a pattern that does not start with `/` and holds no backslash before a `/`, and flags
/// without slashes or `)`; an empty pattern takes no flags, and with no flags the pattern
/// must not itself open with `(?`.
pub proof fn law_regex_literal_roundtrip(body: Seq<char>, flags: Seq<char>)
    requires
        body.len() > 0 || flags.len() == 0,
        body.len() > 0 ==> body[0] != '/',
        forall|j: int| 0 <= j < body.len() - 1 ==> !(body[j] == '\\' && #[trigger] body[j + 1] == '/'),
        forall|j: int| 0 <= j < flags.len() ==> flags[j] != '/' && flags[j] != ')',
        flags.len() == 0 ==> !(body.len() >= 2 && body[0] == '(' && body[1] == '?'),
    ensures
        regex_from_literal(regex_display(pattern_with_flags(body, flags))) == regex_from_parts(
            body,
            flags,
        ),
{
    let p = pattern_with_flags(body, flags);
    let lit = seq!['/'] + body + seq!['/'] + flags;
    if body.len() == 0 {
        assert(p =~= Seq::<char>::empty());
        assert(regex_display(p) =~= seq!['/', '/']);
        assert(seq!['/', '/'].drop_first() =~= seq!['/']);
        assert(seq!['/'].drop_first() =~= Seq::<char>::empty());
        assert(strip_leading_slashes(Seq::<char>::empty()) =~= Seq::<char>::empty());
        assert(strip_leading_slashes(seq!['/']) == strip_leading_slashes(seq!['/'].drop_first()));
        assert(strip_leading_slashes(seq!['/', '/']) == strip_leading_slashes(seq!['/', '/'].drop_first()));
        assert(strip_leading_slashes(seq!['/', '/']) =~= Seq::<char>::empty());
        assert(unescape_slashes(Seq::<char>::empty()) =~= Seq::<char>::empty());
        return;
    }
    if flags.len() > 0 {
        let rest = p.skip(2);
        assert(rest =~= flags + seq![')'] + body);
        lemma_index_before(flags, body, 0);
        assert(rest.skip(flags.len() as int + 1) =~= body);
        assert(rest.take(flags.len() as int) =~= flags);
        assert(regex_display(p) =~= lit);
    } else {
        assert(regex_display(p) =~= lit);
    }
    let inner = body + seq!['/'] + flags;
    assert(lit.drop_first() =~= inner);
    assert(inner[0] == body[0]);
    assert(strip_leading_slashes(inner) == inner);
    assert(strip_leading_slashes(lit) == inner);
    lemma_last_slash_before(body, flags);
    assert(inner.take(body.len() as int) =~= body);
    assert(inner.skip(body.len() as int + 1) =~= flags);
    lemma_unescape_plain(body);
}

impl Clone for RadeRegex {
    fn clone(&self) -> (r: Self)
        ensures
            r@ == self@,
    {
        proof { use_type_invariant(self); }
        RadeRegex { pattern: self.pattern.clone(), flag: self.flag }
    }
}

/// A regex kept in four forms: as written, lowercased, with apostrophes turned into
/// double quotes, and both.
pub struct FatRegex {
    plain: String,
    case_insensitive: String,
    apostrophe_insensitive: String,
    ac_insensitive: String,
}

/// The four forms of a regex pattern, in the order plain, lowercase, apostrophe, both.
pub open spec fn fat_regex_forms(re: Seq<char>) -> (Seq<char>, Seq<char>, Seq<char>, Seq<char>) {
    (re, lowercase(re), apostrophe_to_quote(re), lowercase(apostrophe_to_quote(re)))
}

impl View for FatRegex {
    type V = (Seq<char>, Seq<char>, Seq<char>, Seq<char>);

    closed spec fn view(&self) -> (Seq<char>, Seq<char>, Seq<char>, Seq<char>) {
        (self.plain@, self.case_insensitive@, self.apostrophe_insensitive@, self.ac_insensitive@)
    }
}

impl FatRegex {
    #[verifier::type_invariant]
    closed spec fn all_compile(&self) -> bool {
        &&& regex_compiles(self.plain@)
        &&& regex_compiles(self.case_insensitive@)
        &&& regex_compiles(self.apostrophe_insensitive@)
        &&& regex_compiles(self.ac_insensitive@)
    }

    /// Compiles the four forms of `re`; fails when the engine refuses any of them, with the
    /// engine's message for the first form it refuses.
    pub fn from_str(re: &str) -> (r: RadeResult<FatRegex>)
        ensures
            ({
                let f = fat_regex_forms(re@);
                if regex_compiles(f.0) && regex_compiles(f.1) && regex_compiles(f.2)
                    && regex_compiles(f.3) {
                    r is Ok && r->Ok_0@ == f
                } else {
                    r is Err && r->Err_0@ == "Failed to compile regex: "@ + regex_error_text(
                        if !regex_compiles(f.0) {
                            f.0
                        } else if !regex_compiles(f.1) {
                            f.1
                        } else if !regex_compiles(f.2) {
                            f.2
                        } else {
                            f.3
                        },
                    )
                }
            }),
    {
        let case_insensitive = to_lowercase(re);
        let apostrophe_insensitive = replace_apostrophes(re);
        let ac_insensitive = to_lowercase(apostrophe_insensitive.as_str());
        if let Some(e) = regex_check(re) {
            return Err("Failed to compile regex: ".to_owned().concat(e.as_str()));
        }
        if let Some(e) = regex_check(case_insensitive.as_str()) {
            return Err("Failed to compile regex: ".to_owned().concat(e.as_str()));
        }
        if let Some(e) = regex_check(apostrophe_insensitive.as_str()) {
            return Err("Failed to compile regex: ".to_owned().concat(e.as_str()));
        }
        if let Some(e) = regex_check(ac_insensitive.as_str()) {
            return Err("Failed to compile regex: ".to_owned().concat(e.as_str()));
        }
        Ok(FatRegex { plain: re.to_owned(), case_insensitive, apostrophe_insensitive, ac_insensitive })
    }

    /// The form that a comparison under `comp_flag` uses.
    pub fn choose_form(&self, comp_flag: &Option<InsensitiveFlag>) -> (r: &str)
        ensures
            r@ == match *comp_flag {
                None => self@.0,
                Some(InsensitiveFlag::Case) => self@.1,
                Some(InsensitiveFlag::Apostrophe) => self@.2,
                Some(InsensitiveFlag::CaseAndApostrophe) => self@.3,
            },
    {
        match comp_flag {
            None => self.plain.as_str(),
            Some(InsensitiveFlag::Case) => self.case_insensitive.as_str(),
            Some(InsensitiveFlag::Apostrophe) => self.apostrophe_insensitive.as_str(),
            Some(InsensitiveFlag::CaseAndApostrophe) => self.ac_insensitive.as_str(),
        }
    }

    /// The pattern as written.
    pub fn plain(&self) -> (r: &str)
        ensures
            r@ == self@.0,
    {
        self.plain.as_str()
    }

    /// The lowercased pattern.
    pub fn lowercased(&self) -> (r: &str)
        ensures
            r@ == self@.1,
    {
        self.case_insensitive.as_str()
    }

    /// Whether the form chosen by `comp_flag` matches somewhere in `text`.
    pub fn is_match(&self, text: &str, comp_flag: &Option<InsensitiveFlag>) -> (r: bool)
        ensures
            r == regex_is_match(
                match *comp_flag {
                    None => self@.0,
                    Some(InsensitiveFlag::Case) => self@.1,
                    Some(InsensitiveFlag::Apostrophe) => self@.2,
                    Some(InsensitiveFlag::CaseAndApostrophe) => self@.3,
                },
                text@,
            ),
    {
        proof { use_type_invariant(self); }
        regex_search(self.choose_form(comp_flag), text)
    }
}

} // verus!

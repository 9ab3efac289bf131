//! Strings kept together with their case- and apostrophe-insensitive forms.
use vstd::prelude::*;
use crate::text::{
    apostrophe_to_quote, lowercase, replace_apostrophes, seq_contains, str_contains, to_lowercase,
};

verus! {

/// Which insensitive form of a string a comparison uses.
#[derive(Debug, Clone, Copy, PartialEq, Eq, Structural, Hash)]
pub enum InsensitiveFlag {
    Case,
    Apostrophe,
    CaseAndApostrophe,
}

/// The flag that a regex's flag letters ask for: `ia` anywhere gives case-and-apostrophe,
/// else an `i` gives case, else an `a` gives apostrophe, else none.
pub open spec fn flag_of_regex_flags(flags: Seq<char>) -> Option<InsensitiveFlag> {
    if seq_contains(flags, seq!['i', 'a']) {
        Some(InsensitiveFlag::CaseAndApostrophe)
    } else if seq_contains(flags, seq!['i']) {
        Some(InsensitiveFlag::Case)
    } else if seq_contains(flags, seq!['a']) {
        Some(InsensitiveFlag::Apostrophe)
    } else {
        None
    }
}

impl InsensitiveFlag {
    /// Reads the insensitivity flag from a regex's flag letters.
    pub fn from_regex_flags(flags: &str) -> (r: Option<InsensitiveFlag>)
        ensures
            r == flag_of_regex_flags(flags@),
    {
        proof {
            reveal_strlit("ia");
            reveal_strlit("i");
            reveal_strlit("a");
            assert("ia"@ =~= seq!['i', 'a']);
            assert("i"@ =~= seq!['i']);
            assert("a"@ =~= seq!['a']);
        }
        if str_contains(flags, "ia") {
            Some(InsensitiveFlag::CaseAndApostrophe)
        } else if str_contains(flags, "i") {
            Some(InsensitiveFlag::Case)
        } else if str_contains(flags, "a") {
            Some(InsensitiveFlag::Apostrophe)
        } else {
            None
        }
    }
}

/// The form of `s` that a comparison under `flag` looks at.
pub open spec fn insensitive_form(s: Seq<char>, flag: Option<InsensitiveFlag>) -> Seq<char> {
    match flag {
        None => s,
        Some(InsensitiveFlag::Case) => lowercase(s),
        Some(InsensitiveFlag::Apostrophe) => apostrophe_to_quote(s),
        Some(InsensitiveFlag::CaseAndApostrophe) => lowercase(apostrophe_to_quote(s)),
    }
}

/// A string with its lowercase form, its form with apostrophes turned into double quotes,
/// and the lowercase of the latter.
pub struct FatString {
    plain: String,
    case_insensitive: String,
    apostrophe_insensitive: String,
    ac_insensitive: String,
}

impl View for FatString {
    type V = Seq<char>;

    open spec fn view(&self) -> Seq<char> {
        self.plain_spec()
    }
}

impl FatString {
    /// The characters as they were given.
    pub closed spec fn plain_spec(&self) -> Seq<char> {
        self.plain@
    }

    #[verifier::type_invariant]
    closed spec fn forms_agree(&self) -> bool {
        &&& self.case_insensitive@ == lowercase(self.plain@)
        &&& self.apostrophe_insensitive@ == apostrophe_to_quote(self.plain@)
        &&& self.ac_insensitive@ == lowercase(apostrophe_to_quote(self.plain@))
    }

    /// Computes the three insensitive forms of `s`.
    pub fn new(s: String) -> (r: FatString)
        ensures
            r@ == s@,
    {
        let case_insensitive = to_lowercase(s.as_str());
        let apostrophe_insensitive = replace_apostrophes(s.as_str());
        let ac_insensitive = to_lowercase(apostrophe_insensitive.as_str());
        FatString { plain: s, case_insensitive, apostrophe_insensitive, ac_insensitive }
    }

    /// Same as `new`, from a string slice.
    pub fn from_str(s: &str) -> (r: FatString)
        ensures
            r@ == s@,
    {
        FatString::new(s.to_owned())
    }

    /// The form that a comparison under `comp_flag` uses.
    pub fn choose_form(&self, comp_flag: &Option<InsensitiveFlag>) -> (r: &str)
        ensures
            r@ == insensitive_form(self@, *comp_flag),
    {
        proof { use_type_invariant(self); }
        match comp_flag {
            None => self.plain.as_str(),
            Some(InsensitiveFlag::Case) => self.case_insensitive.as_str(),
            Some(InsensitiveFlag::Apostrophe) => self.apostrophe_insensitive.as_str(),
            Some(InsensitiveFlag::CaseAndApostrophe) => self.ac_insensitive.as_str(),
        }
    }

    /// The string as it was given.
    pub fn plain(&self) -> (r: &str)
        ensures
            r@ == self@,
    {
        self.plain.as_str()
    }

    /// The lowercase form.
    pub fn lowercased(&self) -> (r: &str)
        ensures
            r@ == lowercase(self@),
    {
        proof { use_type_invariant(self); }
        self.case_insensitive.as_str()
    }
}

impl Clone for FatString {
    fn clone(&self) -> (r: Self)
        ensures
            r@ == self@,
    {
        proof { use_type_invariant(self); }
        FatString {
            plain: self.plain.clone(),
            case_insensitive: self.case_insensitive.clone(),
            apostrophe_insensitive: self.apostrophe_insensitive.clone(),
            ac_insensitive: self.ac_insensitive.clone(),
        }
    }
}

} // verus!

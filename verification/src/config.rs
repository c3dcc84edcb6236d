//! Path filtering: which files a change event may concern. A path must match
//! at least one include pattern (when any are configured) and no exclude
//! pattern; exclusion is checked after inclusion and always wins. Loading the
//! configuration file itself happens outside; this module is handed the
//! pattern strings.

use vstd::prelude::*;

verus! {

#[verifier::external_type_specification]
#[verifier::external_body]
pub struct ExRegex(regex::Regex);

/// Whether the regular expression `pattern` matches somewhere in `text`:
/// a function of the two strings alone.
pub uninterp spec fn regex_accepts(pattern: Seq<char>, text: Seq<char>) -> bool;

/// Whether `pattern` is a valid regular expression: a function of the
/// pattern alone.
pub uninterp spec fn regex_compiles(pattern: Seq<char>) -> bool;

/// A compiled regular expression together with the pattern it was compiled
/// from. The only constructor compiles `re` from `re_str`, which is what
/// entitles `is_match` to speak of the pattern.
#[derive(Debug)]
pub struct RegexString {
    re: regex::Regex,
    re_str: String,
}

impl RegexString {
    /// The pattern this expression was compiled from.
    pub closed spec fn pattern(&self) -> Seq<char> {
        self.re_str@
    }

    /// Relies on regex::Regex::new: compiles the pattern, keeping it beside
    /// the compiled expression; on failure, the error's description. Whether
    /// compilation succeeds depends on the pattern alone.
    #[verifier::external_body]
    pub fn new(pattern: &str) -> (r: Result<RegexString, String>)
        ensures
            (r is Ok) == regex_compiles(pattern@),
            r matches Ok(rs) ==> rs.pattern() == pattern@,
    {
        match regex::Regex::new(pattern) {
            Ok(re) => Ok(RegexString { re, re_str: pattern.to_string() }),
            Err(e) => Err(format!("{e}")),
        }
    }

    /// Relies on regex::Regex::is_match: whether the text matches is a
    /// function of the pattern and the text alone, and `self.re` was
    /// compiled from exactly `self.pattern()`.
    #[verifier::external_body]
    pub fn is_match(&self, text: &str) -> (r: bool)
        ensures
            r == regex_accepts(self.pattern(), text@),
    {
        self.re.is_match(text)
    }

    /// The pattern's text, for diagnostics.
    pub fn pattern_str(&self) -> (r: &str)
        ensures
            r@ == self.pattern(),
    {
        self.re_str.as_str()
    }
}

/// The run configuration the engine consults: the default document path,
/// the include and exclude filters, and the tagging switches.
#[derive(Debug)]
pub struct Config {
    pub path: Option<String>,
    pub file_include: Vec<RegexString>,
    pub file_exclude: Vec<RegexString>,
    pub add_generated: bool,
    pub add_generation_date: Option<String>,
}

/// A path is ignored when include patterns exist and none matches, or when
/// any exclude pattern matches.
pub open spec fn spec_ignored(
    includes: Seq<RegexString>,
    excludes: Seq<RegexString>,
    path: Seq<char>,
) -> bool {
    ||| (includes.len() > 0 && !(exists|i: int|
        0 <= i < includes.len() && regex_accepts((#[trigger] includes[i]).pattern(), path)))
    ||| exists|i: int|
        0 <= i < excludes.len() && regex_accepts((#[trigger] excludes[i]).pattern(), path)
}

impl Config {
    /// Builds a configuration from plain values, compiling each filter
    /// pattern: it succeeds exactly when every include and exclude pattern
    /// is a valid regular expression, and otherwise fails with the first
    /// invalid pattern's description, includes checked before excludes.
    pub fn from_parts(
        path: Option<String>,
        include_patterns: &Vec<String>,
        exclude_patterns: &Vec<String>,
        add_generated: bool,
        add_generation_date: Option<String>,
    ) -> (r: Result<Config, String>)
        ensures
            (r is Ok) == ((forall|i: int|
                0 <= i < include_patterns@.len() ==> regex_compiles(
                    (#[trigger] include_patterns@[i])@,
                )) && (forall|i: int|
                0 <= i < exclude_patterns@.len() ==> regex_compiles(
                    (#[trigger] exclude_patterns@[i])@,
                ))),
            r matches Ok(c) ==> {
                &&& c.path == path
                &&& c.add_generated == add_generated
                &&& c.add_generation_date == add_generation_date
                &&& c.file_include@.len() == include_patterns@.len()
                &&& forall|i: int|
                    0 <= i < include_patterns@.len() ==> (#[trigger] c.file_include@[i]).pattern()
                        == include_patterns@[i]@
                &&& c.file_exclude@.len() == exclude_patterns@.len()
                &&& forall|i: int|
                    0 <= i < exclude_patterns@.len() ==> (#[trigger] c.file_exclude@[i]).pattern()
                        == exclude_patterns@[i]@
            },
            r is Err ==> ((exists|i: int|
                0 <= i < include_patterns@.len() && !regex_compiles(
                    (#[trigger] include_patterns@[i])@,
                ) && (forall|k: int|
                    0 <= k < i ==> regex_compiles((#[trigger] include_patterns@[k])@))) || ((
            forall|i: int|
                0 <= i < include_patterns@.len() ==> regex_compiles(
                    (#[trigger] include_patterns@[i])@,
                )) && (exists|i: int|
                0 <= i < exclude_patterns@.len() && !regex_compiles(
                    (#[trigger] exclude_patterns@[i])@,
                ) && (forall|k: int|
                    0 <= k < i ==> regex_compiles((#[trigger] exclude_patterns@[k])@))))),
    {
        let mut file_include: Vec<RegexString> = Vec::new();
        let mut i: usize = 0;
        while i < include_patterns.len()
            invariant
                i <= include_patterns@.len(),
                file_include@.len() == i,
                forall|k: int|
                    0 <= k < i ==> (#[trigger] file_include@[k]).pattern()
                        == include_patterns@[k]@,
                forall|k: int| 0 <= k < i ==> regex_compiles((#[trigger] include_patterns@[k])@),
            decreases include_patterns@.len() - i,
        {
            match RegexString::new(include_patterns[i].as_str()) {
                Ok(rs) => file_include.push(rs),
                Err(e) => {
                    proof {
                        assert(!regex_compiles(include_patterns@[i as int]@));
                    }
                    return Err(e);
                },
            }
            i += 1;
        }
        let mut file_exclude: Vec<RegexString> = Vec::new();
        let mut j: usize = 0;
        while j < exclude_patterns.len()
            invariant
                j <= exclude_patterns@.len(),
                file_exclude@.len() == j,
                forall|k: int|
                    0 <= k < j ==> (#[trigger] file_exclude@[k]).pattern()
                        == exclude_patterns@[k]@,
                forall|k: int| 0 <= k < i ==> regex_compiles((#[trigger] include_patterns@[k])@),
                i == include_patterns@.len(),
                forall|k: int| 0 <= k < j ==> regex_compiles((#[trigger] exclude_patterns@[k])@),
            decreases exclude_patterns@.len() - j,
        {
            match RegexString::new(exclude_patterns[j].as_str()) {
                Ok(rs) => file_exclude.push(rs),
                Err(e) => {
                    proof {
                        assert(!regex_compiles(exclude_patterns@[j as int]@));
                    }
                    return Err(e);
                },
            }
            j += 1;
        }
        Ok(Config { path, file_include, file_exclude, add_generated, add_generation_date })
    }

    /// Whether a path is excluded from processing by the configured filters.
    pub fn is_ignored(&self, path: &str) -> (r: bool)
        ensures
            r == spec_ignored(self.file_include@, self.file_exclude@, path@),
    {
        if self.file_include.len() > 0 {
            let mut i: usize = 0;
            let mut included = false;
            while i < self.file_include.len()
                invariant
                    i <= self.file_include@.len(),
                    included == exists|k: int|
                        0 <= k < i && regex_accepts(
                            (#[trigger] self.file_include@[k]).pattern(),
                            path@,
                        ),
                decreases self.file_include@.len() - i,
            {
                if self.file_include[i].is_match(path) {
                    included = true;
                }
                i += 1;
            }
            if !included {
                return true;
            }
        }
        let mut j: usize = 0;
        while j < self.file_exclude.len()
            invariant
                j <= self.file_exclude@.len(),
                forall|k: int|
                    0 <= k < j ==> !regex_accepts(
                        (#[trigger] self.file_exclude@[k]).pattern(),
                        path@,
                    ),
                self.file_include@.len() > 0 ==> exists|k: int|
                    0 <= k < self.file_include@.len() && regex_accepts(
                        (#[trigger] self.file_include@[k]).pattern(),
                        path@,
                    ),
            decreases self.file_exclude@.len() - j,
        {
            if self.file_exclude[j].is_match(path) {
                return true;
            }
            j += 1;
        }
        false
    }
}

} // verus!

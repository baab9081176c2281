//! Recognition of declaration lines through the `regex` crate.

use vstd::prelude::*;

verus! {

#[verifier::external_type_specification]
#[verifier::external_body]
pub struct ExRegex(regex::Regex);

#[verifier::external_type_specification]
#[verifier::external_body]
pub struct ExRegexError(regex::Error);

/// Whether the regular expression written `pattern` matches somewhere in `hay`.
pub uninterp spec fn regex_finds(pattern: Seq<char>, hay: Seq<char>) -> bool;

/// Whether the regex engine compiles the regular expression written
/// `pattern` (it is valid and within the default size limit).
pub uninterp spec fn regex_compiles(pattern: Seq<char>) -> bool;

/// A compiled regular expression together with the text it was compiled from.
pub struct Pattern {
    re: regex::Regex,
    text: String,
}

impl Pattern {
    pub closed spec fn source(&self) -> Seq<char> {
        self.text@
    }
}

/// Relies on regex::Regex::new: compiles `pattern`, or gives the error of a
/// pattern that is not valid or too large.
#[verifier::external_body]
fn compile(pattern: &str) -> (r: Result<Pattern, regex::Error>)
    ensures
        r is Ok <==> regex_compiles(pattern@),
        r matches Ok(p) ==> p.source() == pattern@,
{
    match regex::Regex::new(pattern) {
        Ok(re) => Ok(Pattern { re, text: pattern.to_string() }),
        Err(e) => Err(e),
    }
}

/// Relies on regex::Regex::is_match: whether the pattern matches anywhere in
/// `hay`, which depends on the pattern's text and on `hay` alone.
#[verifier::external_body]
fn finds(p: &Pattern, hay: &str) -> (r: bool)
    ensures
        r == regex_finds(p.source(), hay@),
{
    p.re.is_match(hay)
}

/// A function declaration in Rust: `fn name(`.
pub open spec fn rust_fn_pattern() -> Seq<char> {
    "\\s*fn\\s+[a-zA-Z_]\\w*\\s*\\("@
}

/// A function definition in R: `name <- function(args) {`.
pub open spec fn r_function_pattern() -> Seq<char> {
    "^\\s*[^#]*(?:<-|==)\\s*function\\s*\\([^()]*\\)\\s*\\{"@
}

/// Whether `t`, a line without its leading whitespace, declares a function.
pub open spec fn declares(t: Seq<char>) -> bool {
    regex_finds(rust_fn_pattern(), t) || regex_finds(r_function_pattern(), t)
}

/// The two compiled declaration patterns.
pub struct Declarations {
    rust_fn: Pattern,
    r_function: Pattern,
}

impl Declarations {
    pub open spec fn wf(&self) -> bool {
        self.rust_source() == rust_fn_pattern() && self.r_source() == r_function_pattern()
    }

    pub closed spec fn rust_source(&self) -> Seq<char> {
        self.rust_fn.source()
    }

    pub closed spec fn r_source(&self) -> Seq<char> {
        self.r_function.source()
    }

    /// Compiles both patterns; `None` when the regex engine refuses one.
    pub fn new() -> (r: Option<Declarations>)
        ensures
            r is Some <==> (regex_compiles(rust_fn_pattern()) && regex_compiles(r_function_pattern())),
            r matches Some(d) ==> d.wf(),
    {
        let rust_fn = match compile("\\s*fn\\s+[a-zA-Z_]\\w*\\s*\\(") {
            Ok(p) => p,
            Err(_) => {
                return None;
            },
        };
        let r_function = match compile("^\\s*[^#]*(?:<-|==)\\s*function\\s*\\([^()]*\\)\\s*\\{") {
            Ok(p) => p,
            Err(_) => {
                return None;
            },
        };
        Some(Declarations { rust_fn, r_function })
    }

    /// Whether `t` matches either declaration pattern.
    pub fn declares(&self, t: &str) -> (r: bool)
        requires
            self.wf(),
        ensures
            r == declares(t@),
    {
        finds(&self.rust_fn, t) || finds(&self.r_function, t)
    }
}

} // verus!

//! Path-matching rules: case-insensitive globs, prefixes, suffixes and substrings, combined
//! with `and` and `not`.
use vstd::prelude::*;
use regex::Regex;
use crate::entry::string_from_chars;

verus! {

/// The `regex` crate's compiled regex, carried opaquely.
#[verifier::external_type_specification]
#[verifier::external_body]
pub struct ExRegex(regex::Regex);

/// The `regex` crate's compile error, carried opaquely.
#[verifier::external_type_specification]
#[verifier::external_body]
pub struct ExRegexError(regex::Error);

/// The regex meta characters: `\ . + * ? ( ) | [ ] { } ^ $ # & - ~`.
pub open spec fn is_meta_char(c: char) -> bool {
    c == '\\' || c == '.' || c == '+' || c == '*' || c == '?' || c == '(' || c == ')' || c == '|' || c == '['
        || c == ']' || c == '{' || c == '}' || c == '^' || c == '$' || c == '#' || c == '&' || c == '-' || c == '~'
}

/// The text with a backslash before each meta character: a pattern that matches it literally.
pub open spec fn regex_escaped(s: Seq<char>) -> Seq<char>
    decreases s.len(),
{
    if s.len() == 0 {
        Seq::empty()
    } else {
        regex_escaped(s.drop_last()) + if is_meta_char(s.last()) {
            seq!['\\', s.last()]
        } else {
            seq![s.last()]
        }
    }
}

/// Relies on `regex::escape`: a backslash before each meta character, every other character
/// kept, in order.
#[verifier::external_body]
fn escape(s: &str) -> (r: String)
    ensures
        r@ == regex_escaped(s@),
{
    regex::escape(s)
}

/// Relies on `Regex::new`: compiles a pattern, or fails on bad syntax or a size limit.
#[verifier::external_body]
fn compile(pattern: &str) -> Result<Regex, regex::Error> {
    Regex::new(pattern)
}

/// Whether the regex compiled from `pattern` matches somewhere in `text`.
pub uninterp spec fn regex_matches(pattern: Seq<char>, text: Seq<char>) -> bool;

/// Relies on `Regex::is_match` on the regex that `GlobRule::new` compiled from the rule's
/// pattern: whether it matches somewhere in the text; depends on pattern and text alone.
#[verifier::external_body]
fn glob_is_match(g: &GlobRule, text: &str) -> (r: bool)
    ensures
        r == regex_matches(g.pattern@, text@),
{
    g.regex.is_match(text)
}

/// Relies on `str::chars`: the characters of the string, in order.
#[verifier::external_body]
fn chars_of(s: &str) -> (r: Vec<char>)
    ensures
        r@ == s@,
{
    s.chars().collect()
}

/// ASCII letters mapped to lower case, everything else kept.
pub open spec fn ascii_lower_char(c: char) -> char {
    if 'A' <= c && c <= 'Z' {
        ((c as u32) + 32) as char
    } else {
        c
    }
}

pub open spec fn ascii_lower(s: Seq<char>) -> Seq<char> {
    s.map_values(|c: char| ascii_lower_char(c))
}

/// Relies on `str::to_ascii_lowercase`: maps `A`..=`Z` to `a`..=`z` and keeps every other
/// character.
#[verifier::external_body]
fn to_ascii_lowercase(s: &str) -> (r: String)
    ensures
        r@ == ascii_lower(s@),
{
    s.to_ascii_lowercase()
}

/// `s` with each leftmost, non-overlapping occurrence of the two characters `a`, `b` replaced
/// by `rep`.
pub open spec fn replace_pair(s: Seq<char>, a: char, b: char, rep: Seq<char>) -> Seq<char>
    decreases s.len(),
{
    if s.len() == 0 {
        s
    } else if s.len() >= 2 && s[0] == a && s[1] == b {
        rep + replace_pair(s.subrange(2, s.len() as int), a, b, rep)
    } else {
        seq![s[0]] + replace_pair(s.subrange(1, s.len() as int), a, b, rep)
    }
}

fn replace_pair_exec(s: &Vec<char>, a: char, b: char, rep: &Vec<char>) -> (r: Vec<char>)
    ensures
        r@ == replace_pair(s@, a, b, rep@),
{
    let mut out: Vec<char> = Vec::new();
    let mut i: usize = 0;
    let n = s.len();
    proof {
        assert(s@.subrange(0, n as int) =~= s@);
        assert(out@ + replace_pair(s@, a, b, rep@) =~= replace_pair(s@, a, b, rep@));
    }
    while i < n
        invariant
            i <= n == s@.len(),
            replace_pair(s@, a, b, rep@) == out@ + replace_pair(s@.subrange(i as int, n as int), a, b, rep@),
        decreases n - i,
    {
        let ghost rest = s@.subrange(i as int, n as int);
        let ghost before = out@;
        if i + 1 < n && s[i] == a && s[i + 1] == b {
            let mut j: usize = 0;
            while j < rep.len()
                invariant
                    j <= rep@.len(),
                    out@ == before + rep@.subrange(0, j as int),
                decreases rep@.len() - j,
            {
                out.push(rep[j]);
                j = j + 1;
            }
            proof {
                assert(rep@.subrange(0, rep@.len() as int) =~= rep@);
                assert(rest.subrange(2, rest.len() as int) =~= s@.subrange(i + 2, n as int));
                assert(before + (rep@ + replace_pair(s@.subrange(i + 2, n as int), a, b, rep@)) =~= out@
                    + replace_pair(s@.subrange(i + 2, n as int), a, b, rep@));
            }
            i = i + 2;
        } else {
            out.push(s[i]);
            proof {
                assert(rest.subrange(1, rest.len() as int) =~= s@.subrange(i + 1, n as int));
                assert(before + (seq![s@[i as int]] + replace_pair(s@.subrange(i + 1, n as int), a, b, rep@)) =~= out@
                    + replace_pair(s@.subrange(i + 1, n as int), a, b, rep@));
            }
            i = i + 1;
        }
    }
    proof {
        assert(s@.subrange(n as int, n as int) =~= Seq::<char>::empty());
        assert(out@ + Seq::<char>::empty() =~= out@);
    }
    out
}

/// The anchored regex that a glob denotes: the glob lower-cased and escaped, with `\*` made
/// `.*` and `\?` made `.`.
pub open spec fn glob_regex(pattern: Seq<char>) -> Seq<char> {
    let escaped = regex_escaped(ascii_lower(pattern));
    let stars = replace_pair(escaped, '\\', '*', seq!['.', '*']);
    seq!['^'] + replace_pair(stars, '\\', '?', seq!['.']) + seq!['$']
}

/// A precompiled case-insensitive glob rule (`*` and `?`).
#[derive(Debug)]
pub struct GlobRule {
    pattern: String,
    regex: Regex,
}

impl GlobRule {
    /// The anchored regex that the rule was compiled from.
    pub closed spec fn spec_pattern(&self) -> Seq<char> {
        self.pattern@
    }

    /// Compiles a glob; fails only where the regex engine refuses the pattern.
    pub fn new(pattern: &str) -> (r: Result<Self, regex::Error>)
        ensures
            r matches Ok(g) ==> g.spec_pattern() == glob_regex(pattern@),
    {
        let lowered = to_ascii_lowercase(pattern);
        let escaped = escape(lowered.as_str());
        let chars = chars_of(escaped.as_str());
        let star_rep: Vec<char> = vec!['.', '*'];
        let any_rep: Vec<char> = vec!['.'];
        let stars = replace_pair_exec(&chars, '\\', '*', &star_rep);
        let body = replace_pair_exec(&stars, '\\', '?', &any_rep);
        let mut full: Vec<char> = Vec::new();
        full.push('^');
        let mut i: usize = 0;
        while i < body.len()
            invariant
                i <= body@.len(),
                full@ == seq!['^'] + body@.subrange(0, i as int),
            decreases body@.len() - i,
        {
            full.push(body[i]);
            proof {
                assert(seq!['^'] + body@.subrange(0, i + 1) =~= full@);
            }
            i = i + 1;
        }
        full.push('$');
        proof {
            assert(body@.subrange(0, body@.len() as int) =~= body@);
            assert(star_rep@ == seq!['.', '*']);
            assert(any_rep@ == seq!['.']);
        }
        let anchored = string_from_chars(&full);
        match compile(anchored.as_str()) {
            Ok(regex) => Ok(GlobRule { pattern: anchored, regex }),
            Err(e) => Err(e),
        }
    }
}

/// A rule over lower-case paths.
#[derive(Debug)]
pub enum Rule {
    Matches(GlobRule),
    StartsWith(String),
    EndsWith(String),
    Contains(String),
    And(Box<Rule>, Box<Rule>),
    Not(Box<Rule>),
}

pub open spec fn has_prefix(s: Seq<char>, p: Seq<char>) -> bool {
    p.len() <= s.len() && s.subrange(0, p.len() as int) == p
}

pub open spec fn has_suffix(s: Seq<char>, p: Seq<char>) -> bool {
    p.len() <= s.len() && s.subrange(s.len() - p.len(), s.len() as int) == p
}

pub open spec fn has_infix(s: Seq<char>, p: Seq<char>) -> bool {
    exists|i: int| 0 <= i && i + p.len() <= s.len() && #[trigger] s.subrange(i, i + p.len()) == p
}

/// Whether `rule` holds of the lower-case `input`.
pub open spec fn rule_holds(rule: Rule, input: Seq<char>) -> bool
    decreases rule,
{
    match rule {
        Rule::Matches(g) => regex_matches(g.spec_pattern(), input),
        Rule::StartsWith(s) => has_prefix(input, s@),
        Rule::EndsWith(s) => has_suffix(input, s@),
        Rule::Contains(s) => has_infix(input, s@),
        Rule::And(l, r) => rule_holds(*l, input) && rule_holds(*r, input),
        Rule::Not(inner) => !rule_holds(*inner, input),
    }
}

/// Whether `p` occurs in `s` at `at`.
fn occurs_at(s: &Vec<char>, p: &Vec<char>, at: usize) -> (r: bool)
    requires
        at + p@.len() <= s@.len(),
    ensures
        r == (s@.subrange(at as int, at + p@.len()) == p@),
{
    let sl = s.len();
    let mut j: usize = 0;
    while j < p.len()
        invariant
            j <= p@.len(),
            at + p@.len() <= s@.len() == sl,
            forall|k: int| 0 <= k < j ==> s@[at + k] == p@[k],
        decreases p@.len() - j,
    {
        if s[at + j] != p[j] {
            assert(s@.subrange(at as int, at + p@.len())[j as int] != p@[j as int]);
            return false;
        }
        j = j + 1;
    }
    assert(s@.subrange(at as int, at + p@.len()) =~= p@);
    true
}

fn contains_chars(s: &Vec<char>, p: &Vec<char>) -> (r: bool)
    ensures
        r == has_infix(s@, p@),
{
    if p.len() > s.len() {
        return false;
    }
    let last = s.len() - p.len();
    let mut i: usize = 0;
    while i <= last
        invariant
            last + p@.len() == s@.len(),
            forall|k: int| 0 <= k < i ==> #[trigger] s@.subrange(k, k + p@.len()) != p@,
        decreases last + 1 - i,
    {
        if occurs_at(s, p, i) {
            return true;
        }
        if i == last {
            return false;
        }
        i = i + 1;
    }
    false
}

impl Rule {
    pub fn glob(pattern: &str) -> (r: Result<Self, regex::Error>)
        ensures
            r matches Ok(Rule::Matches(g)) ==> g.spec_pattern() == glob_regex(pattern@),
            r is Ok ==> r matches Ok(Rule::Matches(_)),
    {
        match GlobRule::new(pattern) {
            Ok(g) => Ok(Rule::Matches(g)),
            Err(e) => Err(e),
        }
    }

    pub fn starts_with(s: &str) -> (r: Self)
        ensures
            r matches Rule::StartsWith(p) && p@ == ascii_lower(s@),
    {
        Rule::StartsWith(to_ascii_lowercase(s))
    }

    pub fn ends_with(s: &str) -> (r: Self)
        ensures
            r matches Rule::EndsWith(p) && p@ == ascii_lower(s@),
    {
        Rule::EndsWith(to_ascii_lowercase(s))
    }

    pub fn contains(s: &str) -> (r: Self)
        ensures
            r matches Rule::Contains(p) && p@ == ascii_lower(s@),
    {
        Rule::Contains(to_ascii_lowercase(s))
    }

    pub fn and(self, other: Rule) -> (r: Self)
        ensures
            r == Rule::And(Box::new(self), Box::new(other)),
    {
        Rule::And(Box::new(self), Box::new(other))
    }

    pub fn not(self) -> (r: Self)
        ensures
            r == Rule::Not(Box::new(self)),
    {
        Rule::Not(Box::new(self))
    }

    /// Checks an input that is already lower-case.
    pub fn check_lowered(&self, input_lc: &str) -> (r: bool)
        ensures
            r == rule_holds(*self, input_lc@),
        decreases self,
    {
        match self {
            Rule::Matches(g) => glob_is_match(g, input_lc),
            Rule::StartsWith(s) => {
                let hay = chars_of(input_lc);
                let p = chars_of(s.as_str());
                p.len() <= hay.len() && occurs_at(&hay, &p, 0)
            },
            Rule::EndsWith(s) => {
                let hay = chars_of(input_lc);
                let p = chars_of(s.as_str());
                p.len() <= hay.len() && occurs_at(&hay, &p, hay.len() - p.len())
            },
            Rule::Contains(s) => {
                let hay = chars_of(input_lc);
                let p = chars_of(s.as_str());
                contains_chars(&hay, &p)
            },
            Rule::And(l, r) => l.check_lowered(input_lc) && r.check_lowered(input_lc),
            Rule::Not(inner) => !inner.check_lowered(input_lc),
        }
    }

    /// Checks an input of any case: it is lower-cased first.
    pub fn check(&self, input: &str) -> (r: bool)
        ensures
            r == rule_holds(*self, ascii_lower(input@)),
    {
        let lowered = to_ascii_lowercase(input);
        self.check_lowered(lowered.as_str())
    }
}

} // verus!

verus! {

/// A path fits the rules: it is not empty and some rule holds of its lower-case form.
pub open spec fn fits_rules_spec(rules: Seq<Rule>, path: Seq<char>) -> bool {
    path.len() > 0 && exists|i: int| 0 <= i < rules.len() && rule_holds(#[trigger] rules[i], ascii_lower(path))
}

/// Whether a full path fits any of the rules.
pub fn fits_rules(rules: &Vec<Rule>, full_path: &String) -> (r: bool)
    ensures
        r == fits_rules_spec(rules@, full_path@),
{
    let chars = chars_of(full_path.as_str());
    if chars.len() == 0 {
        return false;
    }
    let lowered = to_ascii_lowercase(full_path.as_str());
    let mut i: usize = 0;
    while i < rules.len()
        invariant
            i <= rules@.len(),
            full_path@.len() > 0,
            lowered@ == ascii_lower(full_path@),
            forall|k: int| 0 <= k < i ==> !rule_holds(#[trigger] rules@[k], ascii_lower(full_path@)),
        decreases rules@.len() - i,
    {
        if rules[i].check_lowered(lowered.as_str()) {
            return true;
        }
        i = i + 1;
    }
    false
}

/// The index of the last `c` in `s`, or -1.
pub open spec fn last_index_of(s: Seq<char>, c: char) -> int
    decreases s.len(),
{
    if s.len() == 0 {
        -1
    } else if s.last() == c {
        s.len() - 1
    } else {
        last_index_of(s.drop_last(), c)
    }
}

/// The extension of a file name: what follows its last `.`; none for a directory or a name
/// without a dot.
pub open spec fn extension_spec(name: Seq<char>, is_dir: bool) -> Option<Seq<char>> {
    if is_dir || last_index_of(name, '.') < 0 {
        None
    } else {
        Some(name.subrange(last_index_of(name, '.') + 1, name.len() as int))
    }
}

pub fn extension_of(name: &String, is_dir: bool) -> (r: Option<String>)
    ensures
        match r {
            Some(x) => extension_spec(name@, is_dir) == Some(x@),
            None => extension_spec(name@, is_dir) is None,
        },
{
    if is_dir {
        return None;
    }
    let chars = chars_of(name.as_str());
    let mut i: usize = chars.len();
    proof {
        assert(chars@.subrange(0, chars@.len() as int) =~= chars@);
    }
    while i > 0
        invariant
            i <= chars@.len(),
            chars@ == name@,
            !is_dir,
            last_index_of(chars@, '.') == last_index_of(chars@.subrange(0, i as int), '.'),
        decreases i,
    {
        proof {
            assert(chars@.subrange(0, i as int).drop_last() =~= chars@.subrange(0, i - 1));
        }
        if chars[i - 1] == '.' {
            proof {
                assert(chars@.subrange(0, i as int).last() == '.');
                assert(last_index_of(chars@, '.') == i - 1);
            }
            let mut tail: Vec<char> = Vec::new();
            let mut j: usize = i;
            while j < chars.len()
                invariant
                    i <= j <= chars@.len(),
                    i >= 1,
                    chars@ == name@,
                    !is_dir,
                    last_index_of(chars@, '.') == i - 1,
                    tail@ == chars@.subrange(i as int, j as int),
                decreases chars@.len() - j,
            {
                tail.push(chars[j]);
                proof {
                    assert(chars@.subrange(i as int, j + 1) =~= chars@.subrange(i as int, j as int).push(chars@[j as int]));
                }
                j = j + 1;
            }
            return Some(string_from_chars(&tail));
        }
        i = i - 1;
    }
    proof {
        assert(chars@.subrange(0, 0) =~= Seq::<char>::empty());
    }
    None
}

/// The drive prefix of a raw-volume source `\\.\X:`: `X:`; empty for any other source.
pub open spec fn drive_prefix_spec(s: Seq<char>) -> Seq<char> {
    if s.len() >= 6 && s[0] == '\\' && s[1] == '\\' && s[2] == '.' && s[3] == '\\' && s[5] == ':' {
        seq![s[4], s[5]]
    } else {
        Seq::empty()
    }
}

pub fn drive_prefix(source: &str) -> (r: String)
    ensures
        r@ == drive_prefix_spec(source@),
{
    let s = chars_of(source);
    let mut out: Vec<char> = Vec::new();
    if s.len() >= 6 && s[0] == '\\' && s[1] == '\\' && s[2] == '.' && s[3] == '\\' && s[5] == ':' {
        out.push(s[4]);
        out.push(s[5]);
        assert(out@ =~= seq![s@[4], s@[5]]);
    } else {
        assert(out@ =~= Seq::<char>::empty());
    }
    string_from_chars(&out)
}

/// The device that a source argument names: a two- or three-character argument beginning
/// with an ASCII letter (a drive such as `C:`) names the raw volume `\\.\` followed by its
/// first two characters; any other argument is a path, kept as it is.
pub open spec fn volume_path_spec(image: Seq<char>) -> Seq<char> {
    if (image.len() == 2 || image.len() == 3) && (('a' <= image[0] && image[0] <= 'z') || ('A' <= image[0]
        && image[0] <= 'Z')) {
        seq!['\\', '\\', '.', '\\', image[0], image[1]]
    } else {
        image
    }
}

pub fn volume_path(image: &str) -> (r: String)
    ensures
        r@ == volume_path_spec(image@),
{
    let s = chars_of(image);
    let n = s.len();
    if (n == 2 || n == 3) && (('a' <= s[0] && s[0] <= 'z') || ('A' <= s[0] && s[0] <= 'Z')) {
        let mut out: Vec<char> = Vec::new();
        out.push('\\');
        out.push('\\');
        out.push('.');
        out.push('\\');
        out.push(s[0]);
        out.push(s[1]);
        assert(out@ =~= seq!['\\', '\\', '.', '\\', s@[0], s@[1]]);
        string_from_chars(&out)
    } else {
        string_from_chars(&s)
    }
}

} // verus!

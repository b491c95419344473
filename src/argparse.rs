//! The option rules: implicit flags, flag letters for each engine, the
//! handshake that fzf's re-invocations carry, and the choice of action and
//! printer. Reading argv, the environment and the terminal happen outside.

use crate::errors::Die;
use aho_corasick::{AhoCorasick, AhoCorasickBuilder, BuildError};
use regex::{Regex, RegexBuilder};
use std::path::PathBuf;
use vstd::prelude::*;

verus! {

/// The handshake token under which the original argv travels to fzf's
/// re-invocations, in the environment. The three tokens are fixed UUIDs of
/// this source: they are meant to be unguessable per build, which a crate
/// without a build script cannot make.
pub const ARGV_TOKEN: &'static str = "0c9b6f1e-5d2a-4c8e-9f71-3a6e2d4b8c05";

/// The token that marks a preview re-invocation.
pub const PREVIEW_TOKEN: &'static str = "7e41d3a2-b96c-4f0e-8d25-c1a9e7f36b48";

/// The token that marks a patch re-invocation.
pub const PATCH_TOKEN: &'static str = "b2f8a5c7-13e9-4d6b-a074-5e9c2f81d3a6";

/// The separator of handshake fields.
pub open spec fn field_sep() -> char {
    '\x04'
}

/// How `str::split` on one character cuts a text.
pub open spec fn fields(s: Seq<char>, sep: char) -> Seq<Seq<char>>
    decreases s.len(),
{
    if s.len() == 0 {
        seq![Seq::empty()]
    } else {
        let f = fields(s.drop_last(), sep);
        if s.last() == sep {
            f.push(Seq::empty())
        } else {
            f.update(f.len() - 1, f.last().push(s.last()))
        }
    }
}

pub open spec fn strings_view(v: Seq<String>) -> Seq<Seq<char>> {
    v.map_values(|s: String| s@)
}

/// Appends a copy of `s`.
fn push_copy(v: &mut Vec<String>, s: &String)
    ensures
        strings_view(final(v)@) == strings_view(old(v)@).push(s@),
{
    let c = s.clone();
    let ghost before = v@;
    v.push(c);
    assert(v@ == before.push(c));
    assert(strings_view(v@) =~= strings_view(before).push(s@));
}

/// Relies on `str::split` with a `char` pattern: the pieces between the
/// separators, in order, empty ones included.
#[verifier::external_body]
fn split_fields(s: &str, sep: char) -> (r: Vec<String>)
    ensures
        strings_view(r@) == fields(s@, sep),
{
    s.split(sep).map(String::from).collect()
}

/// Relies on `str::chars`: the characters of `s`, each as a one-character
/// string.
#[verifier::external_body]
fn letters(s: &str) -> (r: Vec<String>)
    ensures
        r@.len() == s@.len(),
        forall|i: int| 0 <= i < r@.len() ==> (#[trigger] r@[i])@ == seq![s@[i]],
{
    s.chars().map(String::from).collect()
}

/// Relies on `str::chars`: the characters of `s`.
#[verifier::external_body]
fn char_vec(s: &str) -> (r: Vec<char>)
    ensures
        r@ == s@,
{
    s.chars().collect()
}

/// Whether a character has Unicode's Uppercase property.
pub uninterp spec fn is_upper(c: char) -> bool;

/// Relies on `char::is_uppercase`: Unicode's Uppercase property, which holds
/// of `A` to `Z` and not of `a` to `z`.
#[verifier::external_body]
fn is_uppercase(c: char) -> (r: bool)
    ensures
        r == is_upper(c),
        'A' <= c <= 'Z' ==> r,
        'a' <= c <= 'z' ==> !r,
{
    c.is_uppercase()
}

pub open spec fn has_upper(s: Seq<char>) -> bool {
    exists|i: int| 0 <= i < s.len() && is_upper(#[trigger] s[i])
}

/// The flags that hold before the user's own: `i`, then `m` unless the
/// pattern is literal, then `I` where the pattern has an uppercase letter.
pub open spec fn auto_flags(exact: bool, pattern: Seq<char>) -> Seq<Seq<char>> {
    seq!["i"@] + (if exact {
        Seq::empty()
    } else {
        seq!["m"@]
    }) + (if has_upper(pattern) {
        seq!["I"@]
    } else {
        Seq::empty()
    })
}

/// The implicit flags for a pattern.
pub fn p_auto_flags(exact: bool, pattern: &str) -> (r: Vec<String>)
    ensures
        strings_view(r@) == auto_flags(exact, pattern@),
        (exists|i: int| 0 <= i < pattern@.len() && 'A' <= #[trigger] pattern@[i] <= 'Z') ==> has_upper(
            pattern@,
        ),
{
    let mut flags: Vec<String> = Vec::new();
    flags.push("i".to_owned());
    if !exact {
        flags.push("m".to_owned());
    }
    let cs = char_vec(pattern);
    let mut i: usize = 0;
    let mut upper = false;
    while i < cs.len() && !upper
        invariant
            0 <= i <= cs@.len(),
            cs@ == pattern@,
            upper ==> has_upper(pattern@),
            !upper ==> forall|j: int| 0 <= j < i ==> !is_upper(#[trigger] cs@[j]) && !('A' <= cs@[j] <= 'Z'),
        decreases cs@.len() - i,
    {
        if is_uppercase(cs[i]) {
            assert(is_upper(pattern@[i as int]));
            upper = true;
        }
        i = i + 1;
    }
    if upper {
        flags.push("I".to_owned());
    }
    assert(strings_view(flags@) =~= auto_flags(exact, pattern@));
    flags
}

/// The settings of a regex builder that the flag letters choose.
#[derive(Clone, Copy, Debug, PartialEq, Eq, Structural)]
pub struct RegexFlags {
    pub case_insensitive: bool,
    pub multi_line: bool,
    pub dot_matches_new_line: bool,
    pub swap_greed: bool,
    pub ignore_whitespace: bool,
}

/// One flag letter applied to regex settings: lowercase turns a setting on,
/// uppercase off; any other flag is refused.
pub open spec fn regex_letter(f: RegexFlags, flag: Seq<char>) -> Option<RegexFlags> {
    if flag == seq!['i'] {
        Some(RegexFlags { case_insensitive: true, ..f })
    } else if flag == seq!['I'] {
        Some(RegexFlags { case_insensitive: false, ..f })
    } else if flag == seq!['m'] {
        Some(RegexFlags { multi_line: true, ..f })
    } else if flag == seq!['M'] {
        Some(RegexFlags { multi_line: false, ..f })
    } else if flag == seq!['s'] {
        Some(RegexFlags { dot_matches_new_line: true, ..f })
    } else if flag == seq!['S'] {
        Some(RegexFlags { dot_matches_new_line: false, ..f })
    } else if flag == seq!['u'] {
        Some(RegexFlags { swap_greed: true, ..f })
    } else if flag == seq!['U'] {
        Some(RegexFlags { swap_greed: false, ..f })
    } else if flag == seq!['x'] {
        Some(RegexFlags { ignore_whitespace: true, ..f })
    } else if flag == seq!['X'] {
        Some(RegexFlags { ignore_whitespace: false, ..f })
    } else {
        None
    }
}

pub open spec fn regex_defaults() -> RegexFlags {
    RegexFlags {
        case_insensitive: false,
        multi_line: false,
        dot_matches_new_line: false,
        swap_greed: false,
        ignore_whitespace: false,
    }
}

/// The settings after the first `k` flags, from the builder's defaults; `None`
/// once a flag was refused.
pub open spec fn regex_settings(flags: Seq<Seq<char>>, k: int) -> Option<RegexFlags>
    decreases k,
{
    if k <= 0 {
        Some(regex_defaults())
    } else {
        match regex_settings(flags, k - 1) {
            None => None,
            Some(f) => regex_letter(f, flags[k - 1]),
        }
    }
}

/// Literal patterns take `i` and `I` alone: whether the match ignores ASCII
/// case after the first `k` flags, `None` once a flag was refused.
pub open spec fn literal_settings(flags: Seq<Seq<char>>, k: int) -> Option<bool>
    decreases k,
{
    if k <= 0 {
        Some(false)
    } else {
        match literal_settings(flags, k - 1) {
            None => None,
            Some(ci) => if flags[k - 1] == seq!['i'] {
                Some(true)
            } else if flags[k - 1] == seq!['I'] {
                Some(false)
            } else {
                None
            },
        }
    }
}

/// The message for a refused flag.
pub open spec fn bad_flag_message(flag: Seq<char>) -> Seq<char> {
    "Invalid regex flag, see `--help` :: "@ + flag
}

fn bad_flag(flag: &String) -> (r: Die)
    ensures
        r matches Die::ArgumentError(m) && m@ == bad_flag_message(flag@),
{
    let mut m = "Invalid regex flag, see `--help` :: ".to_owned();
    m.append(flag.as_str());
    Die::ArgumentError(m)
}

/// The single character of a one-character flag.
fn letter_of(flag: &String) -> (r: Option<char>)
    ensures
        flag@.len() == 1 ==> r == Some(flag@[0]),
        flag@.len() != 1 ==> r.is_none(),
{
    let s = flag.as_str();
    if s.unicode_len() == 1 {
        Some(s.get_char(0))
    } else {
        None
    }
}

/// Applies the flag letters to the regex settings, in order; the first
/// refused flag is the error.
pub fn regex_flags(flags: &Vec<String>) -> (r: Result<RegexFlags, Die>)
    ensures
        regex_settings(strings_view(flags@), flags@.len() as int) matches Some(f) ==> r == Ok::<
            RegexFlags,
            Die,
        >(f),
        regex_settings(strings_view(flags@), flags@.len() as int) is None ==> exists|k: int|
            0 <= k < flags@.len() && #[trigger] regex_settings(strings_view(flags@), k) is Some
                && regex_settings(strings_view(flags@), k + 1) is None && (r matches Err(
                Die::ArgumentError(m),
            ) && m@ == bad_flag_message(flags@[k]@)),
{
    let ghost fs = strings_view(flags@);
    let mut f = RegexFlags {
        case_insensitive: false,
        multi_line: false,
        dot_matches_new_line: false,
        swap_greed: false,
        ignore_whitespace: false,
    };
    let mut k: usize = 0;
    while k < flags.len()
        invariant
            0 <= k <= flags@.len(),
            fs == strings_view(flags@),
            regex_settings(fs, k as int) == Some(f),
        decreases flags@.len() - k,
    {
        let flag = &flags[k];
        assert(fs[k as int] == flag@);
        let next = match letter_of(flag) {
            Some('i') => Some(RegexFlags { case_insensitive: true, ..f }),
            Some('I') => Some(RegexFlags { case_insensitive: false, ..f }),
            Some('m') => Some(RegexFlags { multi_line: true, ..f }),
            Some('M') => Some(RegexFlags { multi_line: false, ..f }),
            Some('s') => Some(RegexFlags { dot_matches_new_line: true, ..f }),
            Some('S') => Some(RegexFlags { dot_matches_new_line: false, ..f }),
            Some('u') => Some(RegexFlags { swap_greed: true, ..f }),
            Some('U') => Some(RegexFlags { swap_greed: false, ..f }),
            Some('x') => Some(RegexFlags { ignore_whitespace: true, ..f }),
            Some('X') => Some(RegexFlags { ignore_whitespace: false, ..f }),
            _ => None,
        };
        proof {
            if flag@.len() == 1 {
                assert(flag@ =~= seq![flag@[0]]);
            }
        }
        assert(next == regex_letter(f, flag@));
        match next {
            Some(g) => {
                f = g;
            },
            None => {
                proof {
                    lemma_settings_stay_refused(fs, k as int + 1, fs.len() as int);
                }
                return Err(bad_flag(flag));
            },
        }
        k = k + 1;
    }
    Ok(f)
}

/// Once a flag is refused, no later flag brings the settings back.
proof fn lemma_settings_stay_refused(fs: Seq<Seq<char>>, k: int, n: int)
    requires
        0 <= k <= n,
        regex_settings(fs, k) is None,
    ensures
        regex_settings(fs, n) is None,
    decreases n - k,
{
    if k < n {
        lemma_settings_stay_refused(fs, k + 1, n);
    }
}

proof fn lemma_literal_stays_refused(fs: Seq<Seq<char>>, k: int, n: int)
    requires
        0 <= k <= n,
        literal_settings(fs, k) is None,
    ensures
        literal_settings(fs, n) is None,
    decreases n - k,
{
    if k < n {
        lemma_literal_stays_refused(fs, k + 1, n);
    }
}

/// Applies the flag letters of a literal pattern, in order: whether it
/// ignores ASCII case; the first refused flag is the error.
pub fn literal_flags(flags: &Vec<String>) -> (r: Result<bool, Die>)
    ensures
        literal_settings(strings_view(flags@), flags@.len() as int) matches Some(ci) ==> r == Ok::<
            bool,
            Die,
        >(ci),
        literal_settings(strings_view(flags@), flags@.len() as int) is None ==> exists|k: int|
            0 <= k < flags@.len() && #[trigger] literal_settings(strings_view(flags@), k) is Some
                && literal_settings(strings_view(flags@), k + 1) is None && (r matches Err(
                Die::ArgumentError(m),
            ) && m@ == bad_flag_message(flags@[k]@)),
{
    let ghost fs = strings_view(flags@);
    let mut ci = false;
    let mut k: usize = 0;
    while k < flags.len()
        invariant
            0 <= k <= flags@.len(),
            fs == strings_view(flags@),
            literal_settings(fs, k as int) == Some(ci),
        decreases flags@.len() - k,
    {
        let flag = &flags[k];
        assert(fs[k as int] == flag@);
        proof {
            if flag@.len() == 1 {
                assert(flag@ =~= seq![flag@[0]]);
            }
        }
        match letter_of(flag) {
            Some('i') => {
                ci = true;
            },
            Some('I') => {
                ci = false;
            },
            _ => {
                proof {
                    lemma_literal_stays_refused(fs, k as int + 1, fs.len() as int);
                }
                return Err(bad_flag(flag));
            },
        }
        k = k + 1;
    }
    Ok(ci)
}

/// A compiled regex, with the pattern and settings that it was built from.
/// Only `build_regex` makes one, so the three always agree.
#[derive(Debug)]
pub struct RegexPattern {
    re: Regex,
    pattern: String,
    flags: RegexFlags,
}

impl RegexPattern {
    pub closed spec fn pattern_view(&self) -> Seq<char> {
        self.pattern@
    }

    pub closed spec fn flags_view(&self) -> RegexFlags {
        self.flags
    }
}

/// A literal matcher for one needle, with the needle and case setting that it
/// was built from. Only `build_literal` makes one, so it always holds exactly
/// one pattern and searches unanchored.
#[derive(Debug)]
pub struct Literal {
    matcher: AhoCorasick,
    needle: String,
    case_insensitive: bool,
}

impl Literal {
    pub closed spec fn needle_view(&self) -> Seq<char> {
        self.needle@
    }

    pub closed spec fn ignores_case(&self) -> bool {
        self.case_insensitive
    }
}

/// Whether regex compiles `pattern` under the five settings.
pub uninterp spec fn regex_compiles(
    pattern: Seq<char>,
    case_insensitive: bool,
    multi_line: bool,
    dot_matches_new_line: bool,
    swap_greed: bool,
    ignore_whitespace: bool,
) -> bool;

/// What regex's `replace_all` makes of `text`, for the regex compiled from
/// `pattern` under the five settings and the replacement `with`.
pub uninterp spec fn regex_replaced(
    pattern: Seq<char>,
    case_insensitive: bool,
    multi_line: bool,
    dot_matches_new_line: bool,
    swap_greed: bool,
    ignore_whitespace: bool,
    with: Seq<char>,
    text: Seq<char>,
) -> Seq<char>;

/// Whether aho-corasick builds a matcher for the one needle.
pub uninterp spec fn literal_builds(needle: Seq<char>, case_insensitive: bool) -> bool;

/// What aho-corasick's `replace_all` makes of `text`, for a matcher of the one
/// needle (default builder, ASCII case ignored where asked) and the
/// replacement `with`.
pub uninterp spec fn literal_replaced(needle: Seq<char>, case_insensitive: bool, with: Seq<char>, text: Seq<char>) -> Seq<char>;

pub open spec fn compiles_with(pattern: Seq<char>, f: RegexFlags) -> bool {
    regex_compiles(
        pattern,
        f.case_insensitive,
        f.multi_line,
        f.dot_matches_new_line,
        f.swap_greed,
        f.ignore_whitespace,
    )
}

/// Relies on regex's `RegexBuilder`: compiles `pattern` with the five
/// settings, which depends on those values alone; a pattern that does not
/// compile gives regex's error.
#[verifier::external_body]
fn build_regex(pattern: &str, f: RegexFlags) -> (r: Result<RegexPattern, regex::Error>)
    ensures
        r is Ok <==> regex_compiles(
            pattern@,
            f.case_insensitive,
            f.multi_line,
            f.dot_matches_new_line,
            f.swap_greed,
            f.ignore_whitespace,
        ),
        r matches Ok(p) ==> p.pattern@ == pattern@ && p.flags == f,
{
    RegexBuilder::new(pattern).case_insensitive(f.case_insensitive).multi_line(
        f.multi_line,
    ).dot_matches_new_line(f.dot_matches_new_line).swap_greed(f.swap_greed).ignore_whitespace(
        f.ignore_whitespace,
    ).build().map(|re| RegexPattern { re, pattern: pattern.to_owned(), flags: f })
}

/// Relies on aho-corasick's `AhoCorasickBuilder`: a matcher for the one
/// needle `pattern`, ignoring ASCII case where asked; whether it builds
/// depends on those values alone.
#[verifier::external_body]
fn build_literal(pattern: &str, case_insensitive: bool) -> (r: Result<Literal, BuildError>)
    ensures
        r is Ok <==> literal_builds(pattern@, case_insensitive),
        r matches Ok(l) ==> l.needle@ == pattern@ && l.case_insensitive == case_insensitive,
{
    AhoCorasickBuilder::new().ascii_case_insensitive(case_insensitive).build([pattern]).map(
        |matcher| Literal { matcher, needle: pattern.to_owned(), case_insensitive },
    )
}

/// Relies on aho-corasick's `AhoCorasick::replace_all`: every match of the
/// needle replaced by `with`. The matcher holds one pattern and searches
/// unanchored (see `Literal`), the two cases in which `replace_all` would
/// panic are excluded, and the result depends on the needle, the case
/// setting, `with` and `text` alone.
#[verifier::external_body]
fn literal_replace_all(l: &Literal, text: &str, with: &str) -> (r: String)
    ensures
        r@ == literal_replaced(l.needle@, l.case_insensitive, with@, text@),
{
    l.matcher.replace_all(text, &[with])
}

/// Relies on regex's `Regex::replace_all`: every match replaced by `with`,
/// with `$name` group references expanded; the result depends on the
/// pattern, its settings, `with` and `text` alone.
#[verifier::external_body]
fn regex_replace_all(p: &RegexPattern, text: &str, with: &str) -> (r: String)
    ensures
        r@ == regex_replaced(
            p.pattern@,
            p.flags.case_insensitive,
            p.flags.multi_line,
            p.flags.dot_matches_new_line,
            p.flags.swap_greed,
            p.flags.ignore_whitespace,
            with@,
            text@,
        ),
{
    p.re.replace_all(text, with).into_owned()
}

/// A literal matcher for `pattern` under the flag letters: the first refused
/// flag is an argument error; a needle that aho-corasick cannot build for is
/// its error; otherwise the matcher of the needle with the case setting that
/// the flags chose.
pub fn p_aho_corasick(pattern: &str, flags: Vec<String>) -> (r: Result<Literal, Die>)
    ensures
        literal_settings(strings_view(flags@), flags@.len() as int) is None ==> (r matches Err(
            Die::ArgumentError(_),
        )),
        literal_settings(strings_view(flags@), flags@.len() as int) matches Some(ci) ==> {
            &&& r is Ok <==> literal_builds(pattern@, ci)
            &&& r is Err ==> (r matches Err(Die::BuildError(_)))
            &&& r matches Ok(l) ==> l.needle_view() == pattern@ && l.ignores_case() == ci
        },
{
    let ci = match literal_flags(&flags) {
        Ok(ci) => ci,
        Err(e) => return Err(e),
    };
    match build_literal(pattern, ci) {
        Ok(l) => Ok(l),
        Err(e) => Err(Die::BuildError(e)),
    }
}

/// A regex for `pattern` under the flag letters: the first refused flag is
/// an argument error; a pattern that does not compile is regex's error;
/// otherwise the regex of the pattern with the settings that the flags chose.
pub fn p_regex(pattern: &str, flags: Vec<String>) -> (r: Result<RegexPattern, Die>)
    ensures
        regex_settings(strings_view(flags@), flags@.len() as int) is None ==> (r matches Err(
            Die::ArgumentError(_),
        )),
        regex_settings(strings_view(flags@), flags@.len() as int) matches Some(f) ==> {
            &&& r is Ok <==> compiles_with(pattern@, f)
            &&& r is Err ==> (r matches Err(Die::RegexError(_)))
            &&& r matches Ok(p) ==> p.pattern_view() == pattern@ && p.flags_view() == f
        },
{
    let f = match regex_flags(&flags) {
        Ok(f) => f,
        Err(e) => return Err(e),
    };
    match build_regex(pattern, f) {
        Ok(p) => Ok(p),
        Err(e) => Err(Die::RegexError(e)),
    }
}

/// Which invocation this is: the user's own, or one of fzf's re-invocations
/// with the file of selected hunk references.
#[derive(Debug)]
pub enum Mode {
    Initial,
    Preview(String),
    Patch(String),
}

/// Reads the handshake payload `{token}\x04{path}`: a preview or a patch
/// re-invocation, or `None` for anything else.
pub fn parse_fzf_mode(argv: &str) -> (r: Option<Mode>)
    ensures
        ({
            let f = fields(argv@, field_sep());
            if f.len() == 2 && f[0] == PREVIEW_TOKEN@ {
                r matches Some(Mode::Preview(p)) && p@ == f[1]
            } else if f.len() == 2 && f[0] == PATCH_TOKEN@ {
                r matches Some(Mode::Patch(p)) && p@ == f[1]
            } else {
                r is None
            }
        }),
{
    let fs = split_fields(argv, '\x04');
    if fs.len() != 2 {
        return None;
    }
    assert(fs@[0]@ == strings_view(fs@)[0]);
    assert(fs@[1]@ == strings_view(fs@)[1]);
    let preview = PREVIEW_TOKEN.to_owned();
    let patch = PATCH_TOKEN.to_owned();
    if fs[0] == preview {
        Some(Mode::Preview(fs[1].clone()))
    } else if fs[0] == patch {
        Some(Mode::Patch(fs[1].clone()))
    } else {
        None
    }
}

/// The parts joined with the handshake separator.
pub open spec fn joined(parts: Seq<Seq<char>>) -> Seq<char>
    decreases parts.len(),
{
    if parts.len() == 0 {
        Seq::empty()
    } else if parts.len() == 1 {
        parts[0]
    } else {
        joined(parts.drop_last()) + seq![field_sep()] + parts.last()
    }
}

/// Joins the parts with the handshake separator, as fzf's re-invocations
/// expect the original argv.
pub fn join_fields(parts: &Vec<String>) -> (r: String)
    ensures
        r@ == joined(strings_view(parts@)),
{
    let ghost ps = strings_view(parts@);
    let mut out = String::new();
    let mut k: usize = 0;
    proof {
        reveal_strlit("\x04");
    }
    while k < parts.len()
        invariant
            0 <= k <= parts@.len(),
            ps == strings_view(parts@),
            out@ == joined(ps.subrange(0, k as int)),
        decreases parts@.len() - k,
    {
        let ghost prev = out@;
        if k > 0 {
            out.append("\x04");
        }
        out.append(parts[k].as_str());
        assert(ps.subrange(0, k + 1).drop_last() =~= ps.subrange(0, k as int));
        assert(ps[k as int] == parts@[k as int]@);
        assert(ps.subrange(0, k + 1).last() == ps[k as int]);
        proof {
            reveal_strlit("\x04");
        }
        assert("\x04"@ =~= seq![field_sep()]);
        if k == 0 {
            assert(prev =~= Seq::<char>::empty());
            assert(ps.subrange(0, 1)[0] == ps[0]);
        }
        k = k + 1;
        assert(out@ =~= joined(ps.subrange(0, k as int)));
    }
    assert(ps.subrange(0, k as int) =~= ps);
    out
}

/// Whether a handshake payload names a preview or patch re-invocation.
pub open spec fn is_payload(p: Seq<char>) -> bool {
    let f = fields(p, field_sep());
    f.len() == 2 && (f[0] == PREVIEW_TOKEN@ || f[0] == PATCH_TOKEN@)
}

/// The handshake of a re-invocation: `argv[1]` is `-c`, `argv[2]` a preview or
/// patch payload, and the original argv travels in the environment under
/// `ARGV_TOKEN`, joined with the separator. Without `-c` there is no
/// handshake (`None`); `-c` without a valid payload and argv is an argument
/// error.
pub fn handshake(arg1: Option<String>, arg2: Option<String>, replay: Option<String>) -> (r: Result<Option<(Mode, Vec<String>)>, Die>)
    ensures
        !(arg1 matches Some(a) && a@ == "-c"@) ==> r matches Ok(None),
        (arg1 matches Some(a) && a@ == "-c"@) ==> {
            &&& (arg2 matches Some(p) && is_payload(p@)) && replay is Some <==> (r matches Ok(Some(_)))
            &&& r is Err ==> (r matches Err(Die::ArgumentError(_)))
            &&& !(r is Err) ==> (r matches Ok(Some(_)))
        },
        r matches Ok(Some((_, args))) ==> replay matches Some(v) && strings_view(args@) == fields(
            v@,
            field_sep(),
        ),
{
    let flag = match arg1 {
        Some(a) => a,
        None => return Ok(None),
    };
    let dash_c = "-c".to_owned();
    if !(flag == dash_c) {
        return Ok(None);
    }
    let refused = Die::ArgumentError("-c needs a handshake payload".to_owned());
    let payload = match arg2 {
        Some(p) => p,
        None => return Err(refused),
    };
    let mode = match parse_fzf_mode(payload.as_str()) {
        Some(m) => m,
        None => return Err(refused),
    };
    match replay {
        Some(v) => Ok(Some((mode, split_fields(v.as_str(), '\x04')))),
        None => Err(refused),
    }
}

/// The replacement engine: a literal needle or a regex, with the
/// replacement text.
#[derive(Debug)]
pub enum Engine {
    AhoCorasick(Literal, String),
    Regex(RegexPattern, String),
}

/// What the engine makes of a text.
pub open spec fn engine_replaced(e: Engine, text: Seq<char>) -> Seq<char> {
    match e {
        Engine::AhoCorasick(l, with) => literal_replaced(l.needle_view(), l.ignores_case(), with@, text),
        Engine::Regex(p, with) => regex_replaced(
            p.pattern_view(),
            p.flags_view().case_insensitive,
            p.flags_view().multi_line,
            p.flags_view().dot_matches_new_line,
            p.flags_view().swap_greed,
            p.flags_view().ignore_whitespace,
            with@,
            text,
        ),
    }
}

impl Engine {
    /// The text with every match replaced.
    pub fn replace(&self, before: &str) -> (r: String)
        ensures
            r@ == engine_replaced(*self, before@),
    {
        match self {
            Engine::AhoCorasick(l, with) => literal_replace_all(l, before, with.as_str()),
            Engine::Regex(p, with) => regex_replace_all(p, before, with.as_str()),
        }
    }
}

/// What to do with each changed file.
#[derive(Debug)]
pub enum Action {
    Preview,
    Commit,
    FzfPreview(PathBuf, Vec<String>),
}

/// A program to run, with its arguments and extra environment.
#[derive(Debug)]
pub struct SubprocCommand {
    pub prog: PathBuf,
    pub args: Vec<String>,
    pub env: Vec<(String, String)>,
}

/// Where the output goes.
#[derive(Debug)]
pub enum Printer {
    Stdout,
    Pager(SubprocCommand),
}

/// The configuration of a run, fixed at startup.
#[derive(Debug)]
pub struct Options {
    pub cwd: Option<PathBuf>,
    pub action: Action,
    pub engine: Engine,
    pub printer: Printer,
    pub unified: usize,
}

/// The command-line arguments.
#[derive(Debug)]
pub struct Arguments {
    pub pattern: String,
    pub replace: Option<String>,
    pub read0: bool,
    pub commit: bool,
    pub exact: bool,
    pub flags: Option<String>,
    pub pager: Option<String>,
    pub fzf: Option<String>,
    pub unified: Option<usize>,
}

/// What the options take from outside the arguments: the working directory,
/// `$GIT_PAGER`, and whether stdout and stderr are both terminals.
pub struct Environment {
    pub cwd: Option<PathBuf>,
    pub git_pager: Option<String>,
    pub ttys: bool,
}

/// The words that shell quoting makes of a text, or `None` where the quoting
/// is malformed.
pub uninterp spec fn shell_words(s: Seq<char>) -> Option<Seq<Seq<char>>>;

/// Relies on `shlex::split`: the words of `s` under POSIX shell quoting, or
/// `None` when the quoting is malformed.
#[verifier::external_body]
fn shell_split(s: &str) -> (r: Option<Vec<String>>)
    ensures
        r is None <==> shell_words(s@) is None,
        r matches Some(ws) ==> shell_words(s@) == Some(strings_view(ws@)),
{
    shlex::split(s)
}

/// Relies on `which::which`: the program of that name on `PATH`, if any.
/// What it finds depends on the disk, so nothing is stated of it.
#[verifier::external_body]
fn find_program(name: &str) -> (r: Option<PathBuf>) {
    which::which(name).ok()
}

pub open spec fn is_never(v: Option<String>) -> bool {
    v matches Some(s) && s@ == "never"@
}

fn never(v: &Option<String>) -> (r: bool)
    ensures
        r == is_never(*v),
{
    match v {
        Some(s) => *s == "never".to_owned(),
        None => false,
    }
}

/// The extra fzf arguments that a user's `--fzf` text asks for.
pub open spec fn fzf_extra(fzf: Option<String>) -> Seq<Seq<char>> {
    match fzf {
        Some(v) => match shell_words(v@) {
            Some(ws) => ws,
            None => Seq::empty(),
        },
        None => Seq::empty(),
    }
}

/// fzf, where it is on `PATH`, both stdout and stderr are terminals and the
/// user did not say `never`; with the user's extra arguments.
pub fn p_fzf(fzf: &Option<String>, ttys: bool) -> (r: Option<(PathBuf, Vec<String>)>)
    ensures
        !ttys || is_never(*fzf) ==> r is None,
        r matches Some((_, a)) ==> strings_view(a@) == fzf_extra(*fzf),
{
    if !ttys {
        return None;
    }
    let bin = match find_program("fzf") {
        Some(p) => p,
        None => return None,
    };
    if never(fzf) {
        return None;
    }
    match fzf {
        Some(v) => match shell_split(v.as_str()) {
            Some(ws) => Some((bin, ws)),
            None => {
                let empty: Vec<String> = Vec::new();
                assert(strings_view(empty@) =~= Seq::<Seq<char>>::empty());
                Some((bin, empty))
            },
        },
        None => {
            let empty: Vec<String> = Vec::new();
            assert(strings_view(empty@) =~= Seq::<Seq<char>>::empty());
            Some((bin, empty))
        },
    }
}

/// A text cut into shell words, or kept whole where the quoting is malformed.
pub open spec fn words_or_whole(s: Seq<char>) -> Seq<Seq<char>> {
    match shell_words(s) {
        Some(ws) => ws,
        None => seq![s],
    }
}

/// Every word but the first (the program).
pub open spec fn tail_words(ws: Seq<Seq<char>>) -> Seq<Seq<char>> {
    if ws.len() > 0 {
        ws.drop_first()
    } else {
        Seq::empty()
    }
}

/// What `str::trim` leaves of a text.
pub uninterp spec fn trimmed(s: Seq<char>) -> Seq<char>;

/// Relies on `str::trim`: `s` without its leading and trailing whitespace.
#[verifier::external_body]
fn trim(s: &str) -> (r: String)
    ensures
        r@ == trimmed(s@),
{
    s.trim().to_owned()
}

/// The programs looked up for a pager, in order: the first word of its text
/// (if any), then `delta`, then `diff-so-fancy`.
pub open spec fn pager_candidates(ws: Seq<Seq<char>>) -> Seq<Seq<char>> {
    (if ws.len() > 0 {
        seq![ws[0]]
    } else {
        Seq::empty()
    }) + seq!["delta"@, "diff-so-fancy"@]
}

/// The names to look up for a pager whose text has the words `words`.
pub fn pager_lookups(words: &Vec<String>) -> (r: Vec<String>)
    ensures
        strings_view(r@) == pager_candidates(strings_view(words@)),
{
    let mut names: Vec<String> = Vec::new();
    if words.len() > 0 {
        push_copy(&mut names, &words[0]);
        assert(strings_view(words@)[0] == words@[0]@);
    }
    let ghost head = strings_view(names@);
    names.push("delta".to_owned());
    names.push("diff-so-fancy".to_owned());
    assert(strings_view(names@) =~= head + seq!["delta"@, "diff-so-fancy"@]);
    names
}

/// The first lookup that found a program.
pub open spec fn first_found(found: Seq<Option<PathBuf>>) -> Option<PathBuf>
    decreases found.len(),
{
    if found.len() == 0 {
        None
    } else if found[0] is Some {
        found[0]
    } else {
        first_found(found.drop_first())
    }
}

/// A pager command chosen from the lookup results: the first program found,
/// with every word but the first as arguments.
pub open spec fn pager_chosen(r: Option<SubprocCommand>, ws: Seq<Seq<char>>, found: Seq<Option<PathBuf>>) -> bool {
    &&& r is Some <==> first_found(found) is Some
    &&& r matches Some(cmd) ==> Some(cmd.prog) == first_found(found) && strings_view(cmd.args@)
        == tail_words(ws) && cmd.env@.len() == 0
}

/// The pager command for the words of its text and the results of looking
/// up `pager_lookups(words)` in order.
pub fn choose_pager(words: &Vec<String>, found: Vec<Option<PathBuf>>) -> (r: Option<SubprocCommand>)
    ensures
        pager_chosen(r, strings_view(words@), found@),
{
    let ghost fs = found@;
    let mut rest = found;
    let mut prog: Option<PathBuf> = None;
    while prog.is_none() && rest.len() > 0
        invariant
            prog is None ==> first_found(rest@) == first_found(fs),
            prog is Some ==> prog == first_found(fs),
        decreases rest@.len(),
    {
        let ghost before = rest@;
        let x = rest.remove(0);
        assert(rest@ =~= before.drop_first());
        prog = x;
    }
    let args = tail_args(words);
    let env: Vec<(String, String)> = Vec::new();
    match prog {
        Some(prog) => Some(SubprocCommand { prog, args, env }),
        None => None,
    }
}

/// Every word but the first.
fn tail_args(words: &Vec<String>) -> (r: Vec<String>)
    ensures
        strings_view(r@) == tail_words(strings_view(words@)),
{
    let ghost ws = strings_view(words@);
    let mut args: Vec<String> = Vec::new();
    let mut i: usize = 1;
    while i < words.len()
        invariant
            1 <= i,
            ws == strings_view(words@),
            words@.len() > 0 ==> i <= words@.len() && strings_view(args@) == ws.subrange(1, i as int),
            words@.len() == 0 ==> args@.len() == 0,
        decreases words@.len() - i,
    {
        push_copy(&mut args, &words[i]);
        assert(ws[i as int] == words@[i as int]@);
        i = i + 1;
        assert(strings_view(args@) =~= ws.subrange(1, i as int));
    }
    proof {
        if words@.len() > 0 {
            assert(ws.subrange(1, ws.len() as int) =~= ws.drop_first());
            if i == 1 {
                assert(strings_view(args@) =~= ws.drop_first());
            }
        } else {
            assert(strings_view(args@) =~= Seq::<Seq<char>>::empty());
        }
    }
    args
}

/// The words of a pager text: shell words, or the text whole where its
/// quoting is malformed.
fn pager_words(text: &str) -> (r: Vec<String>)
    ensures
        strings_view(r@) == words_or_whole(text@),
{
    match shell_split(text) {
        Some(ws) => ws,
        None => {
            let mut whole: Vec<String> = Vec::new();
            whole.push(text.to_owned());
            assert(strings_view(whole@) =~= seq![text@]);
            whole
        },
    }
}

/// The pager command that a text names: the names of `pager_lookups` are
/// looked up on `PATH` in order until one is found, and `choose_pager` takes
/// the results.
fn pager_command(text: &str) -> (r: Option<SubprocCommand>)
    ensures
        exists|found: Seq<Option<PathBuf>>|
            found.len() <= pager_candidates(words_or_whole(text@)).len() && #[trigger] pager_chosen(
                r,
                words_or_whole(text@),
                found,
            ),
{
    let words = pager_words(text);
    let names = pager_lookups(&words);
    let mut found: Vec<Option<PathBuf>> = Vec::new();
    let mut i: usize = 0;
    let mut hit = false;
    while i < names.len() && !hit
        invariant
            i <= names@.len(),
            found@.len() == i,
        decreases names@.len() - i,
    {
        let x = find_program(names[i].as_str());
        hit = x.is_some();
        found.push(x);
        i = i + 1;
    }
    let ghost fs = found@;
    let r = choose_pager(&words, found);
    assert(pager_chosen(r, words_or_whole(text@), fs));
    r
}

/// The text that names the pager: the user's `--pager`, else the first
/// `|`-separated part of `$GIT_PAGER`, trimmed.
pub open spec fn pager_text(pager: Option<String>, git_pager: Option<String>) -> Seq<char> {
    match pager {
        Some(v) => v@,
        None => trimmed(
            fields(
                match git_pager {
                    Some(g) => g@,
                    None => Seq::empty(),
                },
                '|',
            )[0],
        ),
    }
}

/// The pager: none where the user said `never`; else the choice of
/// `choose_pager` for the words of `pager_text` and the lookups of
/// `pager_lookups`, made in order until one finds a program.
pub fn p_pager(pager: &Option<String>, git_pager: &Option<String>) -> (r: Option<SubprocCommand>)
    ensures
        is_never(*pager) ==> r is None,
        !is_never(*pager) ==> exists|found: Seq<Option<PathBuf>>|
            found.len() <= pager_candidates(words_or_whole(pager_text(*pager, *git_pager))).len()
                && #[trigger] pager_chosen(r, words_or_whole(pager_text(*pager, *git_pager)), found),
{
    if never(pager) {
        return None;
    }
    let text = match pager {
        Some(v) => v.clone(),
        None => {
            let val = match git_pager {
                Some(g) => g.clone(),
                None => String::new(),
            };
            let parts = split_fields(val.as_str(), '|');
            proof {
                lemma_fields_nonempty(val@, '|');
            }
            assert(parts@[0]@ == strings_view(parts@)[0]);
            trim(parts[0].as_str())
        },
    };
    assert(text@ == pager_text(*pager, *git_pager));
    pager_command(text.as_str())
}

/// Splitting always gives at least one field.
proof fn lemma_fields_nonempty(s: Seq<char>, sep: char)
    ensures
        fields(s, sep).len() >= 1,
    decreases s.len(),
{
    if s.len() > 0 {
        lemma_fields_nonempty(s.drop_last(), sep);
    }
}

/// The action for a run: commit when asked to or in a patch re-invocation,
/// hand hunks to fzf in the user's own invocation where fzf is there, else
/// preview.
pub fn select_action(commit: bool, mode: &Mode, fzf: Option<(PathBuf, Vec<String>)>) -> (r: Action)
    ensures
        commit || mode is Patch ==> r is Commit,
        !(commit || mode is Patch) && mode is Initial && fzf is Some ==> (r matches Action::FzfPreview(
            b,
            a,
        ) && b == fzf.unwrap().0 && a@ == fzf.unwrap().1@),
        !(commit || mode is Patch) && !(mode is Initial && fzf is Some) ==> r is Preview,
{
    if commit {
        return Action::Commit;
    }
    match mode {
        Mode::Patch(_) => Action::Commit,
        Mode::Initial => match fzf {
            Some((bin, args)) => Action::FzfPreview(bin, args),
            None => Action::Preview,
        },
        Mode::Preview(_) => Action::Preview,
    }
}

/// The flag letters of a run: the implicit ones, then the user's, one per
/// character of `--flags`.
pub open spec fn flag_set(args: Arguments) -> Seq<Seq<char>> {
    auto_flags(args.exact, args.pattern@) + match args.flags {
        Some(f) => f@.map_values(|c: char| seq![c]),
        None => Seq::empty(),
    }
}

/// The pager command that a printer runs, if any.
pub open spec fn pager_of(p: Printer) -> Option<SubprocCommand> {
    match p {
        Printer::Pager(cmd) => Some(cmd),
        Printer::Stdout => None,
    }
}

/// The options of a run. A refused flag letter is an argument error; a
/// pattern that does not build is the engine's own error; otherwise the
/// options hold the engine of the pattern's kind with the replacement (empty
/// when none was given), the action of `select_action`, the pager of
/// `p_pager`, and a context radius of 3 unless given.
pub fn parse_opts(mode: Mode, args: Arguments, env: Environment) -> (r: Result<Options, Die>)
    ensures
        args.exact && literal_settings(flag_set(args), flag_set(args).len() as int) is None ==> (r matches Err(
            Die::ArgumentError(_),
        )),
        !args.exact && regex_settings(flag_set(args), flag_set(args).len() as int) is None ==> (r matches Err(
            Die::ArgumentError(_),
        )),
        args.exact ==> (literal_settings(flag_set(args), flag_set(args).len() as int) matches Some(ci)
            ==> (r is Ok <==> literal_builds(args.pattern@, ci)) && (r is Err ==> (r matches Err(
            Die::BuildError(_),
        )))),
        !args.exact ==> (regex_settings(flag_set(args), flag_set(args).len() as int) matches Some(f)
            ==> (r is Ok <==> compiles_with(args.pattern@, f)) && (r is Err ==> (r matches Err(
            Die::RegexError(_),
        )))),
        r matches Ok(o) ==> {
            &&& (o.engine matches Engine::AhoCorasick(l, _) ==> l.needle_view() == args.pattern@
                && literal_settings(flag_set(args), flag_set(args).len() as int) == Some(
                l.ignores_case(),
            ))
            &&& (o.engine matches Engine::Regex(p, _) ==> p.pattern_view() == args.pattern@
                && regex_settings(flag_set(args), flag_set(args).len() as int) == Some(p.flags_view()))
            &&& !(args.commit || mode is Patch) && mode is Initial ==> (o.action is Preview || (
            o.action matches Action::FzfPreview(_, a) && strings_view(a@) == fzf_extra(args.fzf)))
            &&& !(args.commit || mode is Patch) && (!env.ttys || is_never(args.fzf)) ==> o.action is Preview
            &&& !is_never(args.pager) ==> exists|found: Seq<Option<PathBuf>>|
                found.len() <= pager_candidates(words_or_whole(pager_text(args.pager, env.git_pager))).len()
                    && #[trigger] pager_chosen(
                    pager_of(o.printer),
                    words_or_whole(pager_text(args.pager, env.git_pager)),
                    found,
                )
        },
        r matches Ok(o) ==> {
            &&& o.unified == match args.unified {
                Some(u) => u,
                None => 3,
            }
            &&& o.cwd == env.cwd
            &&& args.exact <==> o.engine is AhoCorasick
            &&& (o.engine matches Engine::AhoCorasick(_, rep) ==> rep@ == match args.replace {
                Some(t) => t@,
                None => Seq::empty(),
            })
            &&& (o.engine matches Engine::Regex(_, rep) ==> rep@ == match args.replace {
                Some(t) => t@,
                None => Seq::empty(),
            })
            &&& (args.commit || mode is Patch) ==> o.action is Commit
            &&& !(args.commit || mode is Patch) && !(mode is Initial) ==> o.action is Preview
            &&& is_never(args.pager) ==> o.printer is Stdout
        },
{
    let mut flagset = p_auto_flags(args.exact, args.pattern.as_str());
    let user = match &args.flags {
        Some(f) => letters(f.as_str()),
        None => Vec::new(),
    };
    let ghost fs = flag_set(args);
    let ghost start = strings_view(flagset@);
    let mut i: usize = 0;
    while i < user.len()
        invariant
            0 <= i <= user@.len(),
            start == auto_flags(args.exact, args.pattern@),
            strings_view(flagset@) == start + strings_view(user@).subrange(0, i as int),
        decreases user@.len() - i,
    {
        push_copy(&mut flagset, &user[i]);
        assert(strings_view(user@)[i as int] == user@[i as int]@);
        i = i + 1;
        assert(strings_view(flagset@) =~= start + strings_view(user@).subrange(0, i as int));
    }
    proof {
        let tail = match args.flags {
            Some(f) => f@.map_values(|c: char| seq![c]),
            None => Seq::empty(),
        };
        assert(strings_view(user@) =~= tail);
        assert(strings_view(user@).subrange(0, i as int) =~= strings_view(user@));
        assert(strings_view(flagset@) =~= fs);
    }
    let replace = match args.replace {
        Some(t) => t,
        None => String::new(),
    };
    let engine = if args.exact {
        match p_aho_corasick(args.pattern.as_str(), flagset) {
            Ok(ac) => Engine::AhoCorasick(ac, replace),
            Err(e) => return Err(e),
        }
    } else {
        match p_regex(args.pattern.as_str(), flagset) {
            Ok(re) => Engine::Regex(re, replace),
            Err(e) => return Err(e),
        }
    };
    let fzf = p_fzf(&args.fzf, env.ttys);
    let action = select_action(args.commit, &mode, fzf);
    let printer = match p_pager(&args.pager, &env.git_pager) {
        Some(cmd) => Printer::Pager(cmd),
        None => Printer::Stdout,
    };
    let unified = match args.unified {
        Some(u) => u,
        None => 3,
    };
    Ok(Options { cwd: env.cwd, action, engine, printer, unified })
}

/// The call that fzf makes on its selection: `abort+execute:` with the patch
/// token and fzf's file of selected lines.
pub open spec fn execute_action() -> Seq<char> {
    "abort+execute:"@ + PATCH_TOKEN@ + "\x04{+f}"@
}

/// The fixed arguments of fzf: NUL-separated multi-selection of ANSI lines, a
/// preview through this program, and a patch run on enter or double click.
pub open spec fn fzf_base_args() -> Seq<Seq<char>> {
    seq![
        "--read0"@,
        "--print0"@,
        "-m"@,
        "--ansi"@,
        "--preview-window=70%:wrap"@,
        "--bind=enter:"@ + execute_action(),
        "--bind=double-click:"@ + execute_action(),
        "--preview="@ + PREVIEW_TOKEN@ + "\x04{+f}"@,
    ]
}

fn concat3(a: &str, b: &str, c: &str) -> (r: String)
    ensures
        r@ == a@ + b@ + c@,
{
    let mut s = a.to_owned();
    s.append(b);
    s.append(c);
    s
}

/// The fzf command: the fixed arguments, then the user's; in its
/// environment the original argv under `ARGV_TOKEN`, `SHELL` set to this
/// program, so that fzf's commands come back here, and a UTF-8 C locale.
pub fn fzf_command(bin: PathBuf, extra: Vec<String>, argv_joined: String, shell: String) -> (r: SubprocCommand)
    ensures
        strings_view(r.args@) == fzf_base_args() + strings_view(extra@),
        r.env@.len() == 3,
        r.env@[0].0@ == ARGV_TOKEN@ && r.env@[0].1@ == argv_joined@,
        r.env@[1].0@ == "SHELL"@ && r.env@[1].1@ == shell@,
        r.env@[2].0@ == "LC_ALL"@ && r.env@[2].1@ == "C.UTF-8"@,
{
    let mut args: Vec<String> = Vec::new();
    args.push("--read0".to_owned());
    args.push("--print0".to_owned());
    args.push("-m".to_owned());
    args.push("--ansi".to_owned());
    args.push("--preview-window=70%:wrap".to_owned());
    let execute = concat3("abort+execute:", PATCH_TOKEN, "\x04{+f}");
    let mut enter = "--bind=enter:".to_owned();
    enter.append(execute.as_str());
    args.push(enter);
    let mut click = "--bind=double-click:".to_owned();
    click.append(execute.as_str());
    args.push(click);
    args.push(concat3("--preview=", PREVIEW_TOKEN, "\x04{+f}"));
    let ghost base = strings_view(args@);
    assert(base =~= fzf_base_args());
    let mut i: usize = 0;
    while i < extra.len()
        invariant
            0 <= i <= extra@.len(),
            strings_view(args@) == base + strings_view(extra@).subrange(0, i as int),
        decreases extra@.len() - i,
    {
        push_copy(&mut args, &extra[i]);
        assert(strings_view(extra@)[i as int] == extra@[i as int]@);
        i = i + 1;
        assert(strings_view(args@) =~= base + strings_view(extra@).subrange(0, i as int));
    }
    assert(strings_view(extra@).subrange(0, i as int) =~= strings_view(extra@));
    let mut env: Vec<(String, String)> = Vec::new();
    env.push((ARGV_TOKEN.to_owned(), argv_joined));
    env.push(("SHELL".to_owned(), shell));
    env.push(("LC_ALL".to_owned(), "C.UTF-8".to_owned()));
    SubprocCommand { prog: bin, args, env }
}

} // verus!

//! Regular expressions, through the `regex` crate.
//!
//! A [`Pattern`] remembers the source text and the case flag it was compiled from, so
//! that contracts can speak of what a match depends on.
use vstd::prelude::*;

use crate::text::{is_blank, is_white_space, trim_end};

verus! {

#[verifier::external_type_specification]
#[verifier::external_body]
pub struct ExRegex(regex::Regex);

/// Whether `regex` accepts `pattern` (with the given case-insensitivity flag).
pub uninterp spec fn regex_accepts(pattern: Seq<char>, case_insensitive: bool) -> bool;

/// The text of the error that `regex` reports for a pattern it refuses.
pub uninterp spec fn regex_error_text(pattern: Seq<char>, case_insensitive: bool) -> Seq<char>;

/// Whether the compiled `pattern` matches somewhere in `text`.
pub uninterp spec fn regex_is_match(pattern: Seq<char>, case_insensitive: bool, text: Seq<char>) -> bool;

/// The capture groups (group 0 first) of the leftmost-first match of `pattern` in `text`.
pub uninterp spec fn regex_captures(
    pattern: Seq<char>,
    case_insensitive: bool,
    text: Seq<char>,
) -> Option<Seq<Option<Seq<char>>>>;

/// The pattern for an ATX heading line: `^(#{1,6})\s+(.+?)\s*#*\s*$`.
pub open spec fn atx_heading_pattern() -> Seq<char> {
    seq![
        '^', '(', '#', '{', '1', ',', '6', '}', ')', '\\', 's', '+', '(', '.', '+', '?', ')',
        '\\', 's', '*', '#', '*', '\\', 's', '*', '$'
    ]
}

/// Number of `'#'` characters at the start of `s`.
pub open spec fn leading_hashes(s: Seq<char>) -> nat
    decreases s.len(),
{
    if s.len() > 0 && s[0] == '#' {
        1 + leading_hashes(s.drop_first())
    } else {
        0
    }
}

/// `s` matches `\s*#*\s*`.
pub open spec fn is_closing_sequence(s: Seq<char>) -> bool {
    exists|a: int, b: int|
        #![trigger s.take(a), s.subrange(a, b)]
        0 <= a <= b <= s.len() && is_blank(s.take(a)) && (forall|j: int|
            a <= j < b ==> s[j] == '#') && is_blank(s.skip(b))
}

/// Position of the first non-white-space character at or after `from`.
pub open spec fn skip_white_space(s: Seq<char>, from: int) -> int
    decreases s.len() - from,
{
    if from < s.len() && is_white_space(s[from]) {
        skip_white_space(s, from + 1)
    } else {
        from
    }
}

/// For a line with no trailing white space: the ATX heading pattern matches it.
///
/// The leading run of `'#'` is 1 to 6 long and is followed by white space; what follows
/// that white space is not empty, since the line does not end in white space.
pub open spec fn atx_matches(t: Seq<char>) -> bool {
    let h = leading_hashes(t) as int;
    1 <= h <= 6 && h < t.len() && is_white_space(t[h])
}

/// The text after the opening `'#'` run and the white space behind it.
pub open spec fn atx_rest(t: Seq<char>) -> Seq<char> {
    t.skip(skip_white_space(t, leading_hashes(t) as int))
}

/// Length of the title group: the shortest non-empty start of `rest` whose remainder
/// matches `\s*#*\s*` (the lazy `.+?`).
pub open spec fn atx_title_len(rest: Seq<char>) -> int {
    choose|k: int|
        1 <= k <= rest.len() && is_closing_sequence(rest.skip(k)) && forall|j: int|
            1 <= j < k ==> !is_closing_sequence(#[trigger] rest.skip(j))
}

/// The capture groups of the ATX heading pattern on a line `t` with no trailing white
/// space: the whole line, the `'#'` run, and the title group.
pub open spec fn atx_captures(t: Seq<char>) -> Option<Seq<Option<Seq<char>>>> {
    if atx_matches(t) {
        let rest = atx_rest(t);
        Some(
            seq![
                Some(t),
                Some(t.take(leading_hashes(t) as int)),
                Some(rest.take(atx_title_len(rest))),
            ],
        )
    } else {
        None
    }
}

/// The character sequences of optional strings.
pub open spec fn opt_views(v: Seq<Option<String>>) -> Seq<Option<Seq<char>>> {
    v.map_values(|o: Option<String>| match o {
        Some(s) => Some(s@),
        None => None,
    })
}

/// A compiled regular expression together with what it was compiled from.
pub struct Pattern {
    source: String,
    case_insensitive: bool,
    inner: regex::Regex,
}

impl Pattern {
    /// The pattern text this regex was compiled from.
    pub closed spec fn source(&self) -> Seq<char> {
        self.source@
    }

    /// Whether this regex was compiled case-insensitively.
    pub closed spec fn ignores_case(&self) -> bool {
        self.case_insensitive
    }

    /// `RegexBuilder::new(source).case_insensitive(flag).build()`.
    ///
    /// Claims: success exactly when `regex_accepts` holds, the error text is
    /// `regex_error_text`, and the ATX heading pattern compiles.
    #[verifier::external_body]
    pub(crate) fn compile(source: &str, case_insensitive: bool) -> (r: Result<Pattern, String>)
        ensures
            r is Ok <==> regex_accepts(source@, case_insensitive),
            r matches Ok(p) ==> p.source() == source@ && p.ignores_case() == case_insensitive,
            r matches Err(e) ==> e@ == regex_error_text(source@, case_insensitive),
            source@ == atx_heading_pattern() && !case_insensitive ==> r is Ok,
    {
        match regex::RegexBuilder::new(source).case_insensitive(case_insensitive).build() {
            Ok(inner) => Ok(Pattern { source: source.to_string(), case_insensitive, inner }),
            Err(e) => Err(e.to_string()),
        }
    }

    /// `Regex::is_match`: whether the regex matches somewhere in `text`.
    #[verifier::external_body]
    pub(crate) fn is_match(&self, text: &str) -> (r: bool)
        ensures
            r == regex_is_match(self.source(), self.ignores_case(), text@),
    {
        self.inner.is_match(text)
    }

    /// `Regex::captures`, each group converted to an owned string.
    ///
    /// Claims: the groups are `regex_captures` of the source, flag and text; for the ATX
    /// heading pattern on a single line (no `'\n'`) without trailing white space they are
    /// `atx_captures`.
    #[verifier::external_body]
    pub(crate) fn captures(&self, text: &str) -> (r: Option<Vec<Option<String>>>)
        ensures
            r matches Some(g) ==> regex_captures(self.source(), self.ignores_case(), text@)
                == Some(opt_views(g@)),
            r is None ==> regex_captures(self.source(), self.ignores_case(), text@) is None,
            self.source() == atx_heading_pattern() && !self.ignores_case() && trim_end(text@)
                == text@ && !text@.contains('\n') ==> match r {
                Some(g) => atx_captures(text@) == Some(opt_views(g@)),
                None => atx_captures(text@) is None,
            },
    {
        self.inner.captures(text).map(
            |c| (0..c.len()).map(|i| c.get(i).map(|m| m.as_str().to_string())).collect(),
        )
    }
}

} // verus!

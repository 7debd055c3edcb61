//! The find/replace rule applied to file names: a regex (or an escaped literal)
//! with its flags, a replacement, and a limit on the number of replacements.

use vstd::prelude::*;
use vstd::string::StrSliceExecFns;
use vstd::utf8::encode_utf8;
use crate::error::Error;
use regex::Error as RegexError;
use crate::paths::opt_text;

verus! {

/// The pattern and the options a regex is built with.
#[derive(Debug)]
pub struct RegexSettings {
    pub pattern: String,
    pub case_insensitive: bool,
    pub multi_line: bool,
    pub dot_matches_new_line: bool,
}

/// The settings as plain values.
pub struct SettingsView {
    pub pattern: Seq<char>,
    pub case_insensitive: bool,
    pub multi_line: bool,
    pub dot_matches_new_line: bool,
}

impl View for RegexSettings {
    type V = SettingsView;

    open spec fn view(&self) -> SettingsView {
        SettingsView {
            pattern: self.pattern@,
            case_insensitive: self.case_insensitive,
            multi_line: self.multi_line,
            dot_matches_new_line: self.dot_matches_new_line,
        }
    }
}

/// Whether `regex::bytes::RegexBuilder` builds a regex from the pattern and options.
pub uninterp spec fn regex_compiles(
    pattern: Seq<char>,
    case_insensitive: bool,
    multi_line: bool,
    dot_matches_new_line: bool,
) -> bool;

/// What `regex::bytes::Regex::replacen` gives for the regex built from the
/// pattern and options, with a replacement in which `$` groups are expanded.
pub uninterp spec fn regex_replace_expanded(
    pattern: Seq<char>,
    case_insensitive: bool,
    multi_line: bool,
    dot_matches_new_line: bool,
    haystack: Seq<u8>,
    limit: usize,
    replacement: Seq<u8>,
) -> Seq<u8>;

/// What `regex::bytes::Regex::replacen` gives for the regex built from the
/// pattern and options, with a replacement taken as it stands (`NoExpand`).
pub uninterp spec fn regex_replace_verbatim(
    pattern: Seq<char>,
    case_insensitive: bool,
    multi_line: bool,
    dot_matches_new_line: bool,
    haystack: Seq<u8>,
    limit: usize,
    replacement: Seq<u8>,
) -> Seq<u8>;

/// The characters that `regex::escape` escapes.
pub open spec fn is_meta_character(c: char) -> bool {
    c == '\\' || c == '.' || c == '+' || c == '*' || c == '?' || c == '(' || c == ')' || c == '|'
        || c == '[' || c == ']' || c == '{' || c == '}' || c == '^' || c == '$' || c == '#' || c
        == '&' || c == '-' || c == '~'
}

/// The text with a `\` put before each meta character.
pub open spec fn escaped(s: Seq<char>) -> Seq<char>
    decreases s.len(),
{
    if s.len() == 0 {
        Seq::empty()
    } else if is_meta_character(s.last()) {
        escaped(s.drop_last()) + seq!['\\', s.last()]
    } else {
        escaped(s.drop_last()) + seq![s.last()]
    }
}

/// `regex::escape`: puts a `\` before every meta character.
#[verifier::external_body]
fn escape_pattern(text: &str) -> (r: String)
    ensures
        r@ == escaped(text@),
{
    regex::escape(text)
}

/// `RegexBuilder::new(..).case_insensitive(..).multi_line(..).dot_matches_new_line(..).build()`,
/// keeping only whether it succeeded.
#[verifier::external_body]
fn check_regex(settings: &RegexSettings) -> (r: Result<(), RegexError>)
    ensures
        r is Ok <==> regex_compiles(
            settings@.pattern,
            settings@.case_insensitive,
            settings@.multi_line,
            settings@.dot_matches_new_line,
        ),
{
    regex::bytes::RegexBuilder::new(&settings.pattern).case_insensitive(
        settings.case_insensitive,
    ).multi_line(settings.multi_line).dot_matches_new_line(settings.dot_matches_new_line).build().map(
        |_| (),
    )
}

/// `Regex::replacen` with `$` expansion in the replacement, on the regex built from
/// the settings (which builds, by `requires`).
#[verifier::external_body]
fn replace_expanded(settings: &RegexSettings, haystack: &[u8], limit: usize, rep: &[u8]) -> (r: Vec<
    u8,
>)
    requires
        regex_compiles(
            settings@.pattern,
            settings@.case_insensitive,
            settings@.multi_line,
            settings@.dot_matches_new_line,
        ),
    ensures
        r@ == regex_replace_expanded(
            settings@.pattern,
            settings@.case_insensitive,
            settings@.multi_line,
            settings@.dot_matches_new_line,
            haystack@,
            limit,
            rep@,
        ),
{
    let re = regex::bytes::RegexBuilder::new(&settings.pattern).case_insensitive(
        settings.case_insensitive,
    ).multi_line(settings.multi_line).dot_matches_new_line(settings.dot_matches_new_line).build().unwrap();
    re.replacen(haystack, limit, rep).into_owned()
}

/// `Regex::replacen` with `NoExpand`, on the regex built from the settings (which
/// builds, by `requires`).
#[verifier::external_body]
fn replace_verbatim(settings: &RegexSettings, haystack: &[u8], limit: usize, rep: &[u8]) -> (r: Vec<
    u8,
>)
    requires
        regex_compiles(
            settings@.pattern,
            settings@.case_insensitive,
            settings@.multi_line,
            settings@.dot_matches_new_line,
        ),
    ensures
        r@ == regex_replace_verbatim(
            settings@.pattern,
            settings@.case_insensitive,
            settings@.multi_line,
            settings@.dot_matches_new_line,
            haystack@,
            limit,
            rep@,
        ),
{
    let re = regex::bytes::RegexBuilder::new(&settings.pattern).case_insensitive(
        settings.case_insensitive,
    ).multi_line(settings.multi_line).dot_matches_new_line(settings.dot_matches_new_line).build().unwrap();
    re.replacen(haystack, limit, regex::bytes::NoExpand(rep)).into_owned()
}

/// The settings before any flag: multi-line matching on, everything else off.
pub open spec fn initial_settings(pattern: Seq<char>) -> SettingsView {
    SettingsView {
        pattern,
        case_insensitive: false,
        multi_line: true,
        dot_matches_new_line: false,
    }
}

/// `\b` before and after the pattern.
pub open spec fn word_pattern(pattern: Seq<char>) -> Seq<char> {
    seq!['\\', 'b'] + pattern + seq!['\\', 'b']
}

/// The settings after one flag:
/// `c` case-sensitive, `i` case-insensitive, `m` multi-line (the default),
/// `e` no multi-line, `s` `.` matches newlines (and no multi-line unless `m` is
/// among the flags), `w` whole words only (a fresh builder on `\b` + pattern + `\b`,
/// whose options are all off); any other character changes nothing.
pub open spec fn flag_step(
    st: SettingsView,
    c: char,
    pattern: Seq<char>,
    flags: Seq<char>,
) -> SettingsView {
    if c == 'c' {
        SettingsView { case_insensitive: false, ..st }
    } else if c == 'i' {
        SettingsView { case_insensitive: true, ..st }
    } else if c == 'e' {
        SettingsView { multi_line: false, ..st }
    } else if c == 's' {
        SettingsView {
            multi_line: if flags.contains('m') {
                st.multi_line
            } else {
                false
            },
            dot_matches_new_line: true,
            ..st
        }
    } else if c == 'w' {
        SettingsView {
            pattern: word_pattern(pattern),
            case_insensitive: false,
            multi_line: false,
            dot_matches_new_line: false,
        }
    } else {
        st
    }
}

/// The settings after the first `n` flags, read left to right.
pub open spec fn settings_after(pattern: Seq<char>, flags: Seq<char>, n: nat) -> SettingsView
    decreases n,
{
    if n == 0 {
        initial_settings(pattern)
    } else {
        flag_step(settings_after(pattern, flags, (n - 1) as nat), flags[n - 1], pattern, flags)
    }
}

/// The settings for a pattern and an optional flag string.
pub open spec fn settings_for(pattern: Seq<char>, flags: Option<Seq<char>>) -> SettingsView {
    match flags {
        Some(f) => settings_after(pattern, f, f.len()),
        None => initial_settings(pattern),
    }
}

/// Case-insensitive matching after the flags comes only from `i`: the settings
/// are case-insensitive exactly when an `i` comes after every `c` and `w`.
pub proof fn lemma_flags_case_insensitive(pattern: Seq<char>, flags: Seq<char>, n: nat)
    requires
        n <= flags.len(),
    ensures
        settings_after(pattern, flags, n).case_insensitive <==> exists|j: int|
            0 <= j < n && #[trigger] flags[j] == 'i' && forall|k: int|
                j < k < n ==> #[trigger] flags[k] != 'c' && flags[k] != 'w',
    decreases n,
{
    if n > 0 {
        lemma_flags_case_insensitive(pattern, flags, (n - 1) as nat);
        let c = flags[n - 1];
        let last = n - 1;
        if c == 'i' {
            assert(flags[last] == 'i');
        } else if c == 'c' || c == 'w' {
            if exists|j: int|
                0 <= j < n && #[trigger] flags[j] == 'i' && forall|k: int|
                    j < k < n ==> #[trigger] flags[k] != 'c' && flags[k] != 'w' {
                let j = choose|j: int|
                    0 <= j < n && #[trigger] flags[j] == 'i' && forall|k: int|
                        j < k < n ==> #[trigger] flags[k] != 'c' && flags[k] != 'w';
                assert(j < last);
                assert(flags[last] != 'c' && flags[last] != 'w');
            }
        } else {
            if exists|j: int|
                0 <= j < n && #[trigger] flags[j] == 'i' && forall|k: int|
                    j < k < n ==> #[trigger] flags[k] != 'c' && flags[k] != 'w' {
                let j = choose|j: int|
                    0 <= j < n && #[trigger] flags[j] == 'i' && forall|k: int|
                        j < k < n ==> #[trigger] flags[k] != 'c' && flags[k] != 'w';
                assert(j < last);
                assert(forall|k: int| j < k < last ==> #[trigger] flags[k] != 'c' && flags[k] != 'w');
            }
            if exists|j: int|
                0 <= j < last && #[trigger] flags[j] == 'i' && forall|k: int|
                    j < k < last ==> #[trigger] flags[k] != 'c' && flags[k] != 'w' {
                let j = choose|j: int|
                    0 <= j < last && #[trigger] flags[j] == 'i' && forall|k: int|
                        j < k < last ==> #[trigger] flags[k] != 'c' && flags[k] != 'w';
                assert(forall|k: int| j < k < n ==> #[trigger] flags[k] != 'c' && flags[k] != 'w');
            }
        }
    }
}

/// Multi-line matching stays on unless an `e` or a `w` comes, or an `s` comes
/// while `m` is not among the flags; nothing turns it back on.
pub proof fn lemma_flags_multi_line(pattern: Seq<char>, flags: Seq<char>, n: nat)
    requires
        n <= flags.len(),
    ensures
        settings_after(pattern, flags, n).multi_line <==> forall|j: int|
            0 <= j < n ==> #[trigger] flags[j] != 'e' && flags[j] != 'w' && (flags[j] == 's'
                ==> flags.contains('m')),
    decreases n,
{
    if n > 0 {
        lemma_flags_multi_line(pattern, flags, (n - 1) as nat);
        let last = n - 1;
        let c = flags[last];
        if c == 'e' || c == 'w' || (c == 's' && !flags.contains('m')) {
            assert(!(flags[last] != 'e' && flags[last] != 'w' && (flags[last] == 's'
                ==> flags.contains('m'))));
        }
    }
}

/// `.` matches newlines exactly when an `s` comes after every `w`.
pub proof fn lemma_flags_dot_matches_new_line(pattern: Seq<char>, flags: Seq<char>, n: nat)
    requires
        n <= flags.len(),
    ensures
        settings_after(pattern, flags, n).dot_matches_new_line <==> exists|j: int|
            0 <= j < n && #[trigger] flags[j] == 's' && forall|k: int|
                j < k < n ==> #[trigger] flags[k] != 'w',
    decreases n,
{
    if n > 0 {
        lemma_flags_dot_matches_new_line(pattern, flags, (n - 1) as nat);
        let last = n - 1;
        let c = flags[last];
        if c == 's' {
            assert(flags[last] == 's');
        } else if c == 'w' {
            if exists|j: int|
                0 <= j < n && #[trigger] flags[j] == 's' && forall|k: int|
                    j < k < n ==> #[trigger] flags[k] != 'w' {
                let j = choose|j: int|
                    0 <= j < n && #[trigger] flags[j] == 's' && forall|k: int|
                        j < k < n ==> #[trigger] flags[k] != 'w';
                assert(j < last);
                assert(flags[last] != 'w');
            }
        } else {
            if exists|j: int|
                0 <= j < n && #[trigger] flags[j] == 's' && forall|k: int|
                    j < k < n ==> #[trigger] flags[k] != 'w' {
                let j = choose|j: int|
                    0 <= j < n && #[trigger] flags[j] == 's' && forall|k: int|
                        j < k < n ==> #[trigger] flags[k] != 'w';
                assert(j < last);
                assert(forall|k: int| j < k < last ==> #[trigger] flags[k] != 'w');
            }
            if exists|j: int|
                0 <= j < last && #[trigger] flags[j] == 's' && forall|k: int|
                    j < k < last ==> #[trigger] flags[k] != 'w' {
                let j = choose|j: int|
                    0 <= j < last && #[trigger] flags[j] == 's' && forall|k: int|
                        j < k < last ==> #[trigger] flags[k] != 'w';
                assert(forall|k: int| j < k < n ==> #[trigger] flags[k] != 'w');
            }
        }
    }
}

/// The pattern is bounded by `\b` on both sides exactly when a `w` is among the
/// flags read, and is the given pattern otherwise.
pub proof fn lemma_flags_pattern(pattern: Seq<char>, flags: Seq<char>, n: nat)
    requires
        n <= flags.len(),
    ensures
        (exists|j: int| 0 <= j < n && #[trigger] flags[j] == 'w') ==> settings_after(
            pattern,
            flags,
            n,
        ).pattern == seq!['\\', 'b'] + pattern + seq!['\\', 'b'],
        (forall|j: int| 0 <= j < n ==> #[trigger] flags[j] != 'w') ==> settings_after(
            pattern,
            flags,
            n,
        ).pattern == pattern,
    decreases n,
{
    if n > 0 {
        lemma_flags_pattern(pattern, flags, (n - 1) as nat);
        let last = n - 1;
        if flags[last] != 'w' {
            if exists|j: int| 0 <= j < n && #[trigger] flags[j] == 'w' {
                let j = choose|j: int| 0 <= j < n && #[trigger] flags[j] == 'w';
                assert(j < last);
            }
        }
    }
}

/// The rule replaces up to its limit in both modes: what it makes of a name is
/// `replacen` with the rule's limit, with `$` groups expanded in regex mode and
/// the replacement taken as it stands in literal mode.
pub proof fn lemma_rule_uses_limit(rep: Replacer, content: Seq<u8>)
    ensures
        !rep.literal() ==> rep.replaced(content) == regex_replace_expanded(
            rep.settings().pattern,
            rep.settings().case_insensitive,
            rep.settings().multi_line,
            rep.settings().dot_matches_new_line,
            content,
            rep.limit(),
            rep.replacement(),
        ),
        rep.literal() ==> rep.replaced(content) == regex_replace_verbatim(
            rep.settings().pattern,
            rep.settings().case_insensitive,
            rep.settings().multi_line,
            rep.settings().dot_matches_new_line,
            content,
            rep.limit(),
            rep.replacement(),
        ),
{
}

/// Whether the text holds the character.
fn holds_char(s: &str, c: char) -> (b: bool)
    ensures
        b == s@.contains(c),
{
    let n = s.unicode_len();
    let mut i: usize = 0;
    while i < n
        invariant
            n == s@.len(),
            i <= n,
            forall|k: int| 0 <= k < i ==> s@[k] != c,
        decreases n - i,
    {
        if s.get_char(i) == c {
            return true;
        }
        i = i + 1;
    }
    false
}

/// Builds `\b` + pattern + `\b`.
fn word_bounded(pattern: &str) -> (r: String)
    ensures
        r@ == word_pattern(pattern@),
{
    proof {
        reveal_strlit("\\b");
    }
    let mut r = String::new();
    r.append("\\b");
    r.append(pattern);
    r.append("\\b");
    r
}

/// The regex settings for a pattern and its flags, read left to right.
pub fn regex_settings(pattern: &str, flags: Option<&str>) -> (s: RegexSettings)
    ensures
        s@ == settings_for(
            pattern@,
            match flags {
                Some(f) => Some(f@),
                None => None,
            },
        ),
{
    let mut s = RegexSettings {
        pattern: pattern.to_owned(),
        case_insensitive: false,
        multi_line: true,
        dot_matches_new_line: false,
    };
    if let Some(f) = flags {
        let n = f.unicode_len();
        let has_m = holds_char(f, 'm');
        let mut i: usize = 0;
        while i < n
            invariant
                n == f@.len(),
                i <= n,
                has_m == f@.contains('m'),
                s@ == settings_after(pattern@, f@, i as nat),
            decreases n - i,
        {
            let c = f.get_char(i);
            if c == 'c' {
                s.case_insensitive = false;
            } else if c == 'i' {
                s.case_insensitive = true;
            } else if c == 'e' {
                s.multi_line = false;
            } else if c == 's' {
                if !has_m {
                    s.multi_line = false;
                }
                s.dot_matches_new_line = true;
            } else if c == 'w' {
                s = RegexSettings {
                    pattern: word_bounded(pattern),
                    case_insensitive: false,
                    multi_line: false,
                    dot_matches_new_line: false,
                };
            }
            i = i + 1;
        }
    }
    s
}

/// True when the text holds the separator `/`.
pub open spec fn contains_separator(s: Seq<char>) -> bool {
    s.contains('/')
}

/// The message for a replacement that holds a `/`.
pub open spec fn separator_message() -> Seq<char> {
    "the replacement cannot be used: filenames containing '/' are not allowed"@
}

/// The pattern that is compiled: the text escaped in literal mode, else as given.
pub open spec fn pattern_for(look_for: Seq<char>, is_literal: bool) -> Seq<char> {
    if is_literal {
        escaped(look_for)
    } else {
        look_for
    }
}

/// A compiled find/replace rule.
#[derive(Debug)]
pub struct Replacer {
    settings: RegexSettings,
    replace_with: Vec<u8>,
    is_literal: bool,
    replacements: usize,
}

impl Replacer {
    #[verifier::type_invariant]
    spec fn compiles(self) -> bool {
        regex_compiles(
            self.settings@.pattern,
            self.settings@.case_insensitive,
            self.settings@.multi_line,
            self.settings@.dot_matches_new_line,
        )
    }

    /// The regex settings.
    pub closed spec fn settings(self) -> SettingsView {
        self.settings@
    }

    /// The replacement, as bytes.
    pub closed spec fn replacement(self) -> Seq<u8> {
        self.replace_with@
    }

    /// Whether the replacement is taken as it stands (no `$` expansion).
    pub closed spec fn literal(self) -> bool {
        self.is_literal
    }

    /// The largest number of replacements per name (0 for all of them).
    pub closed spec fn limit(self) -> usize {
        self.replacements
    }

    /// What the rule makes of a file name given as bytes.
    pub open spec fn replaced(self, content: Seq<u8>) -> Seq<u8> {
        let st = self.settings();
        if self.literal() {
            regex_replace_verbatim(
                st.pattern,
                st.case_insensitive,
                st.multi_line,
                st.dot_matches_new_line,
                content,
                self.limit(),
                self.replacement(),
            )
        } else {
            regex_replace_expanded(
                st.pattern,
                st.case_insensitive,
                st.multi_line,
                st.dot_matches_new_line,
                content,
                self.limit(),
                self.replacement(),
            )
        }
    }

    /// Builds the rule. A replacement holding `/` is refused, then the pattern
    /// (escaped in literal mode) must compile with the settings of the flags.
    pub fn new(
        look_for: String,
        replace_with: String,
        is_literal: bool,
        flags: Option<String>,
        replacements: Option<usize>,
    ) -> (r: Result<Replacer, Error>)
        ensures
            contains_separator(replace_with@) ==> (r matches Err(Error::InvalidArguments(m))
                && m@ == separator_message()),
            !contains_separator(replace_with@) ==> ({
                let st = settings_for(pattern_for(look_for@, is_literal), opt_text(flags));
                &&& r is Ok <==> regex_compiles(
                    st.pattern,
                    st.case_insensitive,
                    st.multi_line,
                    st.dot_matches_new_line,
                )
                &&& r is Err ==> r matches Err(Error::Regex(_))
            }),
            r matches Ok(rep) ==> {
                &&& rep.settings() == settings_for(
                    pattern_for(look_for@, is_literal),
                    opt_text(flags),
                )
                &&& rep.replacement() == encode_utf8(replace_with@)
                &&& rep.literal() == is_literal
                &&& rep.limit() == match replacements {
                    Some(n) => n,
                    None => 0usize,
                }
            },
    {
        if holds_char(replace_with.as_str(), '/') {
            proof {
                reveal_strlit(
                    "the replacement cannot be used: filenames containing '/' are not allowed",
                );
            }
            return Err(
                Error::InvalidArguments(
                    "the replacement cannot be used: filenames containing '/' are not allowed".to_owned(),
                ),
            );
        }
        let pattern = if is_literal {
            escape_pattern(look_for.as_str())
        } else {
            look_for
        };
        let settings = match &flags {
            Some(f) => regex_settings(pattern.as_str(), Some(f.as_str())),
            None => regex_settings(pattern.as_str(), None),
        };
        match check_regex(&settings) {
            Ok(()) => {},
            Err(e) => {
                return Err(Error::Regex(e));
            },
        }
        let limit = match replacements {
            Some(n) => n,
            None => 0,
        };
        Ok(
            Replacer {
                settings,
                replace_with: replace_with.as_str().as_bytes_vec(),
                is_literal,
                replacements: limit,
            },
        )
    }

    /// Applies the rule to a file name given as bytes.
    pub fn replace(&self, content: &[u8]) -> (r: Vec<u8>)
        ensures
            r@ == self.replaced(content@),
    {
        proof {
            use_type_invariant(self);
        }
        if self.is_literal {
            replace_verbatim(&self.settings, content, self.replacements, self.replace_with.as_slice())
        } else {
            replace_expanded(&self.settings, content, self.replacements, self.replace_with.as_slice())
        }
    }
}

} // verus!

//! Command-line globs: validation, brace expansion and compilation to fast paths.

use vstd::prelude::*;
use vstd::utf8::*;
use crate::ascii::{BACKSLASH, NUL, OPEN_BRACKET, QUESTION, SLASH, STAR};
use crate::glob_engine;
use crate::platform;
use crate::platform::{folded_bytes_equal, Platform};
use crate::text;
use crate::text::{contains_byte, copy_bytes};

verus! {

/// The most patterns that the braces of one glob may expand to.
pub const MAX_BRACE_EXPANSIONS: usize = 256;

/// The most bytes that a glob may have.
pub const MAX_USER_GLOB_BYTES: usize = 16_384;

/// The most bytes that a glob may have which needs the general engine.
pub const MAX_GENERAL_GLOB_BYTES: usize = 1_024;

/// Why a command-line glob is refused.
#[derive(Clone, Copy, Debug, PartialEq, Eq, Structural)]
pub enum GlobFault {
    Empty,
    TooLong,
    EmptyPattern,
    Nul,
    TooComplex,
    UnclosedClass,
    UnmatchedBrace,
    UnclosedBrace,
    TooManyExpansions,
}

/// The message that reports a fault.
pub open spec fn fault_text(fault: GlobFault) -> Seq<char> {
    match fault {
        GlobFault::Empty => "空の glob は指定できません"@,
        GlobFault::TooLong => "glob は 16384 bytes 以下で指定してください"@,
        GlobFault::EmptyPattern => "glob のパターンが空です"@,
        GlobFault::Nul => "glob に NUL 文字は使えません"@,
        GlobFault::TooComplex => "複雑なglobは 1024 bytes 以下で指定してください"@,
        GlobFault::UnclosedClass => "glob の文字クラス `[` が閉じられていません"@,
        GlobFault::UnmatchedBrace => "glob の `}` に対応する `{` がありません"@,
        GlobFault::UnclosedBrace => "glob の `{` が閉じられていません"@,
        GlobFault::TooManyExpansions => "glob の brace 展開は 256 個までです"@,
    }
}

/// The error for a command-line glob that cannot be used, or for a walk that cannot start.
#[derive(Debug)]
pub struct GlobError {
    pub pattern: Option<String>,
    pub message: String,
}

impl GlobError {
    /// Whether this is the report of `fault` in the glob `original`.
    pub open spec fn reports(self, fault: GlobFault, original: Seq<char>) -> bool {
        &&& text::optional_text(self.pattern) == Some(original)
        &&& self.message@ == fault_text(fault)
    }

    pub fn new(pattern: Option<String>, message: String) -> (result: Self)
        ensures
            result.pattern == pattern,
            result.message == message,
    {
        GlobError { pattern, message }
    }

    /// The report of a fault in the glob `original`.
    pub fn fault(fault: GlobFault, original: &str) -> (result: Self)
        ensures
            result.reports(fault, original@),
    {
        let message: &str = match fault {
            GlobFault::Empty => "空の glob は指定できません",
            GlobFault::TooLong => "glob は 16384 bytes 以下で指定してください",
            GlobFault::EmptyPattern => "glob のパターンが空です",
            GlobFault::Nul => "glob に NUL 文字は使えません",
            GlobFault::TooComplex => "複雑なglobは 1024 bytes 以下で指定してください",
            GlobFault::UnclosedClass => "glob の文字クラス `[` が閉じられていません",
            GlobFault::UnmatchedBrace => "glob の `}` に対応する `{` がありません",
            GlobFault::UnclosedBrace => "glob の `{` が閉じられていません",
            GlobFault::TooManyExpansions => "glob の brace 展開は 256 個までです",
        };
        GlobError::new(Some(original.to_owned()), message.to_owned())
    }

    /// The glob that the error is about, where it is about one.
    pub fn pattern(&self) -> (result: Option<&str>)
        ensures
            match result {
                Some(pattern) => text::optional_text(self.pattern) == Some(pattern@),
                None => self.pattern is None,
            },
    {
        match &self.pattern {
            Some(pattern) => Some(pattern.as_str()),
            None => None,
        }
    }
}

impl Clone for GlobError {
    fn clone(&self) -> (result: Self)
        ensures
            text::optional_text(result.pattern) == text::optional_text(self.pattern),
            result.message@ == self.message@,
    {
        let pattern: Option<String> = match &self.pattern {
            Some(pattern) => Some(pattern.clone()),
            None => None,
        };
        GlobError { pattern, message: self.message.clone() }
    }
}

/// Whether an odd number of backslashes stands directly before `index`.
pub open spec fn escaped(bytes: Seq<u8>, index: int) -> bool
    decreases index,
{
    index > 0 && bytes[index - 1] == BACKSLASH && !escaped(bytes, index - 1)
}

/// Whether the byte at `index` is escaped by a backslash.
pub fn is_escaped_at(value: &[u8], index: usize) -> (result: bool)
    requires
        index <= value.len(),
    ensures
        result == escaped(value@, index as int),
{
    let mut odd: bool = false;
    let mut cursor: usize = index;
    while cursor > 0 && value[cursor - 1] == BACKSLASH
        invariant
            cursor <= index <= value.len(),
            escaped(value@, index as int) == (odd != escaped(value@, cursor as int)),
        decreases cursor,
    {
        odd = !odd;
        cursor -= 1;
    }
    odd
}

/// Whether a pattern needs the general engine: it holds two stars, `?`, `[` or a backslash.
pub open spec fn needs_general_engine(pattern: Seq<u8>) -> bool {
    ||| exists|i: int, j: int|
        0 <= i < j < pattern.len() && pattern[i] == STAR && pattern[j] == STAR
    ||| exists|i: int|
        0 <= i < pattern.len() && (#[trigger] pattern[i] == QUESTION || pattern[i] == OPEN_BRACKET
            || pattern[i] == BACKSLASH)
}

/// Whether a pattern is beyond what the literal and one-star paths can match.
pub fn glob_requires_general_engine(pattern: &[u8]) -> (result: bool)
    ensures
        result == needs_general_engine(pattern@),
{
    match first_star_unless_general(pattern) {
        Ok(_) => false,
        Err(_) => true,
    }
}

/// The only star of a pattern that does not need the general engine, or an error.
fn first_star_unless_general(pattern: &[u8]) -> (result: Result<Option<usize>, ()>)
    ensures
        result is Err == needs_general_engine(pattern@),
        result matches Ok(Some(index)) ==> index < pattern.len() && pattern[index as int] == STAR
            && forall|i: int|
            0 <= i < pattern.len() && #[trigger] pattern[i] == STAR ==> i == index,
        result matches Ok(None) ==> !pattern@.contains(STAR),
{
    let mut star: Option<usize> = None;
    let mut index: usize = 0;
    while index < pattern.len()
        invariant
            index <= pattern.len(),
            match star {
                Some(found) => found < index && pattern[found as int] == STAR && forall|i: int|
                    0 <= i < index && #[trigger] pattern[i] == STAR ==> i == found,
                None => forall|i: int| 0 <= i < index ==> pattern[i] != STAR,
            },
            forall|i: int|
                0 <= i < index ==> #[trigger] pattern[i] != QUESTION && pattern[i] != OPEN_BRACKET
                    && pattern[i] != BACKSLASH,
        decreases pattern.len() - index,
    {
        let byte: u8 = pattern[index];
        if byte == STAR {
            if let Some(found) = star {
                assert(pattern[found as int] == STAR && pattern[index as int] == STAR);
                return Err(());
            }
            star = Some(index);
        } else if byte == QUESTION || byte == OPEN_BRACKET || byte == BACKSLASH {
            assert(pattern@[index as int] == byte);
            return Err(());
        }
        index += 1;
    }
    Ok(star)
}

/// How a compiled glob is matched.
#[derive(Clone, Copy, Debug, PartialEq, Eq, Structural)]
pub enum GlobKind {
    Literal,
    OneStar { index: usize },
    General,
}

/// A glob that is ready to match.
#[derive(Debug)]
pub struct CompiledGlob {
    pub pattern: Vec<u8>,
    /// Whether the glob is matched against a relative path and not against the last name alone.
    pub path_pattern: bool,
    pub kind: GlobKind,
}

/// What a compiled glob stands for.
pub struct GlobModel {
    pub pattern: Seq<u8>,
    pub path_pattern: bool,
}

/// Whether `kind` is the way in which `pattern` is to be matched.
pub open spec fn kind_fits(kind: GlobKind, pattern: Seq<u8>) -> bool {
    match kind {
        GlobKind::General => needs_general_engine(pattern),
        GlobKind::OneStar { index } => {
            &&& !needs_general_engine(pattern)
            &&& index < pattern.len()
            &&& pattern[index as int] == STAR
        },
        GlobKind::Literal => !needs_general_engine(pattern) && !pattern.contains(STAR),
    }
}

/// Whether `text` is `prefix`, a run of bytes without `/`, and `suffix`.
pub open spec fn one_star_matches(
    platform: Platform,
    prefix: Seq<u8>,
    suffix: Seq<u8>,
    text: Seq<u8>,
) -> bool {
    &&& prefix.len() + suffix.len() <= text.len()
    &&& platform::folded_all(platform, prefix) == platform::folded_all(
        platform,
        text.subrange(0, prefix.len() as int),
    )
    &&& platform::folded_all(platform, suffix) == platform::folded_all(
        platform,
        text.subrange(text.len() - suffix.len(), text.len() as int),
    )
    &&& !text.subrange(prefix.len() as int, text.len() - suffix.len()).contains(SLASH)
}

/// Whether `pattern` matches `text`: by comparison where it holds no wildcard, by prefix and
/// suffix where it holds one star, and by the general engine otherwise.
pub open spec fn compiled_matches(platform: Platform, pattern: Seq<u8>, text: Seq<u8>) -> bool {
    if needs_general_engine(pattern) {
        glob_engine::glob_result(platform, pattern, text)
    } else if pattern.contains(STAR) {
        let index = pattern.index_of(STAR);
        one_star_matches(
            platform,
            pattern.subrange(0, index),
            pattern.subrange(index + 1, pattern.len() as int),
            text,
        )
    } else {
        platform::folded_all(platform, pattern) == platform::folded_all(platform, text)
    }
}

/// A pattern without a `/` in first place.
pub open spec fn without_leading_slash(pattern: Seq<u8>) -> Seq<u8> {
    if pattern.len() > 0 && pattern[0] == SLASH {
        pattern.subrange(1, pattern.len() as int)
    } else {
        pattern
    }
}

impl View for CompiledGlob {
    type V = GlobModel;

    open spec fn view(&self) -> GlobModel {
        GlobModel { pattern: self.pattern@, path_pattern: self.path_pattern }
    }
}

/// The glob that a command-line pattern compiles to: a `/` in it, also one in first place, which
/// is then dropped, makes it a pattern for paths.
pub open spec fn user_glob(pattern: Seq<u8>) -> GlobModel {
    GlobModel { pattern: without_leading_slash(pattern), path_pattern: pattern.contains(SLASH) }
}

/// The glob that an ignore pattern compiles to.
pub open spec fn ignore_glob(pattern: Seq<u8>, anchored: bool) -> GlobModel {
    GlobModel { pattern, path_pattern: anchored || pattern.contains(SLASH) }
}

impl CompiledGlob {
    pub open spec fn wf(self) -> bool {
        kind_fits(self.kind, self.pattern@)
    }

    /// Compiles an ignore pattern from which an anchoring `/` was taken off.
    pub fn for_ignore(pattern: &[u8], anchored: bool) -> (result: Self)
        ensures
            result.wf(),
            result@ == ignore_glob(pattern@, anchored),
    {
        let path_pattern: bool = anchored || contains_byte(pattern, SLASH);
        Self::new(pattern, path_pattern)
    }

    /// Compiles a pattern of the command line.
    pub fn for_user(pattern: &[u8]) -> (result: Self)
        ensures
            result.wf(),
            result@ == user_glob(pattern@),
    {
        let anchored: bool = pattern.len() > 0 && pattern[0] == SLASH;
        assert(anchored ==> pattern@.contains(SLASH)) by {
            if anchored {
                assert(pattern@[0] == SLASH);
            }
        }
        if anchored {
            let rest: &[u8] = &pattern[1..pattern.len()];
            Self::new(rest, true)
        } else {
            let path_pattern: bool = contains_byte(pattern, SLASH);
            Self::new(pattern, path_pattern)
        }
    }

    pub fn new(pattern: &[u8], path_pattern: bool) -> (result: Self)
        ensures
            result.wf(),
            result@ == (GlobModel { pattern: pattern@, path_pattern }),
    {
        let kind: GlobKind = match first_star_unless_general(pattern) {
            Err(_) => GlobKind::General,
            Ok(Some(index)) => GlobKind::OneStar { index },
            Ok(None) => GlobKind::Literal,
        };
        CompiledGlob { pattern: copy_bytes(pattern), path_pattern, kind }
    }

    /// Matches a name or a relative path with `/` between its parts.
    pub fn matches(&self, text: &str, platform: Platform) -> (result: bool)
        requires
            self.wf(),
        ensures
            result == compiled_matches(platform, self@.pattern, encode_utf8(text@)),
    {
        let pattern: &[u8] = self.pattern.as_slice();
        let bytes: &[u8] = text.as_bytes();
        match self.kind {
            GlobKind::Literal => folded_bytes_equal(pattern, bytes, platform),
            GlobKind::OneStar { index } => {
                proof {
                    let found = pattern@.index_of(STAR);
                    assert(pattern@.contains(STAR));
                    assert(pattern@[found] == STAR);
                    assert(pattern@[index as int] == STAR);
                    assert(found == index);
                }
                let suffix_len: usize = pattern.len() - index - 1;
                let prefix: &[u8] = &pattern[0..index];
                let suffix: &[u8] = &pattern[index + 1..pattern.len()];
                bytes.len() >= index + suffix_len && folded_bytes_equal(
                    prefix,
                    &bytes[0..index],
                    platform,
                ) && folded_bytes_equal(
                    suffix,
                    &bytes[bytes.len() - suffix_len..bytes.len()],
                    platform,
                ) && !contains_byte(&bytes[index..bytes.len() - suffix_len], SLASH)
            },
            GlobKind::General => glob_engine::glob_bytes_match(pattern, bytes, platform),
        }
    }
}

impl Clone for CompiledGlob {
    fn clone(&self) -> (result: Self)
        ensures
            result@ == self@,
            result.kind == self.kind,
    {
        CompiledGlob {
            pattern: copy_bytes(self.pattern.as_slice()),
            path_pattern: self.path_pattern,
            kind: self.kind,
        }
    }
}

} // verus!

//! File-system paths as sequences of components.

use vstd::prelude::*;
use vstd::utf8::*;
use crate::ascii::{BACKSLASH, COLON, DOT, QUESTION, SLASH};
use crate::platform;
use crate::platform::{folded_bytes_equal, Platform};
use crate::text;
use crate::text::{byte_strings_equal, copy_bytes};

verus! {

/// One name of a path, as the host encodes it and as text.
#[derive(Debug)]
pub struct PathName {
    /// The bytes by which the host tells names apart.
    pub raw: Vec<u8>,
    /// The name as text, with a replacement character for what is not text.
    pub text: String,
    /// Whether the name is text without any replacement.
    pub utf8: bool,
}

/// What a name of a path is.
pub struct NameModel {
    pub raw: Seq<u8>,
    pub text: Seq<char>,
    pub utf8: bool,
}

impl View for PathName {
    type V = NameModel;

    open spec fn view(&self) -> NameModel {
        NameModel { raw: self.raw@, text: self.text@, utf8: self.utf8 }
    }
}

impl Clone for PathName {
    fn clone(&self) -> (result: Self)
        ensures
            result@ == self@,
    {
        PathName {
            raw: copy_bytes(self.raw.as_slice()),
            text: self.text.clone(),
            utf8: self.utf8,
        }
    }
}

/// One component of a path.
#[derive(Debug)]
pub enum PathComponent {
    /// A drive or share, with a drive letter in upper case in its raw bytes.
    Prefix(PathName),
    RootDir,
    CurDir,
    ParentDir,
    Normal(PathName),
}

/// What a component of a path is.
pub enum PathPart {
    Prefix(NameModel),
    RootDir,
    CurDir,
    ParentDir,
    Normal(NameModel),
}

impl View for PathComponent {
    type V = PathPart;

    open spec fn view(&self) -> PathPart {
        match self {
            PathComponent::Prefix(name) => PathPart::Prefix(name@),
            PathComponent::RootDir => PathPart::RootDir,
            PathComponent::CurDir => PathPart::CurDir,
            PathComponent::ParentDir => PathPart::ParentDir,
            PathComponent::Normal(name) => PathPart::Normal(name@),
        }
    }
}

impl Clone for PathComponent {
    fn clone(&self) -> (result: Self)
        ensures
            result@ == self@,
    {
        match self {
            PathComponent::Prefix(name) => PathComponent::Prefix(name.clone()),
            PathComponent::RootDir => PathComponent::RootDir,
            PathComponent::CurDir => PathComponent::CurDir,
            PathComponent::ParentDir => PathComponent::ParentDir,
            PathComponent::Normal(name) => PathComponent::Normal(name.clone()),
        }
    }
}

/// What the components of a path are.
pub open spec fn parts(components: Seq<PathComponent>) -> Seq<PathPart> {
    Seq::new(components.len(), |i: int| components[i]@)
}

/// A copy of a path.
pub fn copy_path(path: &[PathComponent]) -> (result: Vec<PathComponent>)
    ensures
        parts(result@) == parts(path@),
{
    let mut result: Vec<PathComponent> = Vec::new();
    append_path(&mut result, path);
    assert(parts(result@) =~= parts(path@));
    result
}

/// Puts the components of `path` behind those of `result`.
pub fn append_path(result: &mut Vec<PathComponent>, path: &[PathComponent])
    ensures
        parts(final(result)@) == parts(old(result)@) + parts(path@),
{
    let mut index: usize = 0;
    let ghost before = parts(result@);
    assert(parts(path@).subrange(0, 0) =~= Seq::<PathPart>::empty());
    assert(before + Seq::<PathPart>::empty() =~= before);
    while index < path.len()
        invariant
            index <= path.len(),
            parts(result@) == before + parts(path@).subrange(0, index as int),
        decreases path.len() - index,
    {
        let ghost here = parts(result@);
        result.push(path[index].clone());
        proof {
            assert(parts(result@) =~= here.push(path[index as int]@));
            assert(parts(path@).subrange(0, index as int).push(parts(path@)[index as int])
                =~= parts(path@).subrange(0, index + 1));
            assert(here.push(path[index as int]@) =~= before + parts(path@).subrange(
                0,
                index + 1,
            ));
        }
        index += 1;
    }
    assert(parts(path@).subrange(0, path.len() as int) =~= parts(path@));
}

/// Whether the host takes two components for the same one.
pub open spec fn same_part(left: PathPart, right: PathPart) -> bool {
    match (left, right) {
        (PathPart::Prefix(a), PathPart::Prefix(b)) => a.raw == b.raw,
        (PathPart::Normal(a), PathPart::Normal(b)) => a.raw == b.raw,
        (PathPart::RootDir, PathPart::RootDir) => true,
        (PathPart::CurDir, PathPart::CurDir) => true,
        (PathPart::ParentDir, PathPart::ParentDir) => true,
        _ => false,
    }
}

/// Whether two components are the same one.
fn component_is(left: &PathComponent, right: &PathComponent) -> (result: bool)
    ensures
        result == same_part(left@, right@),
{
    match (left, right) {
        (PathComponent::Prefix(a), PathComponent::Prefix(b)) => byte_strings_equal(
            a.raw.as_slice(),
            b.raw.as_slice(),
        ),
        (PathComponent::Normal(a), PathComponent::Normal(b)) => byte_strings_equal(
            a.raw.as_slice(),
            b.raw.as_slice(),
        ),
        (PathComponent::RootDir, PathComponent::RootDir) => true,
        (PathComponent::CurDir, PathComponent::CurDir) => true,
        (PathComponent::ParentDir, PathComponent::ParentDir) => true,
        _ => false,
    }
}

/// Whether `path` is `base` or lies below it.
pub open spec fn path_below(path: Seq<PathPart>, base: Seq<PathPart>) -> bool {
    &&& base.len() <= path.len()
    &&& forall|i: int| 0 <= i < base.len() ==> same_part(#[trigger] path[i], base[i])
}

/// Whether two paths have the same components.
pub open spec fn same_path(left: Seq<PathPart>, right: Seq<PathPart>) -> bool {
    left.len() == right.len() && path_below(left, right)
}

/// Whether `path` is `base` or lies below it, component by component.
pub fn path_starts_with(path: &[PathComponent], base: &[PathComponent]) -> (result: bool)
    ensures
        result == path_below(parts(path@), parts(base@)),
{
    if base.len() > path.len() {
        return false;
    }
    let mut index: usize = 0;
    while index < base.len()
        invariant
            index <= base.len() <= path.len(),
            forall|i: int|
                0 <= i < index ==> same_part(#[trigger] parts(path@)[i], parts(base@)[i]),
        decreases base.len() - index,
    {
        if !component_is(&path[index], &base[index]) {
            assert(!same_part(parts(path@)[index as int], parts(base@)[index as int]));
            return false;
        }
        index += 1;
    }
    true
}

/// Whether two paths have the same components.
pub fn paths_equal(left: &[PathComponent], right: &[PathComponent]) -> (result: bool)
    ensures
        result == same_path(parts(left@), parts(right@)),
{
    left.len() == right.len() && path_starts_with(left, right)
}

/// The path without its last component, unless that is a root or a prefix.
pub open spec fn parent(path: Seq<PathPart>) -> Option<Seq<PathPart>> {
    if path.len() == 0 || path.last() is RootDir || path.last() is Prefix {
        None
    } else {
        Some(path.drop_last())
    }
}

/// The number of components of a path's parent, or `None` where it has no parent.
pub fn parent_len(path: &[PathComponent]) -> (result: Option<usize>)
    ensures
        match result {
            Some(length) => length == path.len() - 1 && parent(parts(path@)) == Some(
                parts(path@.subrange(0, length as int)),
            ),
            None => parent(parts(path@)) is None,
        },
{
    if path.len() == 0 {
        return None;
    }
    assert(parts(path@).last() == path[path.len() - 1]@);
    match &path[path.len() - 1] {
        PathComponent::RootDir => None,
        PathComponent::Prefix(_) => None,
        _ => {
            assert(parts(path@).drop_last() =~= parts(path@.subrange(0, path.len() - 1)));
            Some(path.len() - 1)
        },
    }
}

/// The last component of a path where that is a name.
pub open spec fn file_name(path: Seq<PathPart>) -> Option<NameModel> {
    if path.len() > 0 {
        match path.last() {
            PathPart::Normal(name) => Some(name),
            _ => None,
        }
    } else {
        None
    }
}

/// The last component of a path where that is a name.
pub fn path_file_name(path: &[PathComponent]) -> (result: Option<&PathName>)
    ensures
        match result {
            Some(name) => file_name(parts(path@)) == Some(name@),
            None => file_name(parts(path@)) is None,
        },
{
    if path.len() == 0 {
        return None;
    }
    match &path[path.len() - 1] {
        PathComponent::Normal(name) => Some(name),
        _ => None,
    }
}

/// The text of a path's last name.
pub fn file_name_text(path: &[PathComponent]) -> (result: Option<&str>)
    ensures
        match result {
            Some(name) => file_name(parts(path@)) matches Some(found) && found.text == name@,
            None => file_name(parts(path@)) is None,
        },
{
    match path_file_name(path) {
        Some(name) => Some(name.text.as_str()),
        None => None,
    }
}

/// Whether a path's last name is text that starts with a dot.
pub open spec fn hidden(path: Seq<PathPart>) -> bool {
    file_name(path) matches Some(name) && name.utf8 && starts_with_dot(encode_utf8(name.text))
}

/// Whether the first byte is a dot.
pub open spec fn starts_with_dot(bytes: Seq<u8>) -> bool {
    bytes.len() > 0 && bytes[0] == DOT
}

/// Whether a path's last name is text that starts with a dot.
pub fn is_hidden_path(path: &[PathComponent]) -> (result: bool)
    ensures
        result == hidden(parts(path@)),
{
    match path_file_name(path) {
        Some(name) => {
            let bytes: &[u8] = name.text.as_str().as_bytes();
            name.utf8 && bytes.len() > 0 && bytes[0] == DOT
        },
        None => false,
    }
}

/// Whether two names are the same on `platform`: by their text without regard to ASCII case on
/// Windows, and byte for byte elsewhere.
pub open spec fn same_name(platform: Platform, left: NameModel, right: NameModel) -> bool {
    match platform {
        Platform::Windows => platform::folded_all(platform, encode_utf8(left.text))
            == platform::folded_all(platform, encode_utf8(right.text)),
        Platform::Other => left.raw == right.raw,
    }
}

/// Compares two names as `platform` compares them.
pub fn os_strings_equal(left: &PathName, right: &PathName, platform: Platform) -> (result: bool)
    ensures
        result == same_name(platform, left@, right@),
{
    match platform {
        Platform::Windows => folded_bytes_equal(
            left.text.as_str().as_bytes(),
            right.text.as_str().as_bytes(),
            platform,
        ),
        Platform::Other => byte_strings_equal(left.raw.as_slice(), right.raw.as_slice()),
    }
}

/// Whether two components are the same on `platform`.
pub open spec fn matching_parts(platform: Platform, left: PathPart, right: PathPart) -> bool {
    match (left, right) {
        (PathPart::Prefix(a), PathPart::Prefix(b)) => same_name(platform, a, b),
        (PathPart::Normal(a), PathPart::Normal(b)) => same_name(platform, a, b),
        (PathPart::RootDir, PathPart::RootDir) => true,
        (PathPart::CurDir, PathPart::CurDir) => true,
        (PathPart::ParentDir, PathPart::ParentDir) => true,
        _ => false,
    }
}

/// Compares two components as `platform` compares names.
pub fn components_equal(left: &PathComponent, right: &PathComponent, platform: Platform) -> (result:
    bool)
    ensures
        result == matching_parts(platform, left@, right@),
{
    match (left, right) {
        (PathComponent::Prefix(a), PathComponent::Prefix(b)) => os_strings_equal(a, b, platform),
        (PathComponent::Normal(a), PathComponent::Normal(b)) => os_strings_equal(a, b, platform),
        (PathComponent::RootDir, PathComponent::RootDir) => true,
        (PathComponent::CurDir, PathComponent::CurDir) => true,
        (PathComponent::ParentDir, PathComponent::ParentDir) => true,
        _ => false,
    }
}

/// `value` behind `text`, with a `/` between them where `text` is not empty.
pub open spec fn with_slash(text: Seq<char>, value: Seq<char>) -> Seq<char> {
    if text.len() == 0 {
        value
    } else {
        text + "/"@ + value
    }
}

/// Puts one name behind `destination`, with a `/` between them.
pub fn push_slash_component(destination: &mut String, value: &str)
    ensures
        final(destination)@ == with_slash(old(destination)@, value@),
{
    let ghost before = destination@;
    if !destination.as_str().is_empty() {
        destination.append("/");
    }
    destination.append(value);
    assert(Seq::<char>::empty() + value@ =~= value@);
    proof {
        if before.len() == 0 {
            assert(before =~= Seq::<char>::empty());
        }
    }
}

/// The names of `path` behind `text`, with `/` between them, or `None` where a root or a prefix is
/// among them. A `.` is left out.
pub open spec fn slashed(text: Seq<char>, path: Seq<PathPart>) -> Option<Seq<char>>
    decreases path.len(),
{
    if path.len() == 0 {
        Some(text)
    } else {
        let rest = path.drop_first();
        match path[0] {
            PathPart::Normal(name) => slashed(with_slash(text, name.text), rest),
            PathPart::CurDir => slashed(text, rest),
            PathPart::ParentDir => slashed(with_slash(text, ".."@), rest),
            PathPart::RootDir => None,
            PathPart::Prefix(_) => None,
        }
    }
}

/// Puts the names of `components` behind `text`.
fn push_components(start: String, components: &[PathComponent]) -> (result: Option<String>)
    ensures
        text::optional_text(result) == slashed(start@, parts(components@)),
{
    let ghost first = start@;
    let mut text: String = start;
    let mut index: usize = 0;
    let ghost whole = parts(components@);
    assert(whole.subrange(0, whole.len() as int) =~= whole);
    while index < components.len()
        invariant
            index <= components.len(),
            first == start@,
            whole == parts(components@),
            slashed(first, whole) == slashed(
                text@,
                whole.subrange(index as int, whole.len() as int),
            ),
        decreases components.len() - index,
    {
        proof {
            let here = whole.subrange(index as int, whole.len() as int);
            assert(here[0] == components[index as int]@);
            assert(here.drop_first() =~= whole.subrange(index + 1, whole.len() as int));
        }
        match &components[index] {
            PathComponent::Normal(name) => {
                push_slash_component(&mut text, name.text.as_str());
            },
            PathComponent::CurDir => {},
            PathComponent::ParentDir => {
                push_slash_component(&mut text, "..");
            },
            PathComponent::RootDir => {
                return None;
            },
            PathComponent::Prefix(_) => {
                return None;
            },
        }
        index += 1;
    }
    Some(text)
}

/// The names of a relative path with `/` between them.
pub fn relative_components_to_slash(components: &[PathComponent]) -> (result: Option<String>)
    ensures
        text::optional_text(result) == slashed(Seq::empty(), parts(components@)),
{
    let text: String = String::new();
    assert(text@ =~= Seq::<char>::empty());
    push_components(text, components)
}

/// One `..` for each name of `path`, or `None` where a root or a prefix is in it.
pub open spec fn climbing(text: Seq<char>, path: Seq<PathPart>) -> Option<Seq<char>>
    decreases path.len(),
{
    if path.len() == 0 {
        Some(text)
    } else {
        let rest = path.drop_first();
        match path[0] {
            PathPart::Normal(_) => climbing(with_slash(text, ".."@), rest),
            PathPart::CurDir => climbing(text, rest),
            PathPart::ParentDir => climbing(text, rest),
            PathPart::RootDir => None,
            PathPart::Prefix(_) => None,
        }
    }
}

/// One `..` for each name of `components`.
fn climb(components: &[PathComponent]) -> (result: Option<String>)
    ensures
        text::optional_text(result) == climbing(Seq::empty(), parts(components@)),
{
    let mut text: String = String::new();
    let mut index: usize = 0;
    let ghost whole = parts(components@);
    assert(text@ =~= Seq::<char>::empty());
    assert(whole.subrange(0, whole.len() as int) =~= whole);
    while index < components.len()
        invariant
            index <= components.len(),
            whole == parts(components@),
            climbing(Seq::empty(), whole) == climbing(
                text@,
                whole.subrange(index as int, whole.len() as int),
            ),
        decreases components.len() - index,
    {
        proof {
            let here = whole.subrange(index as int, whole.len() as int);
            assert(here[0] == components[index as int]@);
            assert(here.drop_first() =~= whole.subrange(index + 1, whole.len() as int));
        }
        match &components[index] {
            PathComponent::Normal(_) => {
                push_slash_component(&mut text, "..");
            },
            PathComponent::RootDir => {
                return None;
            },
            PathComponent::Prefix(_) => {
                return None;
            },
            _ => {},
        }
        index += 1;
    }
    Some(text)
}

/// The number of leading components from `from` on that two paths share.
pub open spec fn common_length(
    platform: Platform,
    left: Seq<PathPart>,
    right: Seq<PathPart>,
    from: int,
) -> int
    decreases left.len() - from,
{
    if from < left.len() && from < right.len() && matching_parts(
        platform,
        left[from],
        right[from],
    ) {
        common_length(platform, left, right, from + 1)
    } else {
        from
    }
}

/// The way from `base` to `path` with `/` between the names: the rest of `path` where it lies below
/// `base`, and otherwise a way over the part that they share. `None` where they share nothing.
pub open spec fn relative_path(
    platform: Platform,
    base: Seq<PathPart>,
    path: Seq<PathPart>,
) -> Option<Seq<char>> {
    if path_below(path, base) {
        slashed(Seq::empty(), path.subrange(base.len() as int, path.len() as int))
    } else {
        let common = common_length(platform, base, path, 0);
        if common == 0 {
            None
        } else {
            match climbing(Seq::empty(), base.subrange(common, base.len() as int)) {
                Some(text) => slashed(text, path.subrange(common, path.len() as int)),
                None => None,
            }
        }
    }
}

/// The way from `base` to `path` with `/` between the names.
pub fn relative_slash_path(
    base: &[PathComponent],
    path: &[PathComponent],
    platform: Platform,
) -> (result: Option<String>)
    ensures
        text::optional_text(result) == relative_path(platform, parts(base@), parts(path@)),
{
    let ghost base_parts = parts(base@);
    let ghost path_parts = parts(path@);
    if path_starts_with(path, base) {
        let rest: &[PathComponent] = &path[base.len()..path.len()];
        assert(parts(rest@) =~= path_parts.subrange(base.len() as int, path.len() as int));
        return relative_components_to_slash(rest);
    }
    let mut common: usize = 0;
    while common < base.len() && common < path.len() && components_equal(
        &base[common],
        &path[common],
        platform,
    )
        invariant
            common <= base.len(),
            common <= path.len(),
            base_parts == parts(base@),
            path_parts == parts(path@),
            common_length(platform, base_parts, path_parts, 0) == common_length(
                platform,
                base_parts,
                path_parts,
                common as int,
            ),
        decreases base.len() - common,
    {
        common += 1;
    }
    if common == 0 {
        return None;
    }
    let above: &[PathComponent] = &base[common..base.len()];
    assert(parts(above@) =~= base_parts.subrange(common as int, base.len() as int));
    let text: String = match climb(above) {
        Some(text) => text,
        None => {
            return None;
        },
    };
    let rest: &[PathComponent] = &path[common..path.len()];
    assert(parts(rest@) =~= path_parts.subrange(common as int, path.len() as int));
    push_components(text, rest)
}

/// Where a path leads, without its `.` and `..`: a `..` takes off the name before it, and does
/// nothing behind a root.
pub open spec fn normalized(path: Seq<PathPart>) -> Seq<PathPart>
    decreases path.len(),
{
    if path.len() == 0 {
        path
    } else {
        let before = normalized(path.drop_last());
        match path.last() {
            PathPart::CurDir => before,
            PathPart::ParentDir => if file_name(before) is Some {
                before.drop_last()
            } else {
                before
            },
            _ => before.push(path.last()),
        }
    }
}

/// Takes the `.` and `..` out of a path.
pub fn lexical_normalize(path: &[PathComponent]) -> (result: Vec<PathComponent>)
    ensures
        parts(result@) == normalized(parts(path@)),
{
    let mut result: Vec<PathComponent> = Vec::new();
    let mut index: usize = 0;
    let ghost whole = parts(path@);
    assert(parts(result@) =~= whole.subrange(0, 0));
    while index < path.len()
        invariant
            index <= path.len(),
            whole == parts(path@),
            parts(result@) == normalized(whole.subrange(0, index as int)),
        decreases path.len() - index,
    {
        let ghost before = parts(result@);
        proof {
            let here = whole.subrange(0, index + 1);
            assert(here.last() == path[index as int]@);
            assert(here.drop_last() =~= whole.subrange(0, index as int));
        }
        match &path[index] {
            PathComponent::CurDir => {},
            PathComponent::ParentDir => {
                if path_file_name(result.as_slice()).is_some() {
                    result.pop();
                    assert(parts(result@) =~= before.drop_last());
                }
            },
            component => {
                result.push(component.clone());
                assert(parts(result@) =~= before.push(path[index as int]@));
            },
        }
        index += 1;
    }
    assert(whole.subrange(0, path.len() as int) =~= whole);
    result
}

/// `path` as seen from `base`: a path with a prefix stands alone, one with a root keeps the prefix
/// of `base`, and any other lies below `base`.
pub open spec fn joined(base: Seq<PathPart>, path: Seq<PathPart>) -> Seq<PathPart> {
    if path.len() > 0 && path[0] is Prefix {
        path
    } else if path.len() > 0 && path[0] is RootDir {
        if base.len() > 0 && base[0] is Prefix {
            seq![base[0]] + path
        } else {
            path
        }
    } else {
        base + path
    }
}

/// `path` as seen from `base`, without `.` and `..`.
pub fn absolute_path_from(base: &[PathComponent], path: &[PathComponent]) -> (result: Vec<
    PathComponent,
>)
    ensures
        parts(result@) == normalized(joined(parts(base@), parts(path@))),
{
    let mut whole: Vec<PathComponent> = Vec::new();
    let has_prefix: bool = if path.len() > 0 {
        matches!(&path[0], PathComponent::Prefix(_))
    } else {
        false
    };
    let has_root: bool = if path.len() > 0 {
        matches!(&path[0], PathComponent::RootDir)
    } else {
        false
    };
    let base_has_prefix: bool = if base.len() > 0 {
        matches!(&base[0], PathComponent::Prefix(_))
    } else {
        false
    };
    assert(parts(whole@) =~= Seq::<PathPart>::empty());
    if has_root && base_has_prefix {
        whole.push(base[0].clone());
        assert(parts(whole@) =~= seq![parts(base@)[0]]);
    } else if !has_prefix && !has_root {
        append_path(&mut whole, base);
        assert(parts(whole@) =~= parts(base@));
    }
    append_path(&mut whole, path);
    assert(parts(whole@) =~= joined(parts(base@), parts(path@)));
    lexical_normalize(whole.as_slice())
}

/// Normalizing twice is normalizing once.
pub proof fn normalizing_is_idempotent(path: Seq<PathPart>)
    ensures
        normalized(normalized(path)) == normalized(path),
    decreases path.len(),
{
    lemma_normalized_has_no_dots(path);
    lemma_without_dots(normalized(path));
}

/// A normalized path holds neither `.` nor `..`.
pub proof fn lemma_normalized_has_no_dots(path: Seq<PathPart>)
    ensures
        forall|i: int|
            0 <= i < normalized(path).len() ==> !(#[trigger] normalized(path)[i] is CurDir)
                && !(normalized(path)[i] is ParentDir),
    decreases path.len(),
{
    if path.len() > 0 {
        lemma_normalized_has_no_dots(path.drop_last());
    }
}

proof fn lemma_without_dots(path: Seq<PathPart>)
    requires
        forall|i: int|
            0 <= i < path.len() ==> !(#[trigger] path[i] is CurDir) && !(path[i] is ParentDir),
    ensures
        normalized(path) == path,
    decreases path.len(),
{
    if path.len() > 0 {
        assert forall|i: int| 0 <= i < path.drop_last().len() implies !(
        #[trigger] path.drop_last()[i] is CurDir) && !(path.drop_last()[i] is ParentDir) by {
            assert(path.drop_last()[i] == path[i]);
        }
        lemma_without_dots(path.drop_last());
        assert(path.last() == path[path.len() - 1]);
        assert(path.drop_last().push(path.last()) =~= path);
    }
}

/// Whether a path starts with `\\?\`, behind which only the backslash separates.
pub open spec fn is_verbatim(path: Seq<u8>) -> bool {
    &&& path.len() >= 4
    &&& path[0] == BACKSLASH
    &&& path[1] == BACKSLASH
    &&& path[2] == QUESTION
    &&& path[3] == BACKSLASH
}

/// Whether a name may follow a path without a separator between them: the path is empty, ends in a
/// separator, or is a drive and a colon.
pub open spec fn takes_name_directly(platform: Platform, path: Seq<u8>) -> bool {
    ||| path.len() == 0
    ||| match platform {
        Platform::Windows => {
            ||| path.last() == BACKSLASH
            ||| path.last() == SLASH && !is_verbatim(path)
            ||| path.len() == 2 && path[1] == COLON && (0x41 <= path[0] <= 0x5a || 0x61 <= path[0]
                <= 0x7a)
        },
        Platform::Other => path.last() == SLASH,
    }
}

/// The separator that is put between a path and a name.
pub open spec fn separator(platform: Platform) -> u8 {
    match platform {
        Platform::Windows => BACKSLASH,
        Platform::Other => SLASH,
    }
}

/// A directory's path as it is shown with the name of an entry behind it.
pub open spec fn shown_join(platform: Platform, directory: Seq<u8>, name: Seq<u8>) -> Seq<u8> {
    if takes_name_directly(platform, directory) {
        directory + name
    } else {
        directory.push(separator(platform)) + name
    }
}

/// Puts the name of an entry behind its directory's path as it is shown, which is kept as it is.
pub fn join_shown(directory: &[u8], name: &[u8], platform: Platform) -> (result: Vec<u8>)
    ensures
        result@ == shown_join(platform, directory@, name@),
{
    let mut result: Vec<u8> = copy_bytes(directory);
    let length: usize = directory.len();
    let direct: bool = length == 0 || match platform {
        Platform::Windows => {
            let last: u8 = directory[length - 1];
            let verbatim: bool = length >= 4 && directory[0] == BACKSLASH && directory[1]
                == BACKSLASH && directory[2] == QUESTION && directory[3] == BACKSLASH;
            last == BACKSLASH || (last == SLASH && !verbatim) || (length == 2 && directory[1]
                == COLON && ((0x41 <= directory[0] && directory[0] <= 0x5a) || (0x61
                <= directory[0] && directory[0] <= 0x7a)))
        },
        Platform::Other => directory[length - 1] == SLASH,
    };
    if !direct {
        result.push(
            match platform {
                Platform::Windows => BACKSLASH,
                Platform::Other => SLASH,
            },
        );
    }
    result.extend_from_slice(name);
    assert(result@ =~= shown_join(platform, directory@, name@));
    result
}

/// Entries of one directory with different names are shown under different paths.
pub proof fn names_are_shown_apart(
    platform: Platform,
    directory: Seq<u8>,
    first: Seq<u8>,
    second: Seq<u8>,
)
    requires
        shown_join(platform, directory, first) == shown_join(platform, directory, second),
    ensures
        first == second,
{
    let start = if takes_name_directly(platform, directory) {
        directory
    } else {
        directory.push(separator(platform))
    };
    let shown = shown_join(platform, directory, first);
    assert(shown.subrange(start.len() as int, shown.len() as int) =~= first);
    assert(shown.subrange(start.len() as int, shown.len() as int) =~= second);
}

} // verus!

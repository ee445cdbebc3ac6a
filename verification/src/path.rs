//! The names of the entries of a share.
//!
//! A path comes as the sequence of its components. Its name is written with
//! `/` between the components, and only a path of plain names has one.

use crate::text::{contains_char, join, split};
use vstd::prelude::*;

verus! {

/// One component of a path.
#[derive(Clone, Debug, PartialEq, Eq)]
pub enum PathPart {
    /// A drive or share prefix.
    Prefix,
    /// The root directory.
    RootDir,
    /// The directory itself, `.`.
    CurDir,
    /// The directory above, `..`.
    ParentDir,
    /// A name.
    Normal(String),
    /// A name that is not valid Unicode.
    NonUnicode,
}

/// Why a path has no name.
#[derive(Clone, Debug, PartialEq, Eq)]
pub enum PathError {
    /// A component is not valid Unicode.
    InvalidCharacter,
    /// This component is not a plain name, or not one that may stand here.
    InvalidPathComponent(PathPart),
}

/// A component of a path, as contracts see it.
pub enum PartView {
    Prefix,
    RootDir,
    CurDir,
    ParentDir,
    Normal(Seq<char>),
    NonUnicode,
}

/// An error, as contracts see it.
pub enum PathErrorView {
    InvalidCharacter,
    InvalidPathComponent(PartView),
}

impl View for PathPart {
    type V = PartView;

    open spec fn view(&self) -> PartView {
        match self {
            PathPart::Prefix => PartView::Prefix,
            PathPart::RootDir => PartView::RootDir,
            PathPart::CurDir => PartView::CurDir,
            PathPart::ParentDir => PartView::ParentDir,
            PathPart::Normal(name) => PartView::Normal(name@),
            PathPart::NonUnicode => PartView::NonUnicode,
        }
    }
}

impl View for PathError {
    type V = PathErrorView;

    open spec fn view(&self) -> PathErrorView {
        match self {
            PathError::InvalidCharacter => PathErrorView::InvalidCharacter,
            PathError::InvalidPathComponent(part) => PathErrorView::InvalidPathComponent(part@),
        }
    }
}

/// The components of a path, as contracts see them.
pub open spec fn views(parts: Seq<PathPart>) -> Seq<PartView> {
    Seq::new(parts.len(), |i: int| parts[i]@)
}

/// Whether a text is a plain name: not empty, not `.` and not `..`, and
/// without a path separator of any platform.
pub open spec fn is_plain_name(name: Seq<char>) -> bool {
    &&& name.len() > 0
    &&& !(name.len() == 1 && name[0] == '.')
    &&& !(name.len() == 2 && name[0] == '.' && name[1] == '.')
    &&& !name.contains('/')
    &&& !name.contains('\\')
}

/// What is wrong with a component, if anything: only a plain name is right,
/// and the root directory where the path need not be relative.
pub open spec fn part_error(part: PartView, must_be_relative: bool) -> Option<PathErrorView> {
    match part {
        PartView::Normal(name) => if is_plain_name(name) {
            None
        } else {
            Some(PathErrorView::InvalidPathComponent(part))
        },
        PartView::NonUnicode => Some(PathErrorView::InvalidCharacter),
        PartView::RootDir => if must_be_relative {
            Some(PathErrorView::InvalidPathComponent(part))
        } else {
            None
        },
        _ => Some(PathErrorView::InvalidPathComponent(part)),
    }
}

/// What is wrong with the first component of a path that has something
/// wrong with it.
pub open spec fn first_error(parts: Seq<PartView>, must_be_relative: bool) -> Option<
    PathErrorView,
>
    decreases parts.len(),
{
    if parts.len() == 0 {
        None
    } else {
        match first_error(parts.drop_last(), must_be_relative) {
            Some(error) => Some(error),
            None => part_error(parts.last(), must_be_relative),
        }
    }
}

/// One `/` for each root directory among the components.
pub open spec fn root_prefix(parts: Seq<PartView>) -> Seq<char>
    decreases parts.len(),
{
    if parts.len() == 0 {
        Seq::empty()
    } else if parts.last() is RootDir {
        root_prefix(parts.drop_last()).push('/')
    } else {
        root_prefix(parts.drop_last())
    }
}

/// The names among the components, in their order.
pub open spec fn names_of(parts: Seq<PartView>) -> Seq<Seq<char>>
    decreases parts.len(),
{
    if parts.len() == 0 {
        Seq::empty()
    } else {
        match parts.last() {
            PartView::Normal(name) => names_of(parts.drop_last()).push(name),
            _ => names_of(parts.drop_last()),
        }
    }
}

/// The name of a path: a `/` for each root directory, then the names of the
/// components with `/` between them. A path in which a component is not
/// right has the error of the first such component instead.
pub open spec fn normalized(parts: Seq<PartView>, must_be_relative: bool) -> Result<
    Seq<char>,
    PathErrorView,
> {
    match first_error(parts, must_be_relative) {
        Some(error) => Err(error),
        None => Ok(root_prefix(parts) + join(names_of(parts), '/')),
    }
}

/// The component that a piece of a name stands for: a name, or the root
/// directory where the piece is empty.
pub open spec fn piece_part(piece: Seq<char>) -> PartView {
    if piece.len() == 0 {
        PartView::RootDir
    } else {
        PartView::Normal(piece)
    }
}

/// The components that a name is read back as: the pieces between its `/`,
/// an empty piece standing for the root directory, and nothing for what
/// follows the last `/` if that is empty.
pub open spec fn name_parts(name: Seq<char>) -> Seq<PartView> {
    let pieces = split(name, '/');
    let kept = if pieces.len() > 0 && pieces.last().len() == 0 {
        pieces.drop_last()
    } else {
        pieces
    };
    Seq::new(kept.len(), |i: int| piece_part(kept[i]))
}

/// Decides whether a text is a plain name.
pub fn is_plain(name: &str) -> (plain: bool)
    ensures
        plain == is_plain_name(name@),
{
    let n = name.unicode_len();
    if n == 0 {
        return false;
    }
    if n == 1 && name.get_char(0) == '.' {
        return false;
    }
    if n == 2 && name.get_char(0) == '.' && name.get_char(1) == '.' {
        return false;
    }
    !contains_char(name, '/') && !contains_char(name, '\\')
}

impl PathPart {
    /// A copy of the component.
    pub fn duplicate(&self) -> (copy: PathPart)
        ensures
            copy == *self,
    {
        match self {
            PathPart::Prefix => PathPart::Prefix,
            PathPart::RootDir => PathPart::RootDir,
            PathPart::CurDir => PathPart::CurDir,
            PathPart::ParentDir => PathPart::ParentDir,
            PathPart::Normal(name) => PathPart::Normal(name.clone()),
            PathPart::NonUnicode => PathPart::NonUnicode,
        }
    }
}

/// Writes the name of a path that is made of plain names.
///
/// The result is [`normalized`] of the components: the names with `/`
/// between them, after a `/` for the root directory where `must_be_relative`
/// lets it stand. A component that is not a name, or a name that is empty,
/// `.` or `..` or holds `/` or `\`, makes the path invalid; the error is that
/// of the first such component.
pub fn canonicalized_path_to_string(path: &[PathPart], must_be_relative: bool) -> (result: Result<
    String,
    PathError,
>)
    ensures
        match result {
            Ok(name) => normalized(views(path@), must_be_relative) == Ok::<
                Seq<char>,
                PathErrorView,
            >(name@),
            Err(error) => normalized(views(path@), must_be_relative) == Err::<
                Seq<char>,
                PathErrorView,
            >(error@),
        },
{
    let ghost parts = views(path@);
    let mut prefix = String::new();
    let mut names = String::new();
    let mut any_name = false;
    let mut i: usize = 0;
    proof {
        reveal_strlit("/");
        assert(parts.take(0) =~= Seq::<PartView>::empty());
    }
    while i < path.len()
        invariant
            i <= path.len(),
            parts == views(path@),
            "/"@ == seq!['/'],
            first_error(parts.take(i as int), must_be_relative) is None,
            prefix@ == root_prefix(parts.take(i as int)),
            names@ == join(names_of(parts.take(i as int)), '/'),
            any_name == (names_of(parts.take(i as int)).len() > 0),
        decreases path.len() - i,
    {
        proof {
            assert(parts.take(i + 1).drop_last() =~= parts.take(i as int));
            assert(parts.take(i + 1).last() == path@[i as int]@);
            lemma_first_error_prefix(parts, must_be_relative, i + 1);
        }
        let ghost before = names_of(parts.take(i as int));
        match &path[i] {
            PathPart::Normal(name) => {
                if !is_plain(name.as_str()) {
                    return Err(PathError::InvalidPathComponent(path[i].duplicate()));
                }
                if any_name {
                    names.append("/");
                }
                names.append(name.as_str());
                any_name = true;
                proof {
                    let after = names_of(parts.take(i + 1));
                    assert(after == before.push(name@));
                    assert(after.drop_last() =~= before);
                    assert(names@ =~= join(after, '/'));
                }
            },
            PathPart::NonUnicode => {
                return Err(PathError::InvalidCharacter);
            },
            PathPart::RootDir => {
                if must_be_relative {
                    return Err(PathError::InvalidPathComponent(PathPart::RootDir));
                }
                prefix.append("/");
            },
            _ => {
                return Err(PathError::InvalidPathComponent(path[i].duplicate()));
            },
        }
        i += 1;
    }
    proof {
        assert(parts.take(i as int) =~= parts);
    }
    prefix.append(names.as_str());
    Ok(prefix)
}

/// A path whose beginning has something wrong with it has the same wrong
/// with it.
proof fn lemma_first_error_prefix(parts: Seq<PartView>, must_be_relative: bool, k: int)
    requires
        0 <= k <= parts.len(),
    ensures
        first_error(parts.take(k), must_be_relative) is Some ==> first_error(
            parts,
            must_be_relative,
        ) == first_error(parts.take(k), must_be_relative),
    decreases parts.len(),
{
    if k == parts.len() {
        assert(parts.take(k) =~= parts);
    } else {
        lemma_first_error_prefix(parts.drop_last(), must_be_relative, k);
        assert(parts.drop_last().take(k) =~= parts.take(k));
    }
}

/// So many `/`.
pub open spec fn slashes(count: nat) -> Seq<char> {
    Seq::new(count, |i: int| '/')
}

/// The path of so many root directories and then the given names.
pub open spec fn rooted_names(roots: nat, names: Seq<Seq<char>>) -> Seq<PartView> {
    Seq::new(
        roots + names.len(),
        |i: int|
            if i < roots {
                PartView::RootDir
            } else {
                PartView::Normal(names[i - roots])
            },
    )
}

/// What a path without errors is made of: its names are plain, and before
/// them stands a `/` for each root directory, none in a relative path.
proof fn lemma_parts_without_error(parts: Seq<PartView>, must_be_relative: bool)
    requires
        first_error(parts, must_be_relative) is None,
    ensures
        root_prefix(parts) == slashes(root_prefix(parts).len()),
        must_be_relative ==> root_prefix(parts).len() == 0,
        root_prefix(parts).len() + names_of(parts).len() == parts.len(),
        forall|i: int|
            0 <= i < names_of(parts).len() ==> is_plain_name(#[trigger] names_of(parts)[i]),
    decreases parts.len(),
{
    let names = names_of(parts);
    if parts.len() > 0 {
        let shorter = parts.drop_last();
        lemma_parts_without_error(shorter, must_be_relative);
        assert(root_prefix(parts) =~= slashes(root_prefix(parts).len()));
        assert forall|i: int| 0 <= i < names.len() implies is_plain_name(#[trigger] names[i]) by {
            if i < names_of(shorter).len() {
                assert(names[i] == names_of(shorter)[i]);
            }
        }
    } else {
        assert(root_prefix(parts) =~= slashes(0));
    }
}

/// A relative path without errors is the path of its names.
proof fn lemma_relative_parts_are_names(parts: Seq<PartView>)
    requires
        first_error(parts, true) is None,
    ensures
        parts == rooted_names(0, names_of(parts)),
    decreases parts.len(),
{
    if parts.len() > 0 {
        let shorter = parts.drop_last();
        lemma_relative_parts_are_names(shorter);
        lemma_parts_without_error(parts, true);
        lemma_parts_without_error(shorter, true);
        let names = names_of(parts);
        assert forall|i: int| 0 <= i < parts.len() implies parts[i] == rooted_names(0, names)[i] by {
            if i < parts.len() - 1 {
                assert(parts[i] == shorter[i]);
                assert(shorter[i] == rooted_names(0, names_of(shorter))[i]);
            }
        }
    }
    assert(parts =~= rooted_names(0, names_of(parts)));
}

/// The path of some root directories and plain names is without errors
/// where the root may stand, and has those roots and those names.
proof fn lemma_rooted_names(roots: nat, names: Seq<Seq<char>>, must_be_relative: bool)
    requires
        must_be_relative ==> roots == 0,
        forall|i: int| 0 <= i < names.len() ==> is_plain_name(#[trigger] names[i]),
    ensures
        first_error(rooted_names(roots, names), must_be_relative) is None,
        root_prefix(rooted_names(roots, names)) == slashes(roots),
        names_of(rooted_names(roots, names)) == names,
    decreases names.len(), roots,
{
    let parts = rooted_names(roots, names);
    if names.len() > 0 {
        let before = names.drop_last();
        assert forall|i: int| 0 <= i < before.len() implies is_plain_name(#[trigger] before[i]) by {
            assert(before[i] == names[i]);
        }
        lemma_rooted_names(roots, before, must_be_relative);
        assert(parts.drop_last() =~= rooted_names(roots, before));
        assert(parts.last() == PartView::Normal(names.last()));
        assert(is_plain_name(names[names.len() - 1]));
        assert(names_of(parts) =~= names);
    } else if roots > 0 {
        lemma_rooted_names((roots - 1) as nat, names, must_be_relative);
        assert(parts.drop_last() =~= rooted_names((roots - 1) as nat, names));
        assert(parts.last() == PartView::RootDir);
        assert(root_prefix(parts) =~= slashes(roots));
        assert(names_of(parts) =~= names);
    } else {
        assert(root_prefix(parts) =~= slashes(0));
        assert(names_of(parts) =~= names);
    }
}

/// How the name of some root directories and plain names is read back: as
/// those root directories and those names.
proof fn lemma_name_parts_of_rooted_names(roots: nat, names: Seq<Seq<char>>)
    requires
        forall|i: int| 0 <= i < names.len() ==> is_plain_name(#[trigger] names[i]),
    ensures
        name_parts(slashes(roots) + join(names, '/')) == rooted_names(roots, names),
{
    let name = slashes(roots) + join(names, '/');
    let pieces = split(name, '/');
    let empties = Seq::new(roots, |i: int| Seq::<char>::empty());
    if names.len() == 0 {
        assert(name =~= slashes(roots));
        crate::text::lemma_split_separators(roots, '/');
        assert(pieces.drop_last() =~= empties);
        assert(name_parts(name) =~= rooted_names(roots, names));
    } else {
        assert forall|i: int| 0 <= i < names.len() implies !(#[trigger] names[i]).contains(
            '/',
        ) by {
            assert(is_plain_name(names[i]));
        }
        if roots == 0 {
            crate::text::lemma_split_join(names, '/');
            assert(name =~= join(names, '/'));
        } else {
            let front = slashes((roots - 1) as nat);
            crate::text::lemma_split_prepend(front, names, '/');
            crate::text::lemma_split_separators((roots - 1) as nat, '/');
            assert(name =~= front.push('/') + join(names, '/'));
        }
        assert(pieces =~= empties + names);
        assert(is_plain_name(names[names.len() - 1]));
        assert(pieces.last() == names.last());
        assert forall|i: int| 0 <= i < pieces.len() implies piece_part(pieces[i]) == rooted_names(
            roots,
            names,
        )[i] by {
            if i >= roots {
                assert(pieces[i] == names[i - roots]);
                assert(is_plain_name(names[i - roots]));
            }
        }
        assert(name_parts(name) =~= rooted_names(roots, names));
    }
}

/// Normalization is idempotent: the name of a path, read back as a path,
/// has that same name.
pub proof fn lemma_normalization_idempotent(
    parts: Seq<PartView>,
    must_be_relative: bool,
    name: Seq<char>,
)
    requires
        normalized(parts, must_be_relative) == Ok::<Seq<char>, PathErrorView>(name),
    ensures
        normalized(name_parts(name), must_be_relative) == Ok::<Seq<char>, PathErrorView>(name),
{
    lemma_parts_without_error(parts, must_be_relative);
    let roots = root_prefix(parts).len();
    let names = names_of(parts);
    lemma_name_parts_of_rooted_names(roots, names);
    lemma_rooted_names(roots, names, must_be_relative);
}

/// A text that is joined of texts without some character does not hold that
/// character, unless it is the separator.
proof fn lemma_join_lacks(texts: Seq<Seq<char>>, separator: char, c: char)
    requires
        c != separator,
        forall|i: int| 0 <= i < texts.len() ==> !(#[trigger] texts[i]).contains(c),
    ensures
        !join(texts, separator).contains(c),
    decreases texts.len(),
{
    let joined = join(texts, separator);
    if texts.len() > 1 {
        let before = texts.drop_last();
        assert forall|i: int| 0 <= i < before.len() implies !(#[trigger] before[i]).contains(
            c,
        ) by {
            assert(before[i] == texts[i]);
        }
        lemma_join_lacks(before, separator, c);
        if joined.contains(c) {
            let k = choose|k: int| 0 <= k < joined.len() && joined[k] == c;
            let front = join(before, separator);
            if k < front.len() {
                assert(front[k] == c);
                assert(front.contains(c));
            } else {
                assert(texts[texts.len() - 1][k - front.len() - 1] == c);
                assert(texts[texts.len() - 1].contains(c));
            }
        }
    } else if texts.len() == 1 {
        assert(!texts[0].contains(c));
    }
}

/// The name of a relative path is safe to use below any directory: it holds
/// no `\`, and the pieces between its `/` are the names of the path, one by
/// one, each a plain name.
pub proof fn lemma_relative_name_is_safe(parts: Seq<PartView>, name: Seq<char>)
    requires
        normalized(parts, true) == Ok::<Seq<char>, PathErrorView>(name),
    ensures
        !name.contains('\\'),
        name == join(names_of(parts), '/'),
        parts == rooted_names(0, names_of(parts)),
        forall|i: int|
            0 <= i < names_of(parts).len() ==> is_plain_name(#[trigger] names_of(parts)[i]),
        parts.len() > 0 ==> split(name, '/') == names_of(parts),
{
    let names = names_of(parts);
    lemma_parts_without_error(parts, true);
    lemma_relative_parts_are_names(parts);
    assert(root_prefix(parts) =~= Seq::<char>::empty());
    assert(Seq::<char>::empty() + join(names, '/') =~= join(names, '/'));
    assert forall|i: int| 0 <= i < names.len() implies !(#[trigger] names[i]).contains('\\') by {
        assert(is_plain_name(names[i]));
    }
    lemma_join_lacks(names, '/', '\\');
    if parts.len() > 0 {
        assert forall|i: int| 0 <= i < names.len() implies !(#[trigger] names[i]).contains(
            '/',
        ) by {
            assert(is_plain_name(names[i]));
        }
        crate::text::lemma_split_join(names, '/');
    }
}

/// Names are unique: two relative paths with the same name are the same
/// path.
pub proof fn lemma_names_are_unique(first: Seq<PartView>, second: Seq<PartView>, name: Seq<char>)
    requires
        normalized(first, true) == Ok::<Seq<char>, PathErrorView>(name),
        normalized(second, true) == Ok::<Seq<char>, PathErrorView>(name),
    ensures
        first == second,
{
    lemma_relative_name_is_safe(first, name);
    lemma_relative_name_is_safe(second, name);
    let names = names_of(first);
    let others = names_of(second);
    if first.len() == 0 || second.len() == 0 {
        crate::text::lemma_join_empty(names, '/');
        crate::text::lemma_join_empty(others, '/');
        if names.len() > 0 {
            assert(is_plain_name(names[0]));
        }
        if others.len() > 0 {
            assert(is_plain_name(others[0]));
        }
        assert(names.len() == first.len());
        assert(others.len() == second.len());
        assert(first =~= second);
    }
}

} // verus!

//! Relative patch paths: their components, lexical normalization, and the
//! lexical checks that a patch path must pass before it is resolved on disk.

use vstd::prelude::*;

verus! {

/// One component of a path, as `std::path::Component` tells them apart.
#[derive(Debug, PartialEq)]
pub enum PathPart {
    /// A Windows prefix such as `C:`.
    Prefix,
    /// The root directory `/`.
    RootDir,
    /// `.` at the start of a path.
    CurDir,
    /// `..`.
    ParentDir,
    /// Any other name.
    Normal(String),
}

/// What a path component stands for.
pub enum PartView {
    Prefix,
    RootDir,
    CurDir,
    ParentDir,
    Normal(Seq<char>),
}

impl View for PathPart {
    type V = PartView;

    open spec fn view(&self) -> PartView {
        match self {
            PathPart::Prefix => PartView::Prefix,
            PathPart::RootDir => PartView::RootDir,
            PathPart::CurDir => PartView::CurDir,
            PathPart::ParentDir => PartView::ParentDir,
            PathPart::Normal(s) => PartView::Normal(s@),
        }
    }
}

/// The views of a sequence of components.
pub open spec fn parts_view(parts: Seq<PathPart>) -> Seq<PartView> {
    parts.map_values(|p: PathPart| p@)
}

/// The texts of a sequence of strings.
pub open spec fn texts(v: Seq<String>) -> Seq<Seq<char>> {
    v.map_values(|s: String| s@)
}

/// The components that `std::path::Path::components` yields for the path
/// text `path`.
pub uninterp spec fn path_components_of(path: Seq<char>) -> Seq<PartView>;

/// Whether `std::path::Path::is_absolute` holds of the path text `path`.
pub uninterp spec fn path_is_absolute_of(path: Seq<char>) -> bool;

/// Splits `path` with `std::path::Path::components`, one `PathPart` per
/// component, in order; the claim is only that the result is the components
/// of this text (a `Normal` name is a piece of the text, so it converts to a
/// `String` unchanged).
#[verifier::external_body]
pub(crate) fn path_components(path: &str) -> (res: Vec<PathPart>)
    ensures
        parts_view(res@) == path_components_of(path@),
{
    let mut parts = Vec::new();
    for c in std::path::Path::new(path).components() {
        parts.push(match c {
            std::path::Component::Prefix(_) => PathPart::Prefix,
            std::path::Component::RootDir => PathPart::RootDir,
            std::path::Component::CurDir => PathPart::CurDir,
            std::path::Component::ParentDir => PathPart::ParentDir,
            std::path::Component::Normal(name) => PathPart::Normal(
                name.to_string_lossy().into_owned(),
            ),
        });
    }
    parts
}

/// Asks `std::path::Path::is_absolute` of the path text `path`; the claim is
/// only that the answer is that function's on this text.
#[verifier::external_body]
pub(crate) fn path_is_absolute(path: &str) -> (res: bool)
    ensures
        res == path_is_absolute_of(path@),
{
    std::path::Path::new(path).is_absolute()
}

/// Whether `name` names one entry of its directory, as a `Normal`
/// component does: it is not empty, is neither `.` nor `..`, and holds no
/// `/`.
pub open spec fn plain_name(name: Seq<char>) -> bool {
    &&& name.len() > 0
    &&& name != seq!['.']
    &&& name != seq!['.', '.']
    &&& !name.contains('/')
}

/// Whether `name` is a plain name (see `plain_name`).
pub fn is_plain_name(name: &String) -> (res: bool)
    ensures
        res == plain_name(name@),
{
    let chars = crate::text::to_chars(name.as_str());
    let n = chars.len();
    if n == 0 {
        return false;
    }
    if n == 1 && chars[0] == '.' {
        assert(name@ =~= seq!['.']);
        return false;
    }
    if n == 2 && chars[0] == '.' && chars[1] == '.' {
        assert(name@ =~= seq!['.', '.']);
        return false;
    }
    let mut i: usize = 0;
    while i < n
        invariant
            i <= n,
            n == chars@.len(),
            chars@ == name@,
            forall|j: int| 0 <= j < i ==> chars@[j] != '/',
        decreases n - i,
    {
        if chars[i] == '/' {
            assert(name@.contains('/')) by {
                assert(name@[i as int] == '/');
            }
            return false;
        }
        i = i + 1;
    }
    assert(name@ != seq!['.']) by {
        if n == 1 {
            assert(name@[0] != seq!['.'][0]);
        }
    }
    assert(name@ != seq!['.', '.']) by {
        if n == 2 {
            if name@[0] == '.' {
                assert(name@[1] != seq!['.', '.'][1]);
            } else {
                assert(name@[0] != seq!['.', '.'][0]);
            }
        }
    }
    true
}

/// Applies `parts` to the relative path `acc`: `.` stays, a name is pushed,
/// `..` pops the last name (no path when there is none to pop), and a root
/// or prefix gives no path.
pub open spec fn normalize_onto(acc: Seq<Seq<char>>, parts: Seq<PartView>) -> Option<
    Seq<Seq<char>>,
>
    decreases parts.len(),
{
    if parts.len() == 0 {
        Some(acc)
    } else {
        match parts[0] {
            PartView::CurDir => normalize_onto(acc, parts.drop_first()),
            PartView::Normal(name) => normalize_onto(acc.push(name), parts.drop_first()),
            PartView::ParentDir => if acc.len() == 0 {
                None
            } else {
                normalize_onto(acc.drop_last(), parts.drop_first())
            },
            _ => None,
        }
    }
}

/// The names of the relative path that `parts` denote, or `None` when they
/// climb above their start or are not relative.
pub open spec fn normalized(parts: Seq<PartView>) -> Option<Seq<Seq<char>>> {
    normalize_onto(seq![], parts)
}

proof fn lemma_normalize_split(acc: Seq<Seq<char>>, parts: Seq<PartView>, i: int)
    requires
        0 <= i <= parts.len(),
    ensures
        normalize_onto(acc, parts) == match normalize_onto(acc, parts.take(i)) {
            Some(mid) => normalize_onto(mid, parts.skip(i)),
            None => None,
        },
    decreases i,
{
    if i > 0 {
        assert(parts.take(i).drop_first() =~= parts.drop_first().take(i - 1));
        assert(parts.skip(i) =~= parts.drop_first().skip(i - 1));
        assert(parts.take(i)[0] == parts[0]);
        match parts[0] {
            PartView::CurDir => lemma_normalize_split(acc, parts.drop_first(), i - 1),
            PartView::Normal(name) => lemma_normalize_split(
                acc.push(name),
                parts.drop_first(),
                i - 1,
            ),
            PartView::ParentDir => if acc.len() > 0 {
                lemma_normalize_split(acc.drop_last(), parts.drop_first(), i - 1)
            },
            _ => {},
        }
    } else {
        assert(parts.skip(0) =~= parts);
    }
}

/// A copy of `s`.
pub fn clone_text(s: &String) -> (res: String)
    ensures
        res@ == s@,
{
    s.clone()
}

/// Normalizes the components of a relative path (see `normalized`).
pub fn normalize_components(parts: &[PathPart]) -> (res: Option<Vec<String>>)
    ensures
        match res {
            Some(names) => normalized(parts_view(parts@)) == Some(texts(names@)),
            None => normalized(parts_view(parts@)) is None,
        },
{
    let ghost all = parts_view(parts@);
    let mut names: Vec<String> = Vec::new();
    let mut i: usize = 0;
    assert(all.skip(0) =~= all);
    assert(texts(names@) =~= Seq::<Seq<char>>::empty());
    while i < parts.len()
        invariant
            i <= parts@.len(),
            all == parts_view(parts@),
            normalized(all) == normalize_onto(texts(names@), all.skip(i as int)),
        decreases parts.len() - i,
    {
        let ghost before = texts(names@);
        proof {
            lemma_normalize_split(before, all.skip(i as int), 1);
            assert(all.skip(i as int).take(1) =~= seq![all[i as int]]);
            assert(all.skip(i as int).skip(1) =~= all.skip(i + 1));
            assert(seq![all[i as int]].drop_first() =~= Seq::<PartView>::empty());
        }
        match &parts[i] {
            PathPart::CurDir => {},
            PathPart::Normal(name) => {
                names.push(clone_text(name));
                assert(texts(names@) =~= before.push(name@));
            },
            PathPart::ParentDir => {
                if names.len() == 0 {
                    return None;
                }
                names.pop();
                assert(texts(names@) =~= before.drop_last());
            },
            _ => {
                return None;
            },
        }
        i = i + 1;
    }
    assert(all.skip(i as int) =~= Seq::<PartView>::empty());
    Some(names)
}

/// Normalizes the relative path `path_text` lexically: `.` is dropped, `..`
/// removes the name before it, and a path that climbs above its start, or is
/// rooted, gives `None`.
pub fn normalize_relative_path(path_text: &str) -> (res: Option<Vec<String>>)
    ensures
        match res {
            Some(names) => normalized(path_components_of(path_text@)) == Some(texts(names@)),
            None => normalized(path_components_of(path_text@)) is None,
        },
{
    let parts = path_components(path_text);
    normalize_components(parts.as_slice())
}

/// The lexical verdict on a patch path: the error message, or the names of
/// the relative path that it denotes.
pub open spec fn lexical_verdict(path: Seq<char>) -> Result<Seq<Seq<char>>, Seq<char>> {
    if path.len() == 0 {
        Err("Patch path cannot be empty"@)
    } else if path_is_absolute_of(path) {
        Err("Absolute patch paths are not allowed: "@ + path)
    } else {
        match normalized(path_components_of(path)) {
            None => Err("Patch path escapes workdir: "@ + path),
            Some(names) => if names.len() == 0 {
                Err("Patch path cannot resolve to workdir root: "@ + path)
            } else {
                Ok(names)
            },
        }
    }
}

/// `prefix` followed by `tail`.
pub fn concat(prefix: &str, tail: &str) -> (res: String)
    ensures
        res@ == prefix@ + tail@,
{
    let mut res = String::from_str(prefix);
    res.append(tail);
    res
}

/// The lexical checks on a patch path: it is not empty, not absolute, does
/// not climb above the working directory, and names something below it.
/// On success, the names of the normalized relative path.
pub fn validate_patch_path(path_text: &str) -> (res: Result<Vec<String>, String>)
    ensures
        match res {
            Ok(names) => lexical_verdict(path_text@) == Ok::<Seq<Seq<char>>, Seq<char>>(
                texts(names@),
            ),
            Err(message) => lexical_verdict(path_text@) == Err::<Seq<Seq<char>>, Seq<char>>(
                message@,
            ),
        },
{
    if path_text.is_empty() {
        return Err(String::from_str("Patch path cannot be empty"));
    }
    if path_is_absolute(path_text) {
        return Err(concat("Absolute patch paths are not allowed: ", path_text));
    }
    match normalize_relative_path(path_text) {
        None => Err(concat("Patch path escapes workdir: ", path_text)),
        Some(names) => {
            if names.len() == 0 {
                Err(concat("Patch path cannot resolve to workdir root: ", path_text))
            } else {
                Ok(names)
            }
        },
    }
}


/// The components of a relative path made of the names `names`.
pub open spec fn name_parts(names: Seq<Seq<char>>) -> Seq<PartView> {
    names.map_values(|n: Seq<char>| PartView::Normal(n))
}

proof fn lemma_normalize_names(acc: Seq<Seq<char>>, names: Seq<Seq<char>>)
    ensures
        normalize_onto(acc, name_parts(names)) == Some(acc + names),
    decreases names.len(),
{
    if names.len() == 0 {
        assert(acc + names =~= acc);
    } else {
        assert(name_parts(names).drop_first() =~= name_parts(names.drop_first()));
        lemma_normalize_names(acc.push(names[0]), names.drop_first());
        assert(acc.push(names[0]) + names.drop_first() =~= acc + names);
    }
}

/// Normalizing is idempotent: the components of a normalized path, read
/// again, normalize to the same names.
pub proof fn lemma_normalize_idempotent(parts: Seq<PartView>)
    requires
        normalized(parts) is Some,
    ensures
        normalized(name_parts(normalized(parts)->0)) == normalized(parts),
{
    let names = normalized(parts)->0;
    lemma_normalize_names(seq![], names);
    assert(Seq::<Seq<char>>::empty() + names =~= names);
}

/// `..` undoes a name: a name followed by `..` normalizes as nothing at all.
pub proof fn lemma_parent_undoes_name(name: Seq<char>, rest: Seq<PartView>)
    ensures
        normalized(seq![PartView::Normal(name), PartView::ParentDir] + rest) == normalized(rest),
{
    let parts = seq![PartView::Normal(name), PartView::ParentDir] + rest;
    let one = Seq::<Seq<char>>::empty().push(name);
    assert(parts[0] == PartView::Normal(name));
    assert(normalize_onto(seq![], parts) == normalize_onto(one, parts.drop_first()));
    assert(parts.drop_first()[0] == PartView::ParentDir);
    assert(one.drop_last() =~= Seq::<Seq<char>>::empty());
    assert(parts.drop_first().drop_first() =~= rest);
    assert(normalize_onto(one, parts.drop_first()) == normalize_onto(seq![], rest));
}

/// Plain components are kept as they are: a path made only of names, any
/// names (hidden ones such as `.gitignore` included), normalizes to exactly
/// those names, in order.
pub proof fn lemma_names_normalize_to_themselves(names: Seq<Seq<char>>)
    ensures
        normalized(name_parts(names)) == Some(names),
{
    lemma_normalize_names(seq![], names);
    assert(Seq::<Seq<char>>::empty() + names =~= names);
}

/// The lexical checks refuse a path only for being empty, absolute,
/// climbing out of the working directory, or naming the working directory
/// itself: a non-empty relative path whose components normalize to a
/// non-empty list of names is accepted, with those names.
pub proof fn lemma_lexical_accepts_what_normalizes(path: Seq<char>, names: Seq<Seq<char>>)
    requires
        path.len() > 0,
        !path_is_absolute_of(path),
        normalized(path_components_of(path)) == Some(names),
        names.len() > 0,
    ensures
        lexical_verdict(path) == Ok::<Seq<Seq<char>>, Seq<char>>(names),
{
}

/// Every path the lexical checks accept is non-empty and relative, and
/// comes back as the non-empty list of names its components normalize to.
pub proof fn lemma_lexical_accepts_only_what_normalizes(path: Seq<char>)
    ensures
        lexical_verdict(path) matches Ok(names) ==> {
            &&& path.len() > 0
            &&& !path_is_absolute_of(path)
            &&& normalized(path_components_of(path)) == Some(names)
            &&& names.len() > 0
        },
{
}

/// Each refusal of the lexical checks, and the path it comes for: an empty
/// path; an absolute one; one that climbs above the working directory or
/// is rooted; and one that normalizes to the working directory itself.
pub proof fn lemma_lexical_refusals(path: Seq<char>)
    ensures
        path.len() == 0 ==> lexical_verdict(path) == Err::<Seq<Seq<char>>, Seq<char>>(
            "Patch path cannot be empty"@,
        ),
        path.len() > 0 && path_is_absolute_of(path) ==> lexical_verdict(path) == Err::<
            Seq<Seq<char>>,
            Seq<char>,
        >("Absolute patch paths are not allowed: "@ + path),
        path.len() > 0 && !path_is_absolute_of(path) && normalized(path_components_of(path)) is None
            ==> lexical_verdict(path) == Err::<Seq<Seq<char>>, Seq<char>>(
            "Patch path escapes workdir: "@ + path,
        ),
        path.len() > 0 && !path_is_absolute_of(path) && normalized(path_components_of(path)) == Some(
            Seq::<Seq<char>>::empty(),
        ) ==> lexical_verdict(path) == Err::<Seq<Seq<char>>, Seq<char>>(
            "Patch path cannot resolve to workdir root: "@ + path,
        ),
{
}

} // verus!
